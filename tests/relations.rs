use gimmisn::config::{RelationConfig, RelationDict, RelationFiltersDict, RelationRangesDict, StreetFilter};
use gimmisn::housenumber::{HouseNumber, LetterSuffixStyle, Street};
use gimmisn::ranges::{Range, Ranges};
use gimmisn::relation::{Relation, RelationError};
use gimmisn::relations::Relations;

fn no_filter() -> RelationFiltersDict {
    RelationFiltersDict {
        ranges: None,
        invalid: None,
        valid: None,
        interpolation: None,
        refsettlement: None,
        show_refstreet: None,
    }
}

fn area(osmrelation: Option<u64>, refcounty: Option<&str>, refsettlement: Option<&str>) -> RelationDict {
    let mut d = RelationDict::empty();
    d.osmrelation = osmrelation;
    d.refcounty = refcounty.map(|s| s.to_string());
    d.refsettlement = refsettlement.map(|s| s.to_string());
    d
}

fn registry(dicts: Vec<(&str, RelationDict)>, own: Vec<(&str, RelationDict)>) -> Relations {
    Relations::new(
        dicts.into_iter().map(|(n, d)| (n.to_string(), d)).collect(),
        own.into_iter().map(|(n, d)| (n.to_string(), d)).collect(),
        Vec::new(),
        Vec::new(),
    )
}

#[test]
fn test_relation_get_street_ranges() {
    let mut own = RelationDict::empty();
    let mut filter = no_filter();
    filter.ranges = Some(vec![RelationRangesDict { start: "1".into(), end: "3".into(), refsettlement: None }]);
    own.filters = Some(vec![StreetFilter { street: "mystreet1".into(), filter }]);
    own.refstreets = Some(vec![("myosm".into(), "myref".into())]);
    own.street_filters = Some(vec!["mystreet2".into()]);
    let mut relations = registry(vec![], vec![("myrelation", own)]);
    let relation = relations.get_relation("myrelation").unwrap();
    let filters = relation.get_street_ranges().unwrap();
    let expected = vec![("mystreet1".to_string(), Ranges::new(vec![Range::new(1, 3, "")]))];
    assert_eq!(filters, expected);
    assert_eq!(relation.get_config().get_refstreets(), vec![("myosm".to_string(), "myref".to_string())]);
    assert_eq!(relation.get_config().get_street_filters(), ["mystreet2".to_string()]);
}

#[test]
fn test_relation_get_street_ranges_empty() {
    let mut relations = registry(vec![], vec![("empty", RelationDict::empty())]);
    let relation = relations.get_relation("empty").unwrap();
    assert_eq!(relation.get_street_ranges().unwrap().is_empty(), true);
}

#[test]
fn street_ranges_reject_bad_bounds() {
    let mut own = RelationDict::empty();
    let mut filter = no_filter();
    filter.ranges = Some(vec![RelationRangesDict { start: "x".into(), end: "3".into(), refsettlement: None }]);
    own.filters = Some(vec![StreetFilter { street: "s".into(), filter }]);
    let relation = Relation::new("r", &RelationConfig::new(&RelationDict::empty(), &own));
    assert_eq!(relation.get_street_ranges(), Err(RelationError::Config));
}

#[test]
fn test_relation_get_ref_street_from_osm_street() {
    let mut relations = registry(vec![("myrelation", area(Some(42), Some("01"), Some("011")))], vec![]);
    let relation = relations.get_relation("myrelation").unwrap();
    let config = relation.get_config();
    assert_eq!(config.get_refcounty(), "01");
    let street = config.get_ref_street_from_osm_street("mystreet");
    assert_eq!(config.get_street_refsettlement(&street), ["011"]);
    assert_eq!(street, "mystreet");
}

#[test]
fn test_relation_get_ref_street_from_osm_street_refsettlement_override() {
    let mut own = RelationDict::empty();
    let mut filter = no_filter();
    filter.refsettlement = Some("012".into());
    own.filters = Some(vec![StreetFilter { street: "mystreet".into(), filter }]);
    let mut relations = registry(vec![("myrelation", area(Some(42), Some("01"), Some("011")))], vec![("myrelation", own)]);
    let relation = relations.get_relation("myrelation").unwrap();
    let config = relation.get_config();
    let street = config.get_ref_street_from_osm_street("mystreet");
    assert_eq!(config.get_refcounty(), "01");
    assert_eq!(config.get_street_refsettlement(&street), ["012"]);
    assert_eq!(street, "mystreet");
}

#[test]
fn test_relation_get_ref_street_from_osm_street_refstreets() {
    let mut own = RelationDict::empty();
    own.refstreets = Some(vec![("OSM Name 1".into(), "Ref Name 1".into())]);
    let mut relations = registry(vec![("myrelation", area(Some(42), Some("01"), Some("011")))], vec![("myrelation", own)]);
    let relation = relations.get_relation("myrelation").unwrap();
    let config = relation.get_config();
    let street = config.get_ref_street_from_osm_street("OSM Name 1");
    assert_eq!(config.get_refcounty(), "01");
    assert_eq!(config.get_street_refsettlement(&street), ["011"]);
    assert_eq!(street, "Ref Name 1");
    assert_eq!(config.get_osm_street_from_ref_street("Ref Name 1"), "OSM Name 1");
}

#[test]
fn test_relation_get_ref_street_from_osm_street_emptyrelation() {
    let mut relations = registry(vec![("myrelation", area(Some(42), Some("01"), Some("011")))], vec![]);
    let relation = relations.get_relation("myrelation").unwrap();
    let config = relation.get_config();
    let street = config.get_ref_street_from_osm_street("OSM Name 1");
    assert_eq!(config.get_refcounty(), "01");
    assert_eq!(config.get_street_refsettlement(&street), ["011"]);
    assert_eq!(street, "OSM Name 1");
}

#[test]
fn test_relation_get_ref_street_from_osm_street_range_level_override() {
    let mut own = RelationDict::empty();
    let mut filter = no_filter();
    filter.ranges = Some(vec![RelationRangesDict { start: "1".into(), end: "1".into(), refsettlement: Some("013".into()) }]);
    own.filters = Some(vec![StreetFilter { street: "mystreet".into(), filter }]);
    let mut relations = registry(vec![("myrelation", area(Some(42), Some("01"), Some("011")))], vec![("myrelation", own)]);
    let relation = relations.get_relation("myrelation").unwrap();
    let config = relation.get_config();
    let street = config.get_ref_street_from_osm_street("mystreet");
    assert_eq!(config.get_refcounty(), "01");
    assert_eq!(config.get_street_refsettlement(&street), ["011", "013"]);
    assert_eq!(street, "mystreet");
}

#[test]
fn test_relations() {
    let mut own2 = RelationDict::empty();
    own2.inactive = Some(true);
    let mut own3 = RelationDict::empty();
    own3.missing_streets = Some("only".into());
    let mut relations = registry(
        vec![
            ("myrelation1", area(Some(42), Some("01"), Some("011"))),
            ("myrelation2", area(Some(43), Some("43"), Some("011"))),
            ("myrelation3", area(Some(44), Some("01"), Some("99"))),
        ],
        vec![("myrelation2", own2), ("myrelation3", own3), ("gh195", RelationDict::empty())],
    );
    assert_eq!(relations.get_names(), ["myrelation1", "myrelation2", "myrelation3"]);
    assert_eq!(relations.get_active_names().unwrap().contains(&"myrelation2".to_string()), false);
    let mut osmids: Vec<_> = relations
        .get_relations()
        .unwrap()
        .iter()
        .map(|relation| relation.get_config().get_osmrelation())
        .collect();
    osmids.sort();
    assert_eq!(osmids, [42, 43, 44]);
    let ujbuda = relations.get_relation("myrelation3").unwrap();
    assert_eq!(ujbuda.get_config().should_check_missing_streets(), "only");

    relations.activate_all(true);
    let active_names = relations.get_active_names().unwrap();
    assert_eq!(active_names.contains(&"myrelation2".to_string()), true);

    // Visible though not listed.
    relations.get_relation("gh195").unwrap();
    assert_eq!(relations.get_relation("nosuchrelation").is_err(), true);

    assert_eq!(relations.get_active_names().unwrap().contains(&"myrelation1".to_string()), true);
    assert_eq!(relations.get_active_names().unwrap().contains(&"myrelation2".to_string()), true);
    relations.limit_to_refcounty(&Some("01".to_string())).unwrap();
    assert_eq!(relations.get_active_names().unwrap().contains(&"myrelation1".to_string()), true);
    assert_eq!(relations.get_active_names().unwrap().contains(&"myrelation2".to_string()), false);

    assert_eq!(relations.get_active_names().unwrap().contains(&"myrelation1".to_string()), true);
    assert_eq!(relations.get_active_names().unwrap().contains(&"myrelation3".to_string()), true);
    relations.limit_to_refsettlement(&Some("99".to_string())).unwrap();
    assert_eq!(relations.get_active_names().unwrap().contains(&"myrelation1".to_string()), false);
    assert_eq!(relations.get_active_names().unwrap().contains(&"myrelation3".to_string()), true);
}

#[test]
fn limits_never_activate() {
    let mut own = RelationDict::empty();
    own.inactive = Some(true);
    let mut relations = registry(
        vec![("a", area(None, Some("01"), Some("011"))), ("b", area(None, Some("01"), Some("012")))],
        vec![("a", own)],
    );
    assert_eq!(relations.get_active_names().unwrap(), ["b"]);
    relations.limit_to_refcounty(&Some("01".to_string())).unwrap();
    assert_eq!(relations.get_active_names().unwrap(), ["b"]);
    relations.limit_to_refcounty(&None).unwrap();
    assert_eq!(relations.get_active_names().unwrap(), ["b"]);
    relations.limit_to_refsettlement(&Some("011".to_string())).unwrap();
    assert_eq!(relations.get_active_names().unwrap().is_empty(), true);
}

#[test]
fn test_relation_config_should_check_missing_streets() {
    let mut own = RelationDict::empty();
    own.missing_streets = Some("only".into());
    let mut relations = registry(vec![("myrelation", area(None, None, Some("42")))], vec![("myrelation", own)]);
    let relation = relations.get_relation("myrelation").unwrap();
    assert_eq!(relation.get_config().should_check_missing_streets(), "only");
}

#[test]
fn test_relation_config_should_check_missing_streets_default() {
    let mut relations = registry(vec![("myrelation", area(None, None, Some("42")))], vec![]);
    let relation = relations.get_relation("myrelation").unwrap();
    assert_eq!(relation.get_config().should_check_missing_streets(), "yes");
}

#[test]
fn test_relation_config_get_letter_suffix_style() {
    let mut relations = registry(vec![("myrelation", area(None, None, Some("42")))], vec![]);
    let mut relation = relations.get_relation("myrelation").unwrap();
    assert_eq!(relation.config.get_letter_suffix_style(), LetterSuffixStyle::Upper);
    let mut config = relation.config.clone();
    config.set_letter_suffix_style(LetterSuffixStyle::Lower);
    relation.set_config(&config);
    assert_eq!(relation.config.get_letter_suffix_style(), LetterSuffixStyle::Lower);
}

#[test]
fn test_refcounty_get_name() {
    let relations = Relations::new(Vec::new(), Vec::new(), vec![("01".into(), "Budapest".into())], Vec::new());
    assert_eq!(relations.refcounty_get_name("01"), "Budapest");
    assert_eq!(relations.refcounty_get_name("99"), "");
}

#[test]
fn test_refcounty_get_refsettlement_ids() {
    let relations = Relations::new(
        Vec::new(),
        Vec::new(),
        vec![("01".into(), "mycity".into())],
        vec![("01".into(), vec![("011".into(), "myrelation1".into()), ("012".into(), "myrelation1".into())])],
    );
    assert_eq!(relations.refcounty_get_refsettlement_ids("01"), ["011".to_string(), "012".to_string()]);
    assert_eq!(relations.refcounty_get_refsettlement_ids("99").is_empty(), true);
}

#[test]
fn test_refsettlement_get_name() {
    let relations = Relations::new(
        Vec::new(),
        Vec::new(),
        vec![("01".into(), "mycity".into())],
        vec![("01".into(), vec![("011".into(), "mysettlement".into())])],
    );
    assert_eq!(relations.refsettlement_get_name("01", "011"), "mysettlement");
    assert_eq!(relations.refsettlement_get_name("99", ""), "");
    assert_eq!(relations.refsettlement_get_name("01", "99"), "");
}

#[test]
fn test_relations_get_aliases() {
    let mut own = RelationDict::empty();
    own.alias = Some(vec!["budapest_22".into()]);
    let mut relations = registry(vec![("budafok", RelationDict::empty())], vec![("budafok", own)]);
    assert_eq!(
        relations.get_aliases().unwrap(),
        vec![("budapest_22".to_string(), "budafok".to_string())]
    );
    // An alias is no name of a relation of its own.
    assert_eq!(relations.get_relation("budapest_22").is_err(), true);
}

#[test]
fn test_relation_config_get_street_is_even_odd() {
    let mut own = RelationDict::empty();
    let mut all = no_filter();
    all.interpolation = Some("all".into());
    let mut notall = no_filter();
    notall.interpolation = Some("notall".into());
    own.filters = Some(vec![
        StreetFilter { street: "Hamzsabégi út".into(), filter: all },
        StreetFilter { street: "Teszt utca".into(), filter: notall },
    ]);
    let mut relations = registry(vec![("gazdagret", RelationDict::empty())], vec![("gazdagret", own)]);
    let relation = relations.get_relation("gazdagret").unwrap();
    assert_eq!(relation.config.get_street_is_even_odd("Hamzsabégi út"), false);
    assert_eq!(relation.config.get_street_is_even_odd("Teszt utca"), true);
}

#[test]
fn test_relation_config_should_show_ref_street() {
    let mut own = RelationDict::empty();
    let mut f1 = no_filter();
    f1.show_refstreet = Some(false);
    let mut f2 = no_filter();
    f2.show_refstreet = Some(true);
    own.filters = Some(vec![
        StreetFilter { street: "mystreet1".into(), filter: f1 },
        StreetFilter { street: "mystreet2".into(), filter: f2 },
    ]);
    let mut relations = registry(vec![("myrelation", area(Some(42), None, None))], vec![("myrelation", own)]);
    let relation = relations.get_relation("myrelation").unwrap();
    assert_eq!(relation.config.should_show_ref_street("mystreet1"), false);
    assert_eq!(relation.config.should_show_ref_street("mystreet2"), true);
}

#[test]
fn test_relation_config_is_active() {
    let mut relations = registry(vec![("myrelation", area(None, None, Some("42")))], vec![]);
    let relation = relations.get_relation("myrelation").unwrap();
    assert_eq!(relation.get_config().is_active(), true);
}

#[test]
fn test_relation_config_set_active() {
    let mut relations = registry(vec![("myrelation", area(Some(42), None, None))], vec![]);
    let relation = relations.get_relation("myrelation").unwrap();
    let mut config = relation.get_config().clone();
    assert_eq!(config.is_active(), true);
    config.set_active(false);
    assert_eq!(config.is_active(), false);
}

#[test]
fn test_relation_numbered_streets_to_table() {
    let mut own = RelationDict::empty();
    let mut filter = no_filter();
    filter.interpolation = Some("all".into());
    own.filters = Some(vec![StreetFilter { street: "mystreet".into(), filter }]);
    let mut relations = registry(vec![("myrelation", area(Some(42), None, None))], vec![("myrelation", own)]);
    let relation = relations.get_relation("myrelation").unwrap();
    let street = Street::new("mystreet", "mystreet", false, 0);
    let house_numbers = vec![HouseNumber::new("1", "1", ""), HouseNumber::new("2", "2", "")];
    let streets = vec![(street, house_numbers)];
    let (table, todo_count) = relation.numbered_streets_to_table(&streets);
    assert_eq!(table.len(), 2);
    let row = &table[1];
    assert_eq!(row.len(), 3);
    assert_eq!(row[0], "mystreet");
    assert_eq!(row[1], "2");
    // No line break here.
    assert_eq!(row[2], "1, 2");
    assert_eq!(todo_count, 2);
}

#[test]
fn even_odd_table_breaks_line_and_colors_estimates() {
    let relation = Relation::new("r", &RelationConfig::new(&RelationDict::empty(), &RelationDict::empty()));
    let street = Street::new("s", "s", false, 0);
    let house_numbers = vec![
        HouseNumber::new("7", "7", ""),
        HouseNumber::new("10", "10", ""),
        HouseNumber::new("36*", "36*", ""),
        HouseNumber::new("4", "2-6", ""),
        HouseNumber::new("6", "2-6", ""),
    ];
    let (table, todo_count) = relation.numbered_streets_to_table(&vec![(street, house_numbers)]);
    assert_eq!(table[0], ["Street name", "Missing count", "House numbers"]);
    assert_eq!(table[1][1], "4");
    assert_eq!(table[1][2], "7<br />10, <span style=\"color: blue;\">36</span>, 2-6");
    assert_eq!(todo_count, 4);
}
