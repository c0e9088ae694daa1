use gimmisn::config::{
    set_config_filters, set_config_housenumber_letters, RelationConfig, RelationDict, RelationFiltersDict,
    StreetFilter,
};
use gimmisn::housenumber::{OsmType, Street};
use gimmisn::query::{fill_query_template, make_turbo_query_for_streets};
use gimmisn::reference::ReferenceHouseNumber;
use gimmisn::relation::{Relation, RelationError};
use gimmisn::report::{format_percent, get_percent};

const STREETS: &str = "@id\tname\n1\tTűzkő utca\n2\tTörökugrató utca\n3\tOSM Name 1\n4\tHamzsabégi út\n";

const HEADER: &str = "@id\taddr:street\taddr:housenumber\taddr:postcode\taddr:housename\taddr:conscriptionnumber\taddr:flats\taddr:floor\taddr:door\taddr:unit\tname\t@type\taddr:place\n";

fn housenumbers() -> String {
    let rows = [
        ("Törökugrató utca", "1"),
        ("Törökugrató utca", "2"),
        ("Tűzkő utca", "9"),
        ("Tűzkő utca", "10"),
        ("OSM Name 1", "1"),
        ("OSM Name 1", "2"),
        ("Only In OSM utca", "1"),
        ("Second Only In OSM utca", "1"),
    ];
    let mut text = HEADER.to_string();
    for (street, number) in rows {
        text += &format!("1\t{}\t{}\t\t\t\t\t\t\t\t\tnode\t\n", street, number);
    }
    text
}

fn ref_lines() -> Vec<String> {
    let mut lines = Vec::new();
    for n in ["1", "2", "7", "10", "11", "12"] {
        lines.push(format!("Törökugrató utca\t{}\t", n));
    }
    for n in ["1", "2", "9", "10"] {
        lines.push(format!("Tűzkő utca\t{}\t", n));
    }
    for n in ["1", "2"] {
        lines.push(format!("OSM Name 1\t{}\t", n));
    }
    lines.push("Hamzsabégi út\t1\t".to_string());
    lines
}

fn ref_streets() -> Vec<String> {
    [
        "Törökugrató utca",
        "Tűzkő utca",
        "Ref Name 1",
        "Only In Ref utca",
        "Only In Ref Nonsense utca",
        "Hamzsabégi út",
    ]
    .iter()
    .map(|s| s.to_string())
    .collect()
}

fn filter() -> RelationFiltersDict {
    RelationFiltersDict {
        ranges: None,
        invalid: None,
        valid: None,
        interpolation: None,
        refsettlement: None,
        show_refstreet: None,
    }
}

fn gazdagret() -> Relation {
    let mut parent = RelationDict::empty();
    parent.osmrelation = Some(42);
    parent.refcounty = Some("01".into());
    parent.refsettlement = Some("011".into());
    let mut own = RelationDict::empty();
    let mut invalid = filter();
    invalid.invalid = Some(vec!["11".into(), "12".into()]);
    let mut valid = filter();
    valid.valid = Some(vec!["1".into()]);
    own.filters = Some(vec![
        StreetFilter { street: "Törökugrató utca".into(), filter: invalid },
        StreetFilter { street: "Second Only In OSM utca".into(), filter: valid },
    ]);
    own.refstreets = Some(vec![("OSM Name 1".into(), "Ref Name 1".into())]);
    own.street_filters = Some(vec!["Only In Ref Nonsense utca".into()]);
    own.osm_street_filters = Some(vec!["Second Only In OSM utca".into()]);
    Relation::new("gazdagret", &RelationConfig::new(&parent, &own))
}

fn names_and_numbers(v: &[(Street, Vec<gimmisn::housenumber::HouseNumber>)]) -> Vec<(String, Vec<String>)> {
    v.iter()
        .map(|(s, ns)| (s.get_osm_name().clone(), ns.iter().map(|n| n.get_number().clone()).collect()))
        .collect()
}

#[test]
fn osm_streets_sorted_from_both_tables() {
    let relation = gazdagret();
    let streets = relation.get_osm_streets(STREETS, &housenumbers(), true).unwrap();
    let names: Vec<_> = streets.iter().map(|s| s.get_osm_name().clone()).collect();
    assert_eq!(
        names,
        [
            "Hamzsabégi út",
            "OSM Name 1",
            "Only In OSM utca",
            "Second Only In OSM utca",
            "Törökugrató utca",
            "Tűzkő utca"
        ]
    );
    assert_eq!(streets[0].get_osm_type(), OsmType::Way);
    assert_eq!(streets[2].get_osm_type(), OsmType::Node);
    assert_eq!(streets[2].get_osm_type().name(), "node");
}

#[test]
fn osm_streets_unsorted_keep_order() {
    let relation = gazdagret();
    let streets = relation.get_osm_streets(STREETS, "", false).unwrap();
    let names: Vec<_> = streets.iter().map(|s| s.get_osm_name().clone()).collect();
    assert_eq!(names, ["Tűzkő utca", "Törökugrató utca", "OSM Name 1", "Hamzsabégi út"]);
    assert_eq!(streets[3].get_osm_id(), 4);
}

#[test]
fn test_relation_get_osm_streets_bad_overpass() {
    let relation = gazdagret();
    assert_eq!(relation.get_osm_streets("@id\n42\n", "", true), Err(RelationError::Format));
}

#[test]
fn test_relation_get_osm_streets_conscriptionnumber() {
    let relation = gazdagret();
    let hn = format!(
        "{}7\t\t\t\t\t52\t\t\t\t\t\tnode\tTolvajos tanya\n8\tBarcfa dűlő\t\t\t\t1\t\t\t\t\t\tway\t\n",
        HEADER
    );
    let streets = relation.get_osm_streets("@id\tname\n", &hn, true).unwrap();
    let names: Vec<_> = streets.iter().map(|s| s.get_osm_name().clone()).collect();
    assert_eq!(names, ["Barcfa dűlő", "Tolvajos tanya"]);
}

#[test]
fn test_relation_get_osm_housenumbers() {
    let relation = gazdagret();
    let numbers = relation.get_osm_housenumbers(&housenumbers(), "Törökugrató utca").unwrap();
    let actual: Vec<_> = numbers.iter().map(|i| i.get_number().clone()).collect();
    assert_eq!(actual, ["1", "2"]);
}

#[test]
fn test_relation_get_osm_housenumbers_addr_place() {
    let relation = gazdagret();
    let hn = format!("{}7\t\t52\t\t\t\t\t\t\t\t\tnode\tTolvajos tanya\n", HEADER);
    let numbers = relation.get_osm_housenumbers(&hn, "Tolvajos tanya").unwrap();
    let actual: Vec<_> = numbers.iter().map(|i| i.get_number().clone()).collect();
    assert_eq!(actual, ["52"]);
}

#[test]
fn osm_housenumbers_deduplicated() {
    let relation = gazdagret();
    let hn = format!("{}1\tA utca\t3\t\t\t\t\t\t\t\t\tnode\t\n2\tA utca\t3\t\t\t\t\t\t\t\t\tnode\t\n", HEADER);
    let numbers = relation.get_osm_housenumbers(&hn, "A utca").unwrap();
    assert_eq!(numbers.len(), 1);
}

#[test]
fn test_relation_get_missing_housenumbers() {
    let relation = gazdagret();
    let (ongoing, done) = relation.get_missing_housenumbers(STREETS, &housenumbers(), &ref_lines()).unwrap();
    let to_strings = |v: Vec<(&str, Vec<&str>)>| -> Vec<(String, Vec<String>)> {
        v.into_iter()
            .map(|(s, ns)| (s.to_string(), ns.into_iter().map(|n| n.to_string()).collect()))
            .collect()
    };
    assert_eq!(
        names_and_numbers(&ongoing),
        to_strings(vec![
            ("Törökugrató utca", vec!["7", "10"]),
            ("Tűzkő utca", vec!["1", "2"]),
            ("Hamzsabégi út", vec!["1"]),
        ])
    );
    assert_eq!(
        names_and_numbers(&done),
        to_strings(vec![
            ("OSM Name 1", vec!["1", "2"]),
            ("Törökugrató utca", vec!["1", "2"]),
            ("Tűzkő utca", vec!["9", "10"]),
        ])
    );
    // Every reference number is in exactly one of the two lists.
    for (street, numbers) in &ongoing {
        for (other, present) in &done {
            if street.get_osm_name() == other.get_osm_name() {
                for n in numbers {
                    assert_eq!(present.contains(n), false);
                }
            }
        }
    }
}

#[test]
fn missing_housenumbers_letter_suffix_match() {
    let mut own = RelationDict::empty();
    own.housenumber_letters = Some(true);
    let relation = Relation::new("r", &RelationConfig::new(&RelationDict::empty(), &own));
    let hn = format!("{}1\tA utca\t42/a\t\t\t\t\t\t\t\t\tnode\t\n", HEADER);
    let lines = vec!["A utca\t42/A*\t".to_string(), "A utca\t42 B\t".to_string()];
    let (ongoing, done) = relation.get_missing_housenumbers("@id\tname\n", &hn, &lines).unwrap();
    assert_eq!(names_and_numbers(&ongoing), vec![("A utca".to_string(), vec!["42/B".to_string()])]);
    assert_eq!(names_and_numbers(&done), vec![("A utca".to_string(), vec!["42/A".to_string()])]);
}

#[test]
fn test_relation_write_missing_housenumbers() {
    let relation = gazdagret();
    let (todo_street_count, todo_count, done_count, percent, table) =
        relation.write_missing_housenumbers(STREETS, &housenumbers(), &ref_lines()).unwrap();
    assert_eq!(todo_street_count, 3);
    assert_eq!(todo_count, 5);
    assert_eq!(done_count, 6);
    assert_eq!(format_percent(percent), "54.55");
    assert_eq!(
        table,
        [
            ["Street name", "Missing count", "House numbers"],
            ["Törökugrató utca", "2", "7<br />10"],
            ["Tűzkő utca", "2", "1<br />2"],
            ["Hamzsabégi út", "1", "1"]
        ]
    );
}

#[test]
fn test_relation_write_missing_housenumbers_empty() {
    let relation = Relation::new("empty", &RelationConfig::new(&RelationDict::empty(), &RelationDict::empty()));
    let (_, _, _, percent, _) = relation.write_missing_housenumbers("@id\tname\n", "", &Vec::new()).unwrap();
    assert_eq!(percent, 10000);
    assert_eq!(format_percent(percent), "100.00");
    assert_eq!(relation.config.get_filters().is_none(), true);
}

#[test]
fn test_relation_write_missing_housenumbers_sorting() {
    let relation = Relation::new("gh414", &RelationConfig::new(&RelationDict::empty(), &RelationDict::empty()));
    let lines = vec!["A utca\t2-10\t".to_string(), "B utca\t1\t".to_string(), "B utca\t3\t".to_string()];
    let (_, _, _, _, table) = relation
        .write_missing_housenumbers("@id\tname\n1\tA utca\n2\tB utca\n", "", &lines)
        .unwrap();
    assert_eq!(
        table,
        [
            ["Street name", "Missing count", "House numbers"],
            ["B utca", "2", "1, 3"],
            ["A utca", "1", "2-10"]
        ]
    );
}

#[test]
fn percent_values() {
    assert_eq!(get_percent(6, 5), 5455);
    assert_eq!(get_percent(0, 0), 10000);
    assert_eq!(get_percent(4, 1), 8000);
    assert_eq!(get_percent(0, 3), 0);
    assert_eq!(format_percent(5455), "54.55");
    assert_eq!(format_percent(8000), "80.00");
    assert_eq!(format_percent(7), "0.07");
}

#[test]
fn test_relation_get_missing_streets() {
    let relation = gazdagret();
    let (only_in_reference, in_both) =
        relation.get_missing_streets(STREETS, &housenumbers(), &ref_streets()).unwrap();
    assert_eq!(only_in_reference, ["Only In Ref utca"]);
    assert_eq!(in_both, ["Hamzsabégi út", "Ref Name 1", "Törökugrató utca", "Tűzkő utca"]);
}

#[test]
fn test_write_missing_streets() {
    let relation = gazdagret();
    let (todo_count, done_count, percent, streets) =
        relation.write_missing_streets(STREETS, &housenumbers(), &ref_streets()).unwrap();
    assert_eq!(todo_count, 1);
    assert_eq!(done_count, 4);
    assert_eq!(format_percent(percent), "80.00");
    assert_eq!(streets, ["Only In Ref utca"]);
}

#[test]
fn test_relation_get_additional_streets() {
    let relation = gazdagret();
    let only_in_osm = relation.get_additional_streets(STREETS, &housenumbers(), &ref_streets(), true).unwrap();
    assert_eq!(only_in_osm, [Street::from_string("Only In OSM utca")]);
    assert_eq!(relation.get_config().get_osm_street_filters(), ["Second Only In OSM utca"]);
}

#[test]
fn test_relation_get_additional_housenumbers() {
    let relation = gazdagret();
    let only_in_osm = relation.get_additional_housenumbers(STREETS, &housenumbers(), &ref_lines()).unwrap();
    assert_eq!(names_and_numbers(&only_in_osm), vec![("Only In OSM utca".to_string(), vec!["1".to_string()])]);
}

#[test]
fn test_relation_get_ref_streets() {
    let relation = gazdagret();
    let mut streets = ref_streets();
    streets.push("Tűzkő utca".into());
    assert_eq!(
        relation.get_ref_streets(&streets),
        [
            "Hamzsabégi út",
            "Only In Ref Nonsense utca",
            "Only In Ref utca",
            "Ref Name 1",
            "Törökugrató utca",
            "Tűzkő utca"
        ]
    );
}

#[test]
fn test_relation_get_osm_streets_query() {
    let mut d = RelationDict::empty();
    d.osmrelation = Some(42);
    let relation = Relation::new("gazdagret", &RelationConfig::new(&d, &RelationDict::empty()));
    assert_eq!(relation.get_osm_streets_query("aaa @RELATION@ bbb @AREA@ ccc\n"), "aaa 42 bbb 3600000042 ccc\n");
    assert_eq!(fill_query_template("[timeout:@TIMEOUT@] @x@ a@b", 7), "[timeout:425] @x@ a@b");
}

#[test]
fn test_relation_get_osm_housenumbers_query() {
    let mut d = RelationDict::empty();
    d.osmrelation = Some(42);
    let relation = Relation::new("gazdagret", &RelationConfig::new(&d, &RelationDict::empty()));
    assert_eq!(
        relation.get_osm_housenumbers_query("housenr aaa @RELATION@ bbb @AREA@ ccc\n"),
        "housenr aaa 42 bbb 3600000042 ccc\n"
    );
}

#[test]
fn test_make_turbo_query_for_streets() {
    let mut d = RelationDict::empty();
    d.osmrelation = Some(2713748);
    let relation = Relation::new("gazdagret", &RelationConfig::new(&d, &RelationDict::empty()));
    let from = vec!["A2".to_string()];
    let ret = make_turbo_query_for_streets(&relation, &from);
    let expected = r#"[out:json][timeout:425];
rel(2713748)->.searchRelation;
area(3602713748)->.searchArea;
(rel(2713748);
way["name"="A2"](r.searchRelation);
way["name"="A2"](area.searchArea);
);
out body;
>;
out skel qt;
{{style:
relation{width:3}
way{color:blue; width:4;}
}}"#;
    assert_eq!(ret, expected);
}

fn rec(county: &str, settlement: &str, street: &str, number: &str) -> ReferenceHouseNumber {
    ReferenceHouseNumber {
        refcounty: county.into(),
        refsettlement: settlement.into(),
        street: street.into(),
        number: number.into(),
        comment: String::new(),
    }
}

#[test]
fn build_ref_housenumbers_by_value() {
    let relation = gazdagret();
    let reference = vec![
        rec("01", "011", "Törökugrató utca", "12"),
        rec("01", "011", "Törökugrató utca", "2"),
        rec("01", "011", "Törökugrató utca", "10"),
        rec("01", "012", "Törökugrató utca", "3"),
        rec("02", "011", "Törökugrató utca", "4"),
        rec("01", "011", "Ref Name 1", "1"),
    ];
    let ret = relation.build_ref_housenumbers(&reference, "Törökugrató utca", "").unwrap();
    assert_eq!(ret, ["Törökugrató utca\t2\t", "Törökugrató utca\t10\t", "Törökugrató utca\t12\t"]);
    let ret = relation.build_ref_housenumbers(&reference, "OSM Name 1", "*").unwrap();
    assert_eq!(ret, ["OSM Name 1\t1*\t"]);
}

#[test]
fn test_relation_build_ref_housenumbers_missing() {
    let mut d = RelationDict::empty();
    d.refsettlement = Some("42".into());
    let relation = Relation::new("myrelation", &RelationConfig::new(&d, &RelationDict::empty()));
    let reference = vec![rec("01", "011", "Törökugrató utca", "1")];
    let ret = relation.build_ref_housenumbers(&reference, "mystreet", "").unwrap();
    assert_eq!(ret.is_empty(), true);
}

#[test]
fn test_relation_build_ref_streets() {
    let relation = gazdagret();
    let mut reference: Vec<(String, String, String)> = Vec::new();
    for street in ["Törökugrató utca", "Tűzkő utca", "Ref Name 1", "Only In Ref utca", "Only In Ref Nonsense utca", "Hamzsabégi út"] {
        reference.push(("01".into(), "011".into(), street.into()));
    }
    reference.push(("01".into(), "012".into(), "Elsewhere utca".into()));
    assert_eq!(
        relation.config.get_ref_streets(&reference),
        &[
            "Törökugrató utca",
            "Tűzkő utca",
            "Ref Name 1",
            "Only In Ref utca",
            "Only In Ref Nonsense utca",
            "Hamzsabégi út"
        ]
    );
}

#[test]
fn test_relation_write_ref_streets() {
    let relation = gazdagret();
    let mut reference: Vec<(String, String, String)> = Vec::new();
    for street in ["Törökugrató utca", "Tűzkő utca", "Ref Name 1", "Tűzkő utca", "Hamzsabégi út"] {
        reference.push(("01".into(), "011".into(), street.into()));
    }
    assert_eq!(
        relation.write_ref_streets(&reference),
        ["Hamzsabégi út", "Ref Name 1", "Törökugrató utca", "Tűzkő utca"]
    );
}

#[test]
fn test_relation_writer_ref_housenumbers_nosuchrefsettlement() {
    let mut d = RelationDict::empty();
    d.refcounty = Some("01".into());
    d.refsettlement = Some("99".into());
    let relation = Relation::new("nosuchrefsettlement", &RelationConfig::new(&d, &RelationDict::empty()));
    let reference = vec![rec("01", "011", "Törökugrató utca", "2")];
    let ret = relation.write_ref_housenumbers(STREETS, "", &vec![reference]).unwrap();
    assert_eq!(ret.is_empty(), true);
}

#[test]
fn test_relation_get_osm_streets() {
    let relation = gazdagret();
    let hn = format!("{}1\tHB2\t1\t\t\t\t\t\t\t\t\tnode\t\n2\tHB1\t2\t\t\t\t\t\t\t\t\tnode\t\n3\tB1\t3\t\t\t\t\t\t\t\t\tnode\t\n", HEADER);
    let streets = relation.get_osm_streets("@id\tname\n1\tB2\n2\tB1\n", &hn, true).unwrap();
    let actual: Vec<String> = streets.iter().map(|i| i.get_osm_name().clone()).collect();
    let expected: Vec<String> = vec!["B1".into(), "B2".into(), "HB1".into(), "HB2".into()];
    assert_eq!(actual, expected);
}

#[test]
fn test_relation_get_osm_streets_street_is_node() {
    let relation = gazdagret();
    let hn = format!("{}1\tKálvin tér\t1\t\t\t\t\t\t\t\t\tnode\t\n", HEADER);
    let actual = relation.get_osm_streets("@id\tname\n", &hn, true).unwrap();
    assert_eq!(actual.len(), 1);
    assert_eq!(actual[0].get_osm_type().name(), "node");
}

#[test]
fn test_relation_get_osm_streets_no_house_number() {
    let relation = gazdagret();
    let osm_streets = relation
        .get_osm_streets("@id\tname\n1\tTűzkő utca\n2\tTörökugrató utca\n3\tOSM Name 1\n", "", true)
        .unwrap();
    let actual: Vec<_> = osm_streets.iter().map(|i| i.get_osm_name().clone()).collect();
    assert_eq!(actual, vec!["OSM Name 1", "Törökugrató utca", "Tűzkő utca"]);
}

#[test]
fn test_relation_get_additional_streets_no_osm_street_filters() {
    let mut d = RelationDict::empty();
    d.osmrelation = Some(42);
    let relation = Relation::new("gh385", &RelationConfig::new(&d, &RelationDict::empty()));
    assert_eq!(relation.get_config().get_osm_street_filters().is_empty(), true);
}

#[test]
fn test_write_missing_streets_empty() {
    let relation = Relation::new("empty", &RelationConfig::new(&RelationDict::empty(), &RelationDict::empty()));
    let (_todo_count, _done_count, percent, _streets) =
        relation.write_missing_streets("@id\tname\n", "", &Vec::new()).unwrap();
    assert_eq!(format_percent(percent), "100.00");
}

#[test]
fn test_relation_write_missing_housenumbers_interpolation_all() {
    let mut own = RelationDict::empty();
    let mut all = filter();
    all.interpolation = Some("all".into());
    own.filters = Some(vec![StreetFilter { street: "Vöröskúti határsor".into(), filter: all }]);
    let relation = Relation::new("budafok", &RelationConfig::new(&RelationDict::empty(), &own));
    let lines: Vec<String> = ["2", "12", "34", "36*"]
        .iter()
        .map(|n| format!("Vöröskúti határsor\t{}\t", n))
        .collect();
    let (_, _, _, _, table) = relation
        .write_missing_housenumbers("@id\tname\n1\tVöröskúti határsor\n", "", &lines)
        .unwrap();
    assert_eq!(
        table,
        [
            ["Street name", "Missing count", "House numbers"],
            ["Vöröskúti határsor", "4", "2, 12, 34, <span style=\"color: blue;\">36</span>"]
        ]
    );
}

#[test]
fn test_relation_get_missing_housenumbers_invalid_simplify() {
    let lines = vec!["Kővirág sor\t37/B\t".to_string()];
    let streets = "@id\tname\n1\tKővirág sor\n";
    let mut relation = Relation::new("gh385", &RelationConfig::new(&RelationDict::empty(), &RelationDict::empty()));
    let mut invalid = filter();
    invalid.invalid = Some(vec!["37b".into()]);
    let filters = vec![StreetFilter { street: "Kővirág sor".into(), filter: invalid }];

    // Default case: housenumber-letters=false; 37b and 37/B are both 37.
    {
        let mut config = relation.get_config().clone();
        set_config_filters(&mut config, &filters);
        relation.set_config(&config);
        let (ongoing, _) = relation.get_missing_housenumbers(streets, "", &lines).unwrap();
        assert_eq!(ongoing.is_empty(), true);
    }

    // Opt-in case: housenumber-letters=true; 37b and 37/B are both 37/B.
    {
        let mut config = relation.get_config().clone();
        set_config_housenumber_letters(&mut config, true);
        relation.set_config(&config);
        set_config_filters(&mut config, &filters);
        relation.set_config(&config);
        let (ongoing, _) = relation.get_missing_housenumbers(streets, "", &lines).unwrap();
        assert_eq!(ongoing.is_empty(), true);
    }

    // An invalid number outside the ranges is no error.
    let mut config = relation.get_config().clone();
    set_config_housenumber_letters(&mut config, true);
    let mut f = filter();
    f.invalid = Some(vec!["5".into()]);
    f.ranges = Some(vec![gimmisn::config::RelationRangesDict { start: "1".into(), end: "3".into(), refsettlement: None }]);
    set_config_filters(&mut config, &vec![StreetFilter { street: "Kővirág sor".into(), filter: f }]);
    relation.set_config(&config);
    relation.get_missing_housenumbers(streets, "", &lines).unwrap();
}

#[test]
fn test_relation_get_missing_housenumbers_letter_suffix_invalid() {
    let mut own = RelationDict::empty();
    own.housenumber_letters = Some(true);
    let mut f = filter();
    f.invalid = Some(vec!["9".into(), "47".into()]);
    own.filters = Some(vec![StreetFilter { street: "Rétköz utca".into(), filter: f }]);
    let relation = Relation::new("gh296", &RelationConfig::new(&RelationDict::empty(), &own));
    let lines: Vec<String> = ["9/A", "9 A 1", "47"].iter().map(|n| format!("Rétköz utca\t{}\t", n)).collect();
    let (ongoing, _) = relation.get_missing_housenumbers("@id\tname\n1\tRétköz utca\n", "", &lines).unwrap();
    assert_eq!(names_and_numbers(&ongoing), vec![("Rétköz utca".to_string(), vec!["9/A".to_string()])]);
}

#[test]
fn test_relation_get_missing_housenumbers_letter_suffix_normalize() {
    let mut own = RelationDict::empty();
    own.housenumber_letters = Some(true);
    let relation = Relation::new("gh286", &RelationConfig::new(&RelationDict::empty(), &own));
    let hn = format!("{}1\tBecsi utca\t10 B\t\t\t\t\t\t\t\t\tnode\t\n", HEADER);
    let lines = vec!["Becsi utca\t10/A\t".to_string(), "Becsi utca\t10/B\t".to_string()];
    let (ongoing, _) = relation.get_missing_housenumbers("@id\tname\n", &hn, &lines).unwrap();
    assert_eq!(names_and_numbers(&ongoing), vec![("Becsi utca".to_string(), vec!["10/A".to_string()])]);
}

#[test]
fn test_relation_get_missing_housenumbers_letter_suffix_source_suffix() {
    let mut relation = Relation::new("gh299", &RelationConfig::new(&RelationDict::empty(), &RelationDict::empty()));
    // Opt-in, this is not the default behavior.
    let mut config = relation.get_config().clone();
    set_config_housenumber_letters(&mut config, true);
    relation.set_config(&config);
    let hn = format!("{}1\tBártfai utca\t52/b\t\t\t\t\t\t\t\t\tnode\t\n", HEADER);
    let lines = vec!["Bártfai utca\t52/B*\t".to_string()];
    let (ongoing, _) = relation.get_missing_housenumbers("@id\tname\n", &hn, &lines).unwrap();
    assert_eq!(ongoing.is_empty(), true);
}

#[test]
fn ref_streets_of_the_area() {
    let relation = gazdagret();
    let reference = vec![
        ("01".to_string(), "011".to_string(), "B utca".to_string()),
        ("01".to_string(), "012".to_string(), "C utca".to_string()),
        ("01".to_string(), "011".to_string(), "A utca".to_string()),
        ("01".to_string(), "011".to_string(), "B utca".to_string()),
    ];
    assert_eq!(relation.get_config().get_ref_streets(&reference), ["B utca", "A utca", "B utca"]);
    assert_eq!(relation.write_ref_streets(&reference), ["A utca", "B utca"]);
    let other = Relation::new("x", &RelationConfig::new(&RelationDict::empty(), &RelationDict::empty()));
    assert_eq!(other.write_ref_streets(&reference).is_empty(), true);
}

#[test]
fn write_ref_housenumbers_all_streets() {
    let relation = gazdagret();
    let first = vec![
        rec("01", "011", "Törökugrató utca", "2"),
        rec("01", "011", "Törökugrató utca", "1"),
        rec("01", "011", "Ref Name 1", "1"),
        rec("01", "011", "Nowhere utca", "5"),
    ];
    let second = vec![rec("01", "011", "Tűzkő utca", "3"), rec("01", "011", "Törökugrató utca", "1")];
    let ret = relation.write_ref_housenumbers(STREETS, "", &vec![first, second]).unwrap();
    assert_eq!(
        ret,
        [
            "OSM Name 1\t1\t",
            "Törökugrató utca\t1\t",
            "Törökugrató utca\t1*\t",
            "Törökugrató utca\t2\t",
            "Tűzkő utca\t3*\t"
        ]
    );
}

#[test]
fn test_relation_writer_ref_housenumbers_nosuchrefcounty() {
    let relation = gazdagret();
    let other = vec![rec("98", "99", "Törökugrató utca", "2")];
    let ret = relation.write_ref_housenumbers(STREETS, "", &vec![other]).unwrap();
    assert_eq!(ret.is_empty(), true);
}
