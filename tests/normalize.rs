use gimmisn::config::{
    RelationConfig, RelationDict, RelationFiltersDict, RelationRangesDict, StreetFilter,
};
use gimmisn::housenumber::HouseNumber;
use gimmisn::normalize::normalize;
use gimmisn::relation::Relation;

fn osm_relation(id: u64) -> RelationDict {
    let mut d = RelationDict::empty();
    d.osmrelation = Some(id);
    d
}

fn relation_of(name: &str, parent: RelationDict, own: RelationDict) -> Relation {
    let config = RelationConfig::new(&parent, &own);
    Relation::new(name, &config)
}

fn no_filter() -> RelationFiltersDict {
    RelationFiltersDict {
        ranges: None,
        invalid: None,
        valid: None,
        interpolation: None,
        refsettlement: None,
        show_refstreet: None,
    }
}

fn range(start: &str, end: &str) -> RelationRangesDict {
    RelationRangesDict { start: start.into(), end: end.into(), refsettlement: None }
}

fn numbers_of(relation: &Relation, raw: &str, street: &str) -> Vec<String> {
    let normalizers = relation.get_street_ranges().unwrap();
    let street_is_even_odd = relation.get_config().get_street_is_even_odd(street);
    let house_numbers: Vec<HouseNumber> =
        normalize(relation, raw, street, street_is_even_odd, &normalizers).unwrap();
    house_numbers.iter().map(|i| i.get_number().clone()).collect()
}

fn gazdagret() -> Relation {
    relation_of("gazdagret", osm_relation(2713748), RelationDict::empty())
}

#[test]
fn test_normalize() {
    let relation = relation_of("myrelation", RelationDict::empty(), RelationDict::empty());
    assert_eq!(numbers_of(&relation, "139", "mystreet"), vec!["139"]);
}

#[test]
fn test_normalize_not_in_range() {
    let mut own = RelationDict::empty();
    let mut filter = no_filter();
    filter.ranges = Some(vec![range("1", "499")]);
    own.filters = Some(vec![StreetFilter { street: "Budaörsi út".into(), filter }]);
    let relation = relation_of("gazdagret", osm_relation(2713748), own);
    assert_eq!(numbers_of(&relation, "999", "Budaörsi út").is_empty(), true);
}

#[test]
fn test_normalize_not_a_number() {
    let relation = gazdagret();
    assert_eq!(numbers_of(&relation, "x", "Budaörsi út").is_empty(), true);
}

#[test]
fn test_normalize_nofilter() {
    let relation = gazdagret();
    assert_eq!(numbers_of(&relation, "1", "Budaörs út"), vec!["1"]);
}

#[test]
fn test_normalize_separator_semicolon() {
    let relation = gazdagret();
    assert_eq!(numbers_of(&relation, "1;2", "Budaörs út"), vec!["1", "2"]);
}

#[test]
fn test_normalize_separator_interval() {
    let relation = relation_of("myrelation", RelationDict::empty(), RelationDict::empty());
    assert_eq!(numbers_of(&relation, "2-6", "mystreet"), vec!["2", "4", "6"]);
}

#[test]
fn test_normalize_separator_interval_parity() {
    let relation = gazdagret();
    assert_eq!(numbers_of(&relation, "5-8", "Budaörs út"), vec!["5", "8"]);
}

#[test]
fn test_normalize_separator_interval_interp_all() {
    let mut own = RelationDict::empty();
    let mut filter = no_filter();
    filter.interpolation = Some("all".into());
    own.filters = Some(vec![StreetFilter { street: "Hamzsabégi út".into(), filter }]);
    let relation = relation_of("gazdagret", osm_relation(2713748), own);
    assert_eq!(numbers_of(&relation, "2-5", "Hamzsabégi út"), vec!["2", "3", "4", "5"]);
}

#[test]
fn test_normalize_separator_interval_filter() {
    let mut own = RelationDict::empty();
    let mut filter = no_filter();
    filter.ranges = Some(vec![range("137", "165")]);
    own.filters = Some(vec![StreetFilter { street: "Budaörsi út".into(), filter }]);
    let relation = relation_of("gazdagret", osm_relation(2713748), own);
    assert_eq!(numbers_of(&relation, "163-167", "Budaörsi út"), vec!["163", "165"]);
}

#[test]
fn test_normalize_separator_interval_block() {
    let relation = relation_of("myrelation", RelationDict::empty(), RelationDict::empty());
    assert_eq!(numbers_of(&relation, "2-2000", "mystreet"), vec!["2"]);
}

#[test]
fn test_normalize_separator_interval_block2() {
    let relation = relation_of("myrelation", RelationDict::empty(), RelationDict::empty());
    assert_eq!(numbers_of(&relation, "2-56", "mystreet"), vec!["2", "56"]);
}

#[test]
fn test_normalize_separator_interval_block3() {
    let relation = gazdagret();
    assert_eq!(numbers_of(&relation, "0-42", "Budaörs út"), vec!["42"]);
}

#[test]
fn test_normalize_separator_interval_block4() {
    let relation = gazdagret();
    assert_eq!(numbers_of(&relation, "42-1", "Budaörs út"), vec!["42"]);
}

#[test]
fn test_normalize_keep_suffix() {
    let relation = gazdagret();
    assert_eq!(numbers_of(&relation, "1*", "Budaörs út"), vec!["1*"]);
    assert_eq!(numbers_of(&relation, "2", "Budaörs út"), vec!["2"]);
}

#[test]
fn test_normalize_separator_comma() {
    let relation = gazdagret();
    assert_eq!(numbers_of(&relation, "2,6", "Budaörs út"), vec!["2", "6"]);
}

#[test]
fn normalize_keeps_comment_after_tab() {
    let relation = gazdagret();
    let normalizers = relation.get_street_ranges().unwrap();
    let ret = normalize(&relation, "7\tcomment", "Budaörs út", true, &normalizers).unwrap();
    assert_eq!(ret.len(), 1);
    assert_eq!(ret[0].get_number(), "7");
    assert_eq!(ret[0].get_source(), "7");
    assert_eq!(ret[0].get_comment(), "comment");
}

#[test]
fn normalize_letter_suffix_when_letters_are_on() {
    let mut own = RelationDict::empty();
    own.housenumber_letters = Some(true);
    let relation = relation_of("gazdagret", RelationDict::empty(), own);
    assert_eq!(numbers_of(&relation, "42 a", "mystreet"), vec!["42/A"]);
    assert_eq!(numbers_of(&relation, "42b", "mystreet"), vec!["42/B"]);
}

#[test]
fn normalize_letter_suffix_when_letters_are_off() {
    let relation = gazdagret();
    assert_eq!(numbers_of(&relation, "42 a", "mystreet"), vec!["42"]);
}

#[test]
fn normalize_invalid_list_drops_numbers() {
    let mut own = RelationDict::empty();
    let mut filter = no_filter();
    filter.invalid = Some(vec!["11".into(), "37b".into()]);
    own.filters = Some(vec![StreetFilter { street: "mystreet".into(), filter }]);
    let relation = relation_of("gazdagret", RelationDict::empty(), own);
    assert_eq!(numbers_of(&relation, "11", "mystreet").is_empty(), true);
    assert_eq!(numbers_of(&relation, "37", "mystreet").is_empty(), true);
    assert_eq!(numbers_of(&relation, "9;11;13", "mystreet"), vec!["9", "13"]);
}

#[test]
fn normalize_valid_list_keeps_only_listed() {
    let mut own = RelationDict::empty();
    let mut filter = no_filter();
    filter.valid = Some(vec!["1".into()]);
    own.filters = Some(vec![StreetFilter { street: "mystreet".into(), filter }]);
    let relation = relation_of("gazdagret", RelationDict::empty(), own);
    assert_eq!(numbers_of(&relation, "1;2", "mystreet"), vec!["1"]);
}

#[test]
fn normalize_default_range_edges() {
    let relation = gazdagret();
    assert_eq!(numbers_of(&relation, "998", "mystreet"), vec!["998"]);
    assert_eq!(numbers_of(&relation, "999", "mystreet").is_empty(), true);
    assert_eq!(numbers_of(&relation, "0", "mystreet").is_empty(), true);
    assert_eq!(numbers_of(&relation, "", "mystreet").is_empty(), true);
}

#[test]
fn normalize_is_idempotent_on_plain_numbers() {
    let relation = gazdagret();
    let normalizers = relation.get_street_ranges().unwrap();
    for raw in ["139", "1", "998", "42"] {
        let ret = normalize(&relation, raw, "mystreet", true, &normalizers).unwrap();
        assert_eq!(ret.len(), 1);
        assert_eq!(ret[0].get_number(), raw);
        assert_eq!(ret[0].get_source(), raw);
        let again = normalize(&relation, ret[0].get_number(), "mystreet", true, &normalizers).unwrap();
        assert_eq!(again[0].get_number(), raw);
    }
}

#[test]
fn normalize_separators_interchangeable() {
    let relation = gazdagret();
    for (a, b) in [("1;2", "1,2"), ("2-6;9", "2-6,9"), ("3;5-9", "3,5-9")] {
        assert_eq!(numbers_of(&relation, a, "mystreet"), numbers_of(&relation, b, "mystreet"));
    }
    assert_eq!(numbers_of(&relation, "3;5-9", "mystreet"), vec!["3", "5", "7", "9"]);
}

#[test]
fn normalize_interval_end_with_suffix_keeps_start() {
    let relation = gazdagret();
    assert_eq!(numbers_of(&relation, "2-6a", "mystreet"), vec!["2"]);
    assert_eq!(numbers_of(&relation, "2-6*", "mystreet"), vec!["2*", "4*", "6*"]);
    assert_eq!(numbers_of(&relation, "x-6", "mystreet").is_empty(), true);
    assert_eq!(numbers_of(&relation, "7-", "mystreet"), vec!["7"]);
}
