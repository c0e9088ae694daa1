use gimmisn::housenumber::{HouseNumber, OsmType, Street};

#[test]
fn streets_compare_by_name() {
    let a = Street::new("A utca", "X", true, 1);
    let b = Street::new("B utca", "A", false, 2);
    let a2 = Street::new("A utca", "Y", false, 3);
    assert_eq!(a == a2, true);
    assert_eq!(a == b, false);
    assert_eq!(a < b, true);
    assert_eq!(b > a, true);
    assert_eq!(a.partial_cmp(&a2), Some(std::cmp::Ordering::Equal));
    let mut c = Street::from_string("C utca");
    assert_eq!(c.get_osm_type(), OsmType::Way);
    c.set_osm_type(OsmType::Node);
    assert_eq!(c.get_osm_type().name(), "node");
    assert_eq!(c.get_ref_name(), "C utca");
    assert_eq!(c.get_show_ref_street(), true);
}

#[test]
fn house_numbers_ignore_comment() {
    let a = HouseNumber::new("1", "1-3", "x");
    let b = HouseNumber::new("1", "1-3", "y");
    let c = HouseNumber::new("1", "1", "x");
    assert_eq!(a == b, true);
    assert_eq!(a == c, false);
    assert_eq!(a.get_source(), "1-3");
    assert_eq!(a.get_comment(), "x");
}
