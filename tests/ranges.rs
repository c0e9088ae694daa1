use gimmisn::ranges::{Range, Ranges};

#[test]
fn range_parity_follows_ends() {
    let odd = Range::new(1, 3, "");
    assert_eq!(odd.is_odd, Some(true));
    assert_eq!(odd.contains(1), true);
    assert_eq!(odd.contains(2), false);
    assert_eq!(odd.contains(3), true);
    let mixed = Range::new(1, 998, "");
    assert_eq!(mixed.is_odd, None);
    assert_eq!(mixed.contains(2), true);
    let even = Range::new(2, 10, "");
    assert_eq!(even.is_odd, Some(false));
    assert_eq!(even.contains(4), true);
    assert_eq!(even.contains(5), false);
}

#[test]
fn range_bounds() {
    let r = Range::new(137, 165, "");
    assert_eq!(r.contains(137), true);
    assert_eq!(r.contains(165), true);
    assert_eq!(r.contains(136), false);
    assert_eq!(r.contains(166), false);
    let mixed = Range::new(4, 9, "");
    assert_eq!(mixed.contains(3), false);
    assert_eq!(mixed.contains(10), false);
    let single = Range::new(5, 5, "");
    assert_eq!(single.contains(5), true);
    let top = Range::new(u64::MAX - 1, u64::MAX, "");
    assert_eq!(top.contains(u64::MAX), true);
}

#[test]
fn ranges_union_and_first_override() {
    let rs = Ranges::new(vec![Range::new(1, 9, "013"), Range::new(1, 20, ""), Range::new(2, 20, "014")]);
    assert_eq!(rs.contains(15), true);
    assert_eq!(rs.contains(21), false);
    assert_eq!(rs.get_refsettlement(3), Some("013".to_string()));
    assert_eq!(rs.get_refsettlement(12), None);
    assert_eq!(rs.get_refsettlement(30), None);
    assert_eq!(rs.is_empty(), false);
    assert_eq!(Ranges::new(Vec::new()).is_empty(), true);
}

#[test]
fn ranges_equality_ignores_order() {
    let a = Ranges::new(vec![Range::new(1, 3, ""), Range::new(5, 9, "x")]);
    let b = Ranges::new(vec![Range::new(5, 9, "x"), Range::new(1, 3, "")]);
    let c = Ranges::new(vec![Range::new(5, 9, "y"), Range::new(1, 3, "")]);
    assert_eq!(a == b, true);
    assert_eq!(a == c, false);
}
