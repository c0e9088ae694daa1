//! Lexicographic order on names, and sorted lists without repeats.

use vstd::prelude::*;
use crate::housenumber::Street;
use crate::text::{chars_of, str_eq, views};

verus! {

/// `a` comes before `b`, comparing characters by code point.
pub open spec fn seq_lt(a: Seq<char>, b: Seq<char>) -> bool
    decreases a.len(),
{
    if a.len() == 0 {
        b.len() > 0
    } else if b.len() == 0 {
        false
    } else if a[0] != b[0] {
        a[0] < b[0]
    } else {
        seq_lt(a.drop_first(), b.drop_first())
    }
}

/// Each name comes before the next one.
pub open spec fn strictly_sorted(s: Seq<Seq<char>>) -> bool {
    forall|i: int| 0 <= i < s.len() - 1 ==> seq_lt(#[trigger] s[i], s[i + 1])
}

pub proof fn lemma_seq_lt_total(a: Seq<char>, b: Seq<char>)
    ensures
        !seq_lt(a, a),
        !(seq_lt(a, b) && seq_lt(b, a)),
        a != b ==> seq_lt(a, b) || seq_lt(b, a),
    decreases a.len(),
{
    if a.len() > 0 && b.len() > 0 {
        lemma_seq_lt_total(a.drop_first(), b.drop_first());
        lemma_seq_lt_total(a.drop_first(), a.drop_first());
        if a[0] == b[0] && a.drop_first() == b.drop_first() {
            assert forall|i: int| 0 <= i < a.len() implies a[i] == b[i] by {
                if i > 0 {
                    assert(a[i] == a.drop_first()[i - 1]);
                    assert(b[i] == b.drop_first()[i - 1]);
                }
            }
            assert(a =~= b);
        }
    } else if a.len() > 0 {
        lemma_seq_lt_total(a.drop_first(), a.drop_first());
    } else if b.len() == 0 {
        assert(a =~= b);
    }
}

/// Whether `a` comes before `b`.
pub fn chars_lt(a: &[char], b: &[char]) -> (r: bool)
    ensures
        r == seq_lt(a@, b@),
{
    let mut i: usize = 0;
    assert(a@.skip(0) =~= a@);
    assert(b@.skip(0) =~= b@);
    while i < a.len() && i < b.len() && a[i] == b[i]
        invariant
            i <= a@.len(),
            i <= b@.len(),
            seq_lt(a@, b@) == seq_lt(a@.skip(i as int), b@.skip(i as int)),
        decreases a@.len() - i,
    {
        assert(a@.skip(i as int).drop_first() =~= a@.skip(i + 1));
        assert(b@.skip(i as int).drop_first() =~= b@.skip(i + 1));
        i = i + 1;
    }
    if i == a.len() {
        return i < b.len();
    }
    if i == b.len() {
        return false;
    }
    a[i] < b[i]
}

pub fn str_lt(a: &str, b: &str) -> (r: bool)
    ensures
        r == seq_lt(a@, b@),
{
    let x = chars_of(a);
    let y = chars_of(b);
    chars_lt(x.as_slice(), y.as_slice())
}

/// Puts `s` in its place in the sorted `v`, unless `v` has it already.
pub fn insert_sorted(v: &mut Vec<String>, s: String)
    requires
        strictly_sorted(views(old(v)@)),
    ensures
        strictly_sorted(views(final(v)@)),
        views(final(v)@).to_set() == views(old(v)@).to_set().insert(s@),
{
    let ghost old_v = views(v@);
    let mut j: usize = 0;
    while j < v.len() && str_lt(v[j].as_str(), s.as_str())
        invariant
            j <= v@.len(),
            old_v == views(v@),
            strictly_sorted(old_v),
            j > 0 ==> seq_lt(old_v[j - 1], s@),
        decreases v@.len() - j,
    {
        j = j + 1;
    }
    if j < v.len() && str_eq(v[j].as_str(), s.as_str()) {
        assert(old_v.to_set().insert(s@) =~= old_v.to_set()) by {
            assert(old_v[j as int] == s@);
        }
        return;
    }
    proof {
        if j < v@.len() {
            lemma_seq_lt_total(old_v[j as int], s@);
        }
    }
    v.insert(j, s);
    proof {
        let nv = views(v@);
        assert(nv =~= old_v.insert(j as int, s@));
        assert forall|i: int| 0 <= i < nv.len() - 1 implies seq_lt(#[trigger] nv[i], nv[i + 1]) by {
            if i < j - 1 {
                assert(nv[i] == old_v[i] && nv[i + 1] == old_v[i + 1]);
            } else if i == j - 1 {
            } else if i == j {
            } else {
                assert(nv[i] == old_v[i - 1] && nv[i + 1] == old_v[i]);
            }
        }
        assert(nv.to_set() =~= old_v.to_set().insert(s@)) by {
            assert forall|x: Seq<char>| nv.to_set().contains(x) implies old_v.to_set().insert(s@).contains(x) by {
                let k = choose|k: int| 0 <= k < nv.len() && nv[k] == x;
                if k < j {
                    assert(old_v[k] == x);
                } else if k > j {
                    assert(old_v[k - 1] == x);
                }
            }
            assert forall|x: Seq<char>| old_v.to_set().insert(s@).contains(x) implies nv.to_set().contains(x) by {
                if x == s@ {
                    assert(nv[j as int] == x);
                } else {
                    let k = choose|k: int| 0 <= k < old_v.len() && old_v[k] == x;
                    if k < j {
                        assert(nv[k] == x);
                    } else {
                        assert(nv[k + 1] == x);
                    }
                }
            }
        }
    }
}

/// The names of `v`, sorted, each once.
pub fn sorted_unique(v: &Vec<String>) -> (r: Vec<String>)
    ensures
        strictly_sorted(views(r@)),
        views(r@).to_set() == views(v@).to_set(),
{
    let mut r: Vec<String> = Vec::new();
    let mut i: usize = 0;
    assert(views(r@).to_set() =~= views(v@.take(0)).to_set());
    while i < v.len()
        invariant
            i <= v@.len(),
            strictly_sorted(views(r@)),
            views(r@).to_set() == views(v@.take(i as int)).to_set(),
        decreases v@.len() - i,
    {
        insert_sorted(&mut r, v[i].clone());
        assert(views(v@.take(i + 1)) =~= views(v@.take(i as int)).push(v@[i as int]@));
        proof {
            views(v@.take(i as int)).lemma_push_to_set_commute(v@[i as int]@);
        }
        i = i + 1;
    }
    assert(v@.take(v@.len() as int) =~= v@);
    r
}

pub open spec fn street_names(v: Seq<Street>) -> Seq<Seq<char>> {
    v.map_values(|s: Street| s.osm_name@)
}

/// `a` and `b` have the same fields.
pub open spec fn same_street(a: Street, b: Street) -> bool {
    &&& a.osm_name@ == b.osm_name@
    &&& a.ref_name@ == b.ref_name@
    &&& a.show_ref_street == b.show_ref_street
    &&& a.osm_type == b.osm_type
    &&& a.osm_id == b.osm_id
}

/// Every street of `v` is, field by field, one of `from`.
pub open spec fn streets_from(v: Seq<Street>, from: Seq<Street>) -> bool {
    forall|i: int|
        #![trigger v[i]]
        0 <= i < v.len() ==> exists|k: int| 0 <= k < from.len() && same_street(v[i], from[k])
}

/// Puts `s` in its place among the streets of `r`, sorted by name, unless
/// one of them has its name already.
fn insert_street(r: &mut Vec<Street>, s: Street)
    requires
        strictly_sorted(street_names(old(r)@)),
    ensures
        strictly_sorted(street_names(final(r)@)),
        street_names(final(r)@).to_set() == street_names(old(r)@).to_set().insert(s.osm_name@),
        forall|a: int| 0 <= a < final(r)@.len() ==> #[trigger] final(r)@[a] == s || exists|k: int| 0 <= k < old(r)@.len() && final(r)@[a] == old(r)@[k],
{
    let ghost old_r = r@;
    let ghost old_n = street_names(r@);
    let mut j: usize = 0;
    while j < r.len() && str_lt(r[j].osm_name.as_str(), s.osm_name.as_str())
        invariant
            j <= r@.len(),
            r@ == old_r,
            old_n == street_names(r@),
            strictly_sorted(old_n),
            j > 0 ==> seq_lt(old_n[j - 1], s.osm_name@),
        decreases r@.len() - j,
    {
        j = j + 1;
    }
    if j < r.len() && str_eq(r[j].osm_name.as_str(), s.osm_name.as_str()) {
        assert(old_n.to_set().insert(s.osm_name@) =~= old_n.to_set()) by {
            assert(old_n[j as int] == s.osm_name@);
        }
        assert forall|a: int| 0 <= a < r@.len() implies #[trigger] r@[a] == s || exists|k: int| 0 <= k < old_r.len() && r@[a] == old_r[k] by {
            assert(r@[a] == old_r[a]);
        }
        return;
    }
    proof {
        if j < r@.len() {
            lemma_seq_lt_total(old_n[j as int], s.osm_name@);
        }
    }
    let ghost sv = s;
    r.insert(j, s);
    proof {
        let nv = street_names(r@);
        assert(nv =~= old_n.insert(j as int, sv.osm_name@));
        assert forall|k: int| 0 <= k < nv.len() - 1 implies seq_lt(#[trigger] nv[k], nv[k + 1]) by {
            if k < j - 1 {
                assert(nv[k] == old_n[k] && nv[k + 1] == old_n[k + 1]);
            } else if k == j - 1 {
            } else if k == j {
            } else {
                assert(nv[k] == old_n[k - 1] && nv[k + 1] == old_n[k]);
            }
        }
        assert(nv.to_set() =~= old_n.to_set().insert(sv.osm_name@)) by {
            assert forall|x: Seq<char>| nv.to_set().contains(x) implies old_n.to_set().insert(sv.osm_name@).contains(x) by {
                let k = choose|k: int| 0 <= k < nv.len() && nv[k] == x;
                if k < j {
                    assert(old_n[k] == x);
                } else if k > j {
                    assert(old_n[k - 1] == x);
                }
            }
            assert forall|x: Seq<char>| old_n.to_set().insert(sv.osm_name@).contains(x) implies nv.to_set().contains(x) by {
                if x == sv.osm_name@ {
                    assert(nv[j as int] == x);
                } else {
                    let k = choose|k: int| 0 <= k < old_n.len() && old_n[k] == x;
                    if k < j {
                        assert(nv[k] == x);
                    } else {
                        assert(nv[k + 1] == x);
                    }
                }
            }
        }
        assert forall|a: int| 0 <= a < r@.len() implies #[trigger] r@[a] == sv || exists|k: int| 0 <= k < old_r.len() && r@[a] == old_r[k] by {
            if a < j {
                assert(r@[a] == old_r[a]);
            } else if a > j {
                assert(r@[a] == old_r[a - 1]);
            }
        }
    }
}

/// The streets of `v` sorted by name, one per name: the first one of each.
pub fn sorted_unique_streets(v: &Vec<Street>) -> (r: Vec<Street>)
    ensures
        strictly_sorted(street_names(r@)),
        street_names(r@).to_set() == street_names(v@).to_set(),
        streets_from(r@, v@),
{
    let mut r: Vec<Street> = Vec::new();
    let mut i: usize = 0;
    assert(street_names(r@).to_set() =~= street_names(v@.take(0)).to_set());
    while i < v.len()
        invariant
            i <= v@.len(),
            strictly_sorted(street_names(r@)),
            street_names(r@).to_set() == street_names(v@.take(i as int)).to_set(),
            streets_from(r@, v@),
        decreases v@.len() - i,
    {
        let s = v[i].duplicate();
        let ghost old_r = r@;
        assert(street_names(v@.take(i + 1)) =~= street_names(v@.take(i as int)).push(v@[i as int].osm_name@));
        proof {
            street_names(v@.take(i as int)).lemma_push_to_set_commute(v@[i as int].osm_name@);
        }
        let ghost sv = s;
        insert_street(&mut r, s);
        assert forall|a: int| 0 <= a < r@.len() implies exists|k: int| 0 <= k < v@.len() && same_street(#[trigger] r@[a], #[trigger] v@[k]) by {
            if r@[a] == sv {
                assert(same_street(r@[a], v@[i as int]));
            } else {
                let k = choose|k: int| 0 <= k < old_r.len() && r@[a] == old_r[k];
                assert(exists|m: int| 0 <= m < v@.len() && same_street(old_r[k], v@[m]));
            }
        }
        i = i + 1;
    }
    assert(v@.take(v@.len() as int) =~= v@);
    r
}

} // verus!
