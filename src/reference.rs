//! The reference data of a relation: its streets and, street by street, its
//! house numbers, picked out of the reference of a whole county.

use vstd::prelude::*;
use crate::config::{or_text, DictModel, RelationConfig};
use crate::normalize::find_ranges;
use crate::order::{sorted_unique, strictly_sorted};
use crate::ranges::Ranges;
use crate::relation::{Relation, RelationError};
use crate::text::{chars_of, leading_u64, parse_leading_u64, str_eq, views};

verus! {

/// A street of the reference: county, settlement, street name.
pub type ReferenceStreet = (String, String, String);

/// A house number of the reference.
#[derive(Debug, Clone)]
pub struct ReferenceHouseNumber {
    pub refcounty: String,
    pub refsettlement: String,
    pub street: String,
    pub number: String,
    pub comment: String,
}

/// The streets of `refs` in the relation's county and settlement, in order.
pub open spec fn area_streets(cfg: DictModel, refs: Seq<ReferenceStreet>) -> Seq<Seq<char>>
    decreases refs.len(),
{
    if refs.len() == 0 {
        Seq::empty()
    } else {
        let rest = area_streets(cfg, refs.drop_last());
        let r = refs.last();
        if r.0@ == or_text(cfg.refcounty, Seq::empty()) && r.1@ == or_text(cfg.refsettlement, Seq::empty()) {
            rest.push(r.2@)
        } else {
            rest
        }
    }
}

impl RelationConfig {
    /// The reference streets of the relation's county and settlement, in the
    /// order of the reference.
    pub fn get_ref_streets(&self, reference: &Vec<ReferenceStreet>) -> (r: Vec<String>)
        ensures
            views(r@) == area_streets(self.model(), reference@),
    {
        let county = self.get_refcounty();
        let settlement = self.get_refsettlement();
        let mut r: Vec<String> = Vec::new();
        let mut i: usize = 0;
        assert(reference@.take(0) =~= Seq::<ReferenceStreet>::empty());
        while i < reference.len()
            invariant
                i <= reference@.len(),
                county@ == or_text(self.model().refcounty, Seq::empty()),
                settlement@ == or_text(self.model().refsettlement, Seq::empty()),
                views(r@) == area_streets(self.model(), reference@.take(i as int)),
            decreases reference@.len() - i,
        {
            assert(reference@.take(i + 1).drop_last() =~= reference@.take(i as int));
            assert(reference@.take(i + 1).last() == reference@[i as int]);
            let rec = &reference[i];
            if rec.0 == county && rec.1 == settlement {
                let ghost b = r@;
                r.push(rec.2.clone());
                assert(views(r@) =~= views(b).push(rec.2@));
            }
            i = i + 1;
        }
        assert(reference@.take(reference@.len() as int) =~= reference@);
        r
    }
}

/// The settlement that a reference number of `street` must be in: that of the
/// first range of the street holding it, else the street's, else the
/// relation's.
pub open spec fn settlement_for(cfg: DictModel, ns: Seq<(String, Ranges)>, street: Seq<char>, number: Seq<char>) -> Seq<char> {
    let default = cfg.street_refsettlement(street)[0];
    match (find_ranges(ns, street), leading_u64(number)) {
        (Some(rs), Some(n)) => {
            let k = rs.first_holding(n);
            if k < rs.items@.len() && rs.items@[k].refsettlement@.len() > 0 {
                rs.items@[k].refsettlement@
            } else {
                default
            }
        },
        _ => default,
    }
}

/// The line of a reference number: `street<TAB>number<suffix><TAB>comment`.
pub open spec fn ref_line(street: Seq<char>, rec: ReferenceHouseNumber, suffix: Seq<char>) -> Seq<char> {
    street + seq!['\t'] + rec.number@ + suffix + seq!['\t'] + rec.comment@
}

/// The order key of a reference number: its leading number, or 0.
pub open spec fn number_key(rec: ReferenceHouseNumber) -> u64 {
    match leading_u64(rec.number@) {
        Some(n) => n,
        None => 0,
    }
}

/// The numbers of `recs` that belong to `street` of the relation.
pub open spec fn belongs(cfg: DictModel, ns: Seq<(String, Ranges)>, street: Seq<char>, rec: ReferenceHouseNumber) -> bool {
    &&& rec.refcounty@ == or_text(cfg.refcounty, Seq::empty())
    &&& rec.street@ == cfg.ref_street_of(street)
    &&& rec.refsettlement@ == settlement_for(cfg, ns, street, rec.number@)
}

/// A line of `street` made of a number that belongs to it.
pub open spec fn is_ref_line(
    line: (u64, Seq<char>),
    cfg: DictModel,
    ns: Seq<(String, Ranges)>,
    recs: Seq<ReferenceHouseNumber>,
    street: Seq<char>,
    suffix: Seq<char>,
) -> bool {
    exists|i: int|
        0 <= i < recs.len() && belongs(cfg, ns, street, recs[i]) && line == (number_key(recs[i]), ref_line(street, recs[i], suffix))
}

/// Each key is at most the next one.
pub open spec fn keys_sorted(v: Seq<(u64, String)>) -> bool {
    forall|i: int| 0 <= i < v.len() - 1 ==> (#[trigger] v[i]).0 <= v[i + 1].0
}

fn insert_by_key(v: &mut Vec<(u64, String)>, e: (u64, String))
    requires
        keys_sorted(old(v)@),
    ensures
        keys_sorted(final(v)@),
        exists|p: int| 0 <= p <= old(v)@.len() && final(v)@ == old(v)@.insert(p, e),
{
    let mut p: usize = 0;
    while p < v.len() && v[p].0 <= e.0
        invariant
            p <= v@.len(),
            keys_sorted(v@),
            p > 0 ==> v@[p - 1].0 <= e.0,
        decreases v@.len() - p,
    {
        p = p + 1;
    }
    let ghost old_v = v@;
    let ghost ev = e;
    v.insert(p, e);
    assert forall|i: int| 0 <= i < v@.len() - 1 implies (#[trigger] v@[i]).0 <= v@[i + 1].0 by {
        if i < p as int - 1 {
            assert(v@[i] == old_v[i] && v@[i + 1] == old_v[i + 1]);
        } else if i == p as int - 1 {
            assert(v@[i] == old_v[i] && v@[i + 1] == ev);
        } else if i == p as int {
            assert(v@[i] == ev && v@[i + 1] == old_v[i]);
        } else {
            assert(v@[i] == old_v[i - 1] && v@[i + 1] == old_v[i]);
        }
    }
}

pub open spec fn line_view(l: (u64, String)) -> (u64, Seq<char>) {
    (l.0, l.1@)
}

impl Relation {
    /// The reference lines of the map street `street`: the numbers of
    /// `reference` in the relation's county, on the street's reference name,
    /// in the settlement each number belongs to; `suffix` follows each number.
    /// Ordered by the numbers' values. Fails where the street ranges are
    /// malformed.
    pub fn build_ref_housenumbers(&self, reference: &Vec<ReferenceHouseNumber>, street: &str, suffix: &str) -> (r:
        Result<Vec<String>, RelationError>)
        ensures
            r is Ok <==> crate::relation::config_ranges_ok(self.config.model()),
            r is Err ==> r->Err_0 == RelationError::Config,
            r is Ok ==> exists|ns: Seq<(String, Ranges)>, keyed: Seq<(u64, String)>| #[trigger] ref_lines_ok(
                r->Ok_0@,
                keyed,
                self.config.model(),
                ns,
                reference@,
                street@,
                suffix@,
            ),
    {
        let normalizers = match self.get_street_ranges() {
            Ok(n) => n,
            Err(e) => {
                return Err(e);
            },
        };
        let r = self.ref_lines(&normalizers, reference, street, suffix);
        let ghost keyed = choose|keyed: Seq<(u64, String)>| #[trigger] lines_ok(r@, keyed, self.config.model(), normalizers@, reference@, street@, suffix@);
        assert(ref_lines_ok(r@, keyed, self.config.model(), normalizers@, reference@, street@, suffix@));
        assert(exists|ns: Seq<(String, Ranges)>, keyed: Seq<(u64, String)>| #[trigger] ref_lines_ok(r@, keyed, self.config.model(), ns, reference@, street@, suffix@));
        let ghost rv = r@;
        let out: Result<Vec<String>, RelationError> = Ok(r);
        assert(out->Ok_0@ == rv);
        out
    }

    /// The reference lines of `street`, given the street ranges.
    fn ref_lines(&self, normalizers: &Vec<(String, Ranges)>, reference: &Vec<ReferenceHouseNumber>, street: &str, suffix: &str) -> (r:
        Vec<String>)
        ensures
            exists|keyed: Seq<(u64, String)>| #[trigger] lines_ok(r@, keyed, self.config.model(), normalizers@, reference@, street@, suffix@),
    {
        let ghost cfg = self.config.model();
        let ghost ns = normalizers@;
        let county = self.config.get_refcounty();
        let ref_street = self.config.get_ref_street_from_osm_street(street);
        let settlements = self.config.get_street_refsettlement(street);
        assert(views(settlements@).len() > 0);
        let default = settlements[0].clone();
        let found = find_street_ranges_opt(&normalizers, street);
        let mut keyed: Vec<(u64, String)> = Vec::new();
        let mut i: usize = 0;
        while i < reference.len()
            invariant
                i <= reference@.len(),
                cfg == self.config.model(),
                ns == normalizers@,
                county@ == or_text(cfg.refcounty, Seq::empty()),
                ref_street@ == cfg.ref_street_of(street@),
                default@ == cfg.street_refsettlement(street@)[0],
                match found {
                    Some(rs) => find_ranges(ns, street@) == Some(*rs),
                    None => find_ranges(ns, street@) is None,
                },
                keys_sorted(keyed@),
                forall|k: int| 0 <= k < keyed@.len() ==> #[trigger] is_ref_line(line_view(keyed@[k]), cfg, ns, reference@, street@, suffix@),
                forall|j: int| 0 <= j < i && belongs(cfg, ns, street@, #[trigger] reference@[j]) ==> keyed_has(keyed@, (number_key(reference@[j]), ref_line(street@, reference@[j], suffix@))),
            decreases reference@.len() - i,
        {
            let rec = &reference[i];
            let cs = chars_of(rec.number.as_str());
            let n = parse_leading_u64(cs.as_slice());
            let want = match (&found, n) {
                (Some(rs), Some(v)) => match rs.get_refsettlement(v) {
                    Some(c) => c,
                    None => default.clone(),
                },
                _ => default.clone(),
            };
            assert(want@ == settlement_for(cfg, ns, street@, rec.number@));
            if rec.refcounty == county && rec.street == ref_street && rec.refsettlement == want {
                let mut line: Vec<char> = chars_of(street);
                line.push('\t');
                let num = chars_of(rec.number.as_str());
                let suf = chars_of(suffix);
                let com = chars_of(rec.comment.as_str());
                let mut k: usize = 0;
                let ghost l0 = line@;
                while k < num.len()
                    invariant
                        k <= num@.len(),
                        line@ == l0 + num@.take(k as int),
                    decreases num@.len() - k,
                {
                    line.push(num[k]);
                    k = k + 1;
                    assert(line@ =~= l0 + num@.take(k as int));
                }
                assert(num@.take(num@.len() as int) =~= num@);
                let ghost l1 = line@;
                k = 0;
                while k < suf.len()
                    invariant
                        k <= suf@.len(),
                        line@ == l1 + suf@.take(k as int),
                    decreases suf@.len() - k,
                {
                    line.push(suf[k]);
                    k = k + 1;
                    assert(line@ =~= l1 + suf@.take(k as int));
                }
                assert(suf@.take(suf@.len() as int) =~= suf@);
                line.push('\t');
                let ghost l2 = line@;
                k = 0;
                while k < com.len()
                    invariant
                        k <= com@.len(),
                        line@ == l2 + com@.take(k as int),
                    decreases com@.len() - k,
                {
                    line.push(com[k]);
                    k = k + 1;
                    assert(line@ =~= l2 + com@.take(k as int));
                }
                assert(com@.take(com@.len() as int) =~= com@);
                assert(line@ =~= ref_line(street@, *rec, suffix@));
                let key: u64 = match n {
                    Some(v) => v,
                    None => 0,
                };
                let text = crate::text::string_of(line.as_slice());
                let ghost before = keyed@;
                let ghost e = (key, text);
                insert_by_key(&mut keyed, (key, text));
                assert(is_ref_line(line_view(e), cfg, ns, reference@, street@, suffix@)) by {
                    assert(belongs(cfg, ns, street@, reference@[i as int]));
                }
                assert forall|k2: int| 0 <= k2 < keyed@.len() implies #[trigger] is_ref_line(line_view(keyed@[k2]), cfg, ns, reference@, street@, suffix@) by {
                    let p = choose|p: int| 0 <= p <= before.len() && keyed@ == before.insert(p, e);
                    if k2 < p {
                        assert(keyed@[k2] == before[k2]);
                    } else if k2 > p {
                        assert(keyed@[k2] == before[k2 - 1]);
                    }
                }
                assert forall|j: int| 0 <= j < i + 1 && belongs(cfg, ns, street@, #[trigger] reference@[j]) implies keyed_has(keyed@, (number_key(reference@[j]), ref_line(street@, reference@[j], suffix@))) by {
                    let p = choose|p: int| 0 <= p <= before.len() && keyed@ == before.insert(p, e);
                    if j < i {
                        let q = choose|q: int| 0 <= q < before.len() && line_view(before[q]) == (number_key(reference@[j]), ref_line(street@, reference@[j], suffix@));
                        if q < p {
                            assert(keyed@[q] == before[q]);
                        } else {
                            assert(keyed@[q + 1] == before[q]);
                        }
                    } else {
                        assert(keyed@[p] == e);
                    }
                }
            }
            i = i + 1;
        }
        let mut r: Vec<String> = Vec::new();
        let mut k: usize = 0;
        while k < keyed.len()
            invariant
                k <= keyed@.len(),
                r@.len() == k,
                forall|j: int| 0 <= j < k ==> #[trigger] r@[j] == keyed@[j].1,
            decreases keyed@.len() - k,
        {
            r.push(keyed[k].1.clone());
            k = k + 1;
        }
        assert(lines_ok(r@, keyed@, cfg, ns, reference@, street@, suffix@));
        r
    }
}

impl Relation {
    /// The reference streets of the relation, sorted, each once: none where
    /// the reference lacks its county or settlement.
    pub fn write_ref_streets(&self, reference: &Vec<ReferenceStreet>) -> (r: Vec<String>)
        ensures
            strictly_sorted(views(r@)),
            views(r@).to_set() == area_streets(self.config.model(), reference@).to_set(),
    {
        let streets = self.config.get_ref_streets(reference);
        sorted_unique(&streets)
    }
}

/// The suffix that follows the numbers of the `k`th reference: none for the
/// first, `*` (not yet confirmed) for the others.
pub open spec fn suffix_of(k: int) -> Seq<char> {
    if k == 0 {
        Seq::empty()
    } else {
        seq!['*']
    }
}

/// `line` is the line of a number of reference `k` that belongs to `street`.
pub open spec fn line_from(
    line: Seq<char>,
    cfg: DictModel,
    ns: Seq<(String, Ranges)>,
    refs: Seq<Vec<ReferenceHouseNumber>>,
    street: Seq<char>,
    k: int,
) -> bool {
    &&& 0 <= k < refs.len()
    &&& exists|i: int|
        0 <= i < refs[k]@.len() && belongs(cfg, ns, street, refs[k]@[i]) && line == ref_line(street, refs[k]@[i], suffix_of(k))
}

/// `line` is a reference line of one of `names`, from the references before
/// (street `smax`, reference `kmax`).
pub open spec fn made_before(
    line: Seq<char>,
    cfg: DictModel,
    ns: Seq<(String, Ranges)>,
    refs: Seq<Vec<ReferenceHouseNumber>>,
    names: Seq<Seq<char>>,
    smax: int,
    kmax: int,
) -> bool {
    exists|s: int, k: int|
        0 <= s < names.len() && (s < smax || (s == smax && k < kmax)) && #[trigger] line_from(line, cfg, ns, refs, names[s], k)
}

/// The texts of `lines` hold exactly the lines of numbers of reference `k`
/// that belong to `street`.
proof fn lemma_lines_from(
    lines: Seq<String>,
    keyed: Seq<(u64, String)>,
    cfg: DictModel,
    ns: Seq<(String, Ranges)>,
    refs: Seq<Vec<ReferenceHouseNumber>>,
    street: Seq<char>,
    k: int,
)
    requires
        0 <= k < refs.len(),
        lines_ok(lines, keyed, cfg, ns, refs[k]@, street, suffix_of(k)),
    ensures
        forall|x: Seq<char>| #[trigger] views(lines).contains(x) <==> line_from(x, cfg, ns, refs, street, k),
{
    assert forall|x: Seq<char>| #[trigger] views(lines).contains(x) <==> line_from(x, cfg, ns, refs, street, k) by {
        if views(lines).contains(x) {
            let j = choose|j: int| 0 <= j < views(lines).len() && views(lines)[j] == x;
            assert(lines[j] == keyed[j].1);
            assert(is_ref_line(line_view(keyed[j]), cfg, ns, refs[k]@, street, suffix_of(k)));
        }
        if line_from(x, cfg, ns, refs, street, k) {
            let i = choose|i: int|
                0 <= i < refs[k]@.len() && belongs(cfg, ns, street, refs[k]@[i]) && x == ref_line(street, refs[k]@[i], suffix_of(k));
            assert(keyed_has(keyed, (number_key(refs[k]@[i]), ref_line(street, refs[k]@[i], suffix_of(k)))));
            let q = choose|q: int| 0 <= q < keyed.len() && line_view(keyed[q]) == (number_key(refs[k]@[i]), ref_line(street, refs[k]@[i], suffix_of(k)));
            assert(views(lines)[q] == x);
        }
    }
}

impl Relation {
    /// The reference lines of every street of the map data, from each of
    /// `references` (the numbers of all but the first followed by `*`),
    /// sorted, each once. Fails where a table of the map data or the street
    /// ranges are malformed.
    pub fn write_ref_housenumbers(
        &self,
        streets: &str,
        housenumbers: &str,
        references: &Vec<Vec<ReferenceHouseNumber>>,
    ) -> (r: Result<Vec<String>, RelationError>)
        ensures
            r is Ok <==> crate::streets::tables_ok(streets@, housenumbers@) && crate::relation::config_ranges_ok(self.config.model()),
            r is Err ==> (r->Err_0 == RelationError::Format <==> !crate::streets::tables_ok(streets@, housenumbers@)),
            r is Err ==> r->Err_0 == RelationError::Format || r->Err_0 == RelationError::Config,
            r is Ok ==> exists|ns: Seq<(String, Ranges)>| #[trigger] ref_file_ok(
                r->Ok_0@,
                self.config.model(),
                ns,
                references@,
                crate::streets::entry_names(crate::streets::osm_street_entries(streets@, housenumbers@)),
            ),
    {
        let osm = match self.get_osm_streets(streets, housenumbers, true) {
            Ok(v) => v,
            Err(e) => {
                return Err(e);
            },
        };
        let normalizers = match self.get_street_ranges() {
            Ok(n) => n,
            Err(e) => {
                return Err(e);
            },
        };
        let ghost cfg = self.config.model();
        let ghost ns = normalizers@;
        let ghost refs = references@;
        let ghost names = crate::order::street_names(osm@);
        let mut all: Vec<String> = Vec::new();
        let mut s: usize = 0;
        while s < osm.len()
            invariant
                s <= osm@.len(),
                cfg == self.config.model(),
                ns == normalizers@,
                refs == references@,
                names == crate::order::street_names(osm@),
                forall|x: Seq<char>| #[trigger] views(all@).contains(x) <==> made_before(x, cfg, ns, refs, names, s as int, 0),
            decreases osm@.len() - s,
        {
            let mut k: usize = 0;
            while k < references.len()
                invariant
                    s < osm@.len(),
                    k <= references@.len(),
                    cfg == self.config.model(),
                    ns == normalizers@,
                    refs == references@,
                    names == crate::order::street_names(osm@),
                    forall|x: Seq<char>| #[trigger] views(all@).contains(x) <==> made_before(x, cfg, ns, refs, names, s as int, k as int),
                decreases references@.len() - k,
            {
                let suffix = if k == 0 { "" } else { "*" };
                proof {
                    reveal_strlit("");
                    reveal_strlit("*");
                }
                assert(suffix@ == suffix_of(k as int));
                let name = osm[s].get_osm_name();
                assert(names[s as int] == name@);
                let lines = self.ref_lines(&normalizers, &references[k], name.as_str(), suffix);
                proof {
                    let keyed = choose|keyed: Seq<(u64, String)>| #[trigger] lines_ok(lines@, keyed, cfg, ns, refs[k as int]@, name@, suffix@);
                    lemma_lines_from(lines@, keyed, cfg, ns, refs, name@, k as int);
                }
                let ghost before = views(all@);
                let mut j: usize = 0;
                while j < lines.len()
                    invariant
                        j <= lines@.len(),
                        views(all@) == before + views(lines@).take(j as int),
                    decreases lines@.len() - j,
                {
                    let ghost b = all@;
                    all.push(lines[j].clone());
                    assert(views(all@) =~= views(b).push(lines@[j as int]@));
                    assert(views(lines@).take(j + 1) =~= views(lines@).take(j as int).push(lines@[j as int]@));
                    j = j + 1;
                    assert(views(all@) =~= before + views(lines@).take(j as int));
                }
                assert(views(lines@).take(lines@.len() as int) =~= views(lines@));
                assert forall|x: Seq<char>| #[trigger] views(all@).contains(x) <==> made_before(x, cfg, ns, refs, names, s as int, k + 1) by {
                    lemma_concat_contains(before, views(lines@), x);
                    if made_before(x, cfg, ns, refs, names, s as int, k + 1) {
                        let (s2, k2) = choose|s2: int, k2: int|
                            0 <= s2 < names.len() && (s2 < s || (s2 == s && k2 < k + 1)) && #[trigger] line_from(x, cfg, ns, refs, names[s2], k2);
                        if !(s2 < s || (s2 == s && k2 < k)) {
                            assert(s2 == s && k2 == k);
                        }
                    }
                    if views(lines@).contains(x) {
                        assert(line_from(x, cfg, ns, refs, names[s as int], k as int));
                    }
                }
                k = k + 1;
            }
            assert forall|x: Seq<char>| #[trigger] views(all@).contains(x) <==> made_before(x, cfg, ns, refs, names, s + 1, 0) by {
                if made_before(x, cfg, ns, refs, names, s as int, references@.len() as int) {
                    let (s2, k2) = choose|s2: int, k2: int|
                        0 <= s2 < names.len() && (s2 < s || (s2 == s && k2 < references@.len())) && #[trigger] line_from(x, cfg, ns, refs, names[s2], k2);
                    assert(made_before(x, cfg, ns, refs, names, s + 1, 0));
                }
                if made_before(x, cfg, ns, refs, names, s + 1, 0) {
                    let (s2, k2) = choose|s2: int, k2: int|
                        0 <= s2 < names.len() && (s2 < s + 1 || (s2 == s + 1 && k2 < 0)) && #[trigger] line_from(x, cfg, ns, refs, names[s2], k2);
                    assert(k2 < references@.len());
                    assert(made_before(x, cfg, ns, refs, names, s as int, references@.len() as int));
                }
            }
            s = s + 1;
        }
        let r = sorted_unique(&all);
        proof {
            let es = crate::streets::entry_names(crate::streets::osm_street_entries(streets@, housenumbers@));
            assert(names.to_set() == es.to_set());
            assert forall|x: Seq<char>| #[trigger] views(r@).contains(x) <==> made_by(x, cfg, ns, refs, es) by {
                assert(views(r@).to_set().contains(x) == views(all@).to_set().contains(x));
                if made_by(x, cfg, ns, refs, es) {
                    let (name, k) = choose|name: Seq<char>, k: int| es.contains(name) && #[trigger] line_from(x, cfg, ns, refs, name, k);
                    assert(names.to_set().contains(name));
                    let s2 = choose|s2: int| 0 <= s2 < names.len() && names[s2] == name;
                    assert(line_from(x, cfg, ns, refs, names[s2], k));
                    assert(made_before(x, cfg, ns, refs, names, osm@.len() as int, 0));
                }
                if made_before(x, cfg, ns, refs, names, osm@.len() as int, 0) {
                    let (s2, k2) = choose|s2: int, k2: int|
                        0 <= s2 < names.len() && (s2 < osm@.len() || (s2 == osm@.len() && k2 < 0)) && #[trigger] line_from(x, cfg, ns, refs, names[s2], k2);
                    assert(es.to_set().contains(names[s2]));
                    assert(made_by(x, cfg, ns, refs, es));
                }
            }
            assert(ref_file_ok(r@, cfg, ns, refs, es));
        }
        let ghost rv = r@;
        let out: Result<Vec<String>, RelationError> = Ok(r);
        assert(out->Ok_0@ == rv);
        out
    }
}

/// `line` is a reference line of one of the streets `names`.
pub open spec fn made_by(
    line: Seq<char>,
    cfg: DictModel,
    ns: Seq<(String, Ranges)>,
    refs: Seq<Vec<ReferenceHouseNumber>>,
    names: Seq<Seq<char>>,
) -> bool {
    exists|name: Seq<char>, k: int| names.contains(name) && #[trigger] line_from(line, cfg, ns, refs, name, k)
}

/// What `write_ref_housenumbers` returns, given the street ranges `ns`.
pub open spec fn ref_file_ok(
    lines: Seq<String>,
    cfg: DictModel,
    ns: Seq<(String, Ranges)>,
    refs: Seq<Vec<ReferenceHouseNumber>>,
    names: Seq<Seq<char>>,
) -> bool {
    &&& crate::relation::street_ranges_match(ns, cfg.filters.unwrap_or(Seq::empty()))
    &&& strictly_sorted(views(lines))
    &&& forall|x: Seq<char>| #[trigger] views(lines).contains(x) <==> made_by(x, cfg, ns, refs, names)
}

proof fn lemma_concat_contains(a: Seq<Seq<char>>, b: Seq<Seq<char>>, x: Seq<char>)
    ensures
        (a + b).contains(x) <==> a.contains(x) || b.contains(x),
{
    if (a + b).contains(x) {
        let k = choose|k: int| 0 <= k < (a + b).len() && (a + b)[k] == x;
        if k < a.len() {
            assert(a[k] == x);
        } else {
            assert(b[k - a.len()] == x);
        }
    }
    if a.contains(x) {
        let k = choose|k: int| 0 <= k < a.len() && a[k] == x;
        assert((a + b)[k] == x);
    }
    if b.contains(x) {
        let k = choose|k: int| 0 <= k < b.len() && b[k] == x;
        assert((a + b)[a.len() + k] == x);
    }
}

/// One of `v` is `x`.
pub open spec fn keyed_has(v: Seq<(u64, String)>, x: (u64, Seq<char>)) -> bool {
    exists|q: int| 0 <= q < v.len() && line_view(v[q]) == x
}

/// What `build_ref_housenumbers` returns, given the street ranges `ns`.
pub open spec fn ref_lines_ok(
    lines: Seq<String>,
    keyed: Seq<(u64, String)>,
    cfg: DictModel,
    ns: Seq<(String, Ranges)>,
    recs: Seq<ReferenceHouseNumber>,
    street: Seq<char>,
    suffix: Seq<char>,
) -> bool {
    &&& crate::relation::street_ranges_match(ns, cfg.filters.unwrap_or(Seq::empty()))
    &&& lines_ok(lines, keyed, cfg, ns, recs, street, suffix)
}

/// `lines` are the texts of `keyed`, which is sorted by key, holds only lines
/// of numbers that belong to `street`, and holds each of them.
pub open spec fn lines_ok(
    lines: Seq<String>,
    keyed: Seq<(u64, String)>,
    cfg: DictModel,
    ns: Seq<(String, Ranges)>,
    recs: Seq<ReferenceHouseNumber>,
    street: Seq<char>,
    suffix: Seq<char>,
) -> bool {
    &&& lines.len() == keyed.len()
    &&& forall|j: int| 0 <= j < lines.len() ==> #[trigger] lines[j] == keyed[j].1
    &&& keys_sorted(keyed)
    &&& forall|k: int| 0 <= k < keyed.len() ==> #[trigger] is_ref_line(line_view(keyed[k]), cfg, ns, recs, street, suffix)
    &&& forall|j: int| 0 <= j < recs.len() && belongs(cfg, ns, street, #[trigger] recs[j]) ==> keyed_has(keyed, (number_key(recs[j]), ref_line(street, recs[j], suffix)))
}

/// The configured ranges of `street`, where there are any.
fn find_street_ranges_opt<'a>(normalizers: &'a Vec<(String, Ranges)>, street: &str) -> (r: Option<&'a Ranges>)
    ensures
        match r {
            Some(rs) => find_ranges(normalizers@, street@) == Some(*rs),
            None => find_ranges(normalizers@, street@) is None,
        },
{
    let mut i: usize = 0;
    assert(normalizers@.skip(0) =~= normalizers@);
    while i < normalizers.len()
        invariant
            i <= normalizers@.len(),
            find_ranges(normalizers@, street@) == find_ranges(normalizers@.skip(i as int), street@),
        decreases normalizers@.len() - i,
    {
        assert(normalizers@.skip(i as int).drop_first() =~= normalizers@.skip(i + 1));
        assert(normalizers@.skip(i as int)[0] == normalizers@[i as int]);
        if str_eq(normalizers[i].0.as_str(), street) {
            return Some(&normalizers[i].1);
        }
        i = i + 1;
    }
    None
}

} // verus!
