//! A relation: a named area with its settings, and what is computed for it.

use vstd::prelude::*;
use crate::config::{
    filters_view, or_text, ranges_view, FilterModel, RangeModel, RelationConfig,
    RelationRangesDict, StreetFilter,
};
use crate::ranges::{odd, Range, Ranges};
use crate::text::{chars_of, digit_prefix, digit_prefix_len, leading_u64, parse_leading_u64};

verus! {

/// Why an operation on a relation failed.
#[derive(Debug, Clone, PartialEq, Eq)]
pub enum RelationError {
    /// The map data is malformed (a table with fewer than two columns).
    Format,
    /// The settings are malformed (a range bound that is not a number).
    Config,
    /// No relation has this name.
    UnknownRelation,
}

/// A relation: its name and settings.
#[derive(Debug, Clone)]
pub struct Relation {
    pub name: String,
    pub config: RelationConfig,
}

/// The number that `s` spells out, where it is digits only and fits a `u64`.
pub open spec fn exact_u64(s: Seq<char>) -> Option<u64> {
    if digit_prefix_len(s) == s.len() {
        leading_u64(s)
    } else {
        None
    }
}

/// Whether a configured range has numeric, ordered bounds.
pub open spec fn range_ok(d: RangeModel) -> bool {
    &&& exact_u64(d.start) is Some
    &&& exact_u64(d.end) is Some
    &&& exact_u64(d.start)->0 <= exact_u64(d.end)->0
}

/// `r` is the range that the configured `d` describes.
pub open spec fn range_matches(r: Range, d: RangeModel) -> bool {
    &&& exact_u64(d.start) == Some(r.start)
    &&& exact_u64(d.end) == Some(r.end)
    &&& r.refsettlement@ == or_text(d.refsettlement, Seq::empty())
    &&& r.wf()
    &&& r.is_odd == (if odd(r.start) == odd(r.end) {
        Some(odd(r.start))
    } else {
        None
    })
}

/// The street filters that configure ranges, in order.
pub open spec fn ranged_filters(fs: Seq<FilterModel>) -> Seq<FilterModel>
    decreases fs.len(),
{
    if fs.len() == 0 {
        Seq::empty()
    } else if fs.last().ranges is Some {
        ranged_filters(fs.drop_last()).push(fs.last())
    } else {
        ranged_filters(fs.drop_last())
    }
}

pub open spec fn all_ranges_ok(fs: Seq<FilterModel>) -> bool {
    forall|i: int, j: int|
        0 <= i < ranged_filters(fs).len() && 0 <= j < ranged_filters(fs)[i].ranges->0.len()
            ==> range_ok(#[trigger] ranged_filters(fs)[i].ranges->0[j])
}

/// Whether every range that the settings configure is well formed.
pub open spec fn config_ranges_ok(cfg: crate::config::DictModel) -> bool {
    all_ranges_ok(cfg.filters.unwrap_or(Seq::empty()))
}

/// `v` holds, street by street, the ranges that `fs` configures.
pub open spec fn street_ranges_match(v: Seq<(String, Ranges)>, fs: Seq<FilterModel>) -> bool {
    &&& v.len() == ranged_filters(fs).len()
    &&& forall|i: int|
        0 <= i < v.len() ==> {
            let f = #[trigger] ranged_filters(fs)[i];
            &&& v[i].0@ == f.street
            &&& v[i].1.items@.len() == f.ranges->0.len()
            &&& forall|j: int|
                0 <= j < v[i].1.items@.len() ==> range_matches(
                    #[trigger] v[i].1.items@[j],
                    f.ranges->0[j],
                )
        }
}

/// The number that `s` spells out, where it is digits only and fits a `u64`.
pub fn parse_exact_u64(s: &str) -> (r: Option<u64>)
    ensures
        r == exact_u64(s@),
{
    let cs = chars_of(s);
    let n = digit_prefix(cs.as_slice());
    if n != cs.len() {
        return None;
    }
    parse_leading_u64(cs.as_slice())
}

fn build_ranges(ds: &Vec<RelationRangesDict>) -> (r: Option<Ranges>)
    ensures
        match r {
            Some(rs) => {
                &&& rs.items@.len() == ds@.len()
                &&& forall|j: int| 0 <= j < ds@.len() ==> range_matches(#[trigger] rs.items@[j], ranges_view(ds@)[j])
                &&& forall|j: int| 0 <= j < ds@.len() ==> range_ok(#[trigger] ranges_view(ds@)[j])
            },
            None => exists|j: int| 0 <= j < ds@.len() && !range_ok(#[trigger] ranges_view(ds@)[j]),
        },
{
    let mut items: Vec<Range> = Vec::new();
    let mut i: usize = 0;
    while i < ds.len()
        invariant
            i <= ds@.len(),
            items@.len() == i,
            forall|j: int| 0 <= j < i ==> range_matches(#[trigger] items@[j], ranges_view(ds@)[j]),
            forall|j: int| 0 <= j < i ==> range_ok(#[trigger] ranges_view(ds@)[j]),
        decreases ds@.len() - i,
    {
        let d = &ds[i];
        assert(ranges_view(ds@)[i as int] == d@);
        let start = parse_exact_u64(d.start.as_str());
        let end = parse_exact_u64(d.end.as_str());
        match (start, end) {
            (Some(s), Some(e)) => {
                if s > e {
                    return None;
                }
                let r = match &d.refsettlement {
                    Some(c) => Range::new(s, e, c.as_str()),
                    None => {
                        proof {
                            reveal_strlit("");
                        }
                        assert(""@ =~= Seq::<char>::empty());
                        Range::new(s, e, "")
                    },
                };
                assert(range_matches(r, ranges_view(ds@)[i as int]));
                items.push(r);
                assert(items@[i as int] == r);
            },
            _ => {
                return None;
            },
        }
        i = i + 1;
    }
    Some(Ranges::new(items))
}

impl Relation {
    pub fn new(name: &str, config: &RelationConfig) -> (r: Relation)
        ensures
            r.name@ == name@,
            r.config.model() == config.model(),
    {
        Relation { name: name.to_owned(), config: config.duplicate() }
    }

    pub fn get_name(&self) -> (r: &String)
        ensures
            r@ == self.name@,
    {
        &self.name
    }

    pub fn get_config(&self) -> (r: &RelationConfig)
        ensures
            r.model() == self.config.model(),
    {
        &self.config
    }

    pub fn set_config(&mut self, config: &RelationConfig)
        ensures
            final(self).config.model() == config.model(),
            final(self).name@ == old(self).name@,
    {
        self.config = config.duplicate();
    }

    /// A copy with the same name and settings.
    pub fn duplicate(&self) -> (r: Relation)
        ensures
            r.name@ == self.name@,
            r.config.model() == self.config.model(),
    {
        Relation { name: self.name.clone(), config: self.config.duplicate() }
    }

    /// The ranges configured for streets, street by street. Fails where a
    /// bound is not a number or a range ends before it starts.
    pub fn get_street_ranges(&self) -> (r: Result<Vec<(String, Ranges)>, RelationError>)
        ensures
            ({
                let fs = match self.config.model().filters {
                    Some(fs) => fs,
                    None => Seq::empty(),
                };
                match r {
                    Ok(v) => all_ranges_ok(fs) && street_ranges_match(v@, fs),
                    Err(e) => !all_ranges_ok(fs) && e == RelationError::Config,
                }
            }),
    {
        let mut v: Vec<(String, Ranges)> = Vec::new();
        match &self.config.dict.filters {
            None => {
                assert(ranged_filters(Seq::<FilterModel>::empty()) =~= Seq::empty());
                Ok(v)
            },
            Some(fs) => {
                let ghost m = filters_view(fs@);
                let mut i: usize = 0;
                while i < fs.len()
                    invariant
                        i <= fs@.len(),
                        m == filters_view(fs@),
                        self.config.model().filters == Some(m),
                        all_ranges_ok(m.take(i as int)),
                        street_ranges_match(v@, m.take(i as int)),
                    decreases fs@.len() - i,
                {
                    let f: &StreetFilter = &fs[i];
                    assert(m.take(i + 1).drop_last() =~= m.take(i as int));
                    assert(m.take(i + 1).last() == f@);
                    match &f.filter.ranges {
                        Some(ds) => {
                            match build_ranges(ds) {
                                Some(rs) => {
                                    v.push((f.street.clone(), rs));
                                    assert(ranged_filters(m.take(i + 1)) == ranged_filters(m.take(i as int)).push(f@));
                                },
                                None => {
                                    proof {
                                        let k: int = ranged_filters(m.take(i as int)).len() as int;
                                        let rf = ranged_filters(m.take(i + 1));
                                        assert(rf == ranged_filters(m.take(i as int)).push(f@));
                                        assert(rf[k] == f@);
                                        let j = choose|j: int| 0 <= j < ds@.len() && !range_ok(#[trigger] ranges_view(ds@)[j]);
                                        assert(rf[k].ranges->0[j] == ranges_view(ds@)[j]);
                                        assert(!range_ok(rf[k].ranges->0[j]));
                                        assert(!all_ranges_ok(m.take(i + 1)));
                                        lemma_ranges_ok_prefix(m, i + 1);
                                    }
                                    return Err(RelationError::Config);
                                },
                            }
                        },
                        None => {},
                    }
                    i = i + 1;
                }
                assert(m.take(fs@.len() as int) =~= m);
                Ok(v)
            },
        }
    }
}

proof fn lemma_ranged_filters_prefix(fs: Seq<FilterModel>, k: int)
    requires
        0 <= k <= fs.len(),
    ensures
        ranged_filters(fs.take(k)).len() <= ranged_filters(fs).len(),
        forall|i: int| 0 <= i < ranged_filters(fs.take(k)).len() ==> #[trigger] ranged_filters(fs.take(k))[i] == ranged_filters(fs)[i],
    decreases fs.len() - k,
{
    if k < fs.len() {
        lemma_ranged_filters_prefix(fs, k + 1);
        assert(fs.take(k + 1).drop_last() =~= fs.take(k));
        let a = ranged_filters(fs.take(k));
        let b = ranged_filters(fs.take(k + 1));
        assert(b == a || b == a.push(fs.take(k + 1).last()));
        assert forall|i: int| 0 <= i < a.len() implies #[trigger] a[i] == ranged_filters(fs)[i] by {
            assert(a[i] == b[i]);
        }
    } else {
        assert(fs.take(k) =~= fs);
    }
}

proof fn lemma_ranges_ok_prefix(fs: Seq<FilterModel>, k: int)
    requires
        0 <= k <= fs.len(),
        !all_ranges_ok(fs.take(k)),
    ensures
        !all_ranges_ok(fs),
{
    lemma_ranged_filters_prefix(fs, k);
    let (i, j) = choose|i: int, j: int|
        0 <= i < ranged_filters(fs.take(k)).len() && 0 <= j < ranged_filters(fs.take(k))[i].ranges->0.len()
            && !range_ok(#[trigger] ranged_filters(fs.take(k))[i].ranges->0[j]);
    assert(ranged_filters(fs.take(k))[i] == ranged_filters(fs)[i]);
    assert(!range_ok(ranged_filters(fs)[i].ranges->0[j]));
}

} // verus!
