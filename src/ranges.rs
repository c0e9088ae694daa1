//! Inclusive numeric intervals with an optional parity, and unions of them.

use vstd::prelude::*;

verus! {

/// An inclusive interval of house numbers. Where both ends have the same
/// parity, only numbers of that parity belong to it.
#[derive(Debug, Clone)]
pub struct Range {
    pub start: u64,
    pub end: u64,
    pub is_odd: Option<bool>,
    pub refsettlement: String,
}

/// Whether `n` is odd.
pub open spec fn odd(n: u64) -> bool {
    n % 2 == 1
}

impl Range {
    pub open spec fn wf(&self) -> bool {
        &&& self.start <= self.end
        &&& match self.is_odd {
            Some(o) => o == odd(self.start) && o == odd(self.end),
            None => odd(self.start) != odd(self.end),
        }
    }

    /// Membership: within the bounds, and of the right parity where one is set.
    pub open spec fn spec_contains(&self, n: u64) -> bool {
        &&& self.start <= n <= self.end
        &&& match self.is_odd {
            Some(o) => odd(n) == o,
            None => true,
        }
    }

    /// A range from `start` to `end`; `refsettlement` is the reference
    /// settlement code that numbers in it belong to, or empty.
    pub fn new(start: u64, end: u64, refsettlement: &str) -> (r: Range)
        requires
            start <= end,
        ensures
            r.wf(),
            r.start == start,
            r.end == end,
            r.refsettlement@ == refsettlement@,
            r.is_odd == (if odd(start) == odd(end) {
                Some(odd(start))
            } else {
                None
            }),
    {
        let is_odd = if start % 2 == end % 2 {
            Some(start % 2 == 1)
        } else {
            None
        };
        Range { start, end, is_odd, refsettlement: refsettlement.to_owned() }
    }

    pub fn contains(&self, n: u64) -> (r: bool)
        ensures
            r == self.spec_contains(n),
    {
        if n < self.start || n > self.end {
            return false;
        }
        match self.is_odd {
            Some(o) => (n % 2 == 1) == o,
            None => true,
        }
    }

    pub fn get_start(&self) -> (r: u64)
        ensures
            r == self.start,
    {
        self.start
    }

    pub fn get_end(&self) -> (r: u64)
        ensures
            r == self.end,
    {
        self.end
    }

    pub fn get_refsettlement(&self) -> (r: &String)
        ensures
            r == &self.refsettlement,
    {
        &self.refsettlement
    }

    pub open spec fn same(&self, o: &Range) -> bool {
        &&& self.start == o.start
        &&& self.end == o.end
        &&& self.is_odd == o.is_odd
        &&& self.refsettlement@ == o.refsettlement@
    }
}

impl PartialEq for Range {
    fn eq(&self, o: &Range) -> (r: bool) {
        let same_parity = match (self.is_odd, o.is_odd) {
            (Some(a), Some(b)) => a == b,
            (None, None) => true,
            _ => false,
        };
        self.start == o.start && self.end == o.end && same_parity && self.refsettlement
            == o.refsettlement
    }
}

impl vstd::std_specs::cmp::PartialEqSpecImpl for Range {
    open spec fn obeys_eq_spec() -> bool {
        true
    }

    open spec fn eq_spec(&self, o: &Range) -> bool {
        self.same(o)
    }
}

/// A union of ranges. The order of the items matters only for
/// [`Ranges::get_refsettlement`]: the first range that holds a number wins.
#[derive(Debug, Clone)]
pub struct Ranges {
    pub items: Vec<Range>,
}

impl Ranges {
    pub open spec fn wf(&self) -> bool {
        forall|i: int| 0 <= i < self.items@.len() ==> (#[trigger] self.items@[i]).wf()
    }

    pub open spec fn spec_contains(&self, n: u64) -> bool {
        exists|i: int| 0 <= i < self.items@.len() && (#[trigger] self.items@[i]).spec_contains(n)
    }

    /// The index of the first item that holds `n`, or the number of items.
    pub open spec fn first_holding(&self, n: u64) -> int {
        first_holding(self.items@, n)
    }

    pub fn new(items: Vec<Range>) -> (r: Ranges)
        ensures
            r.items@ == items@,
    {
        Ranges { items }
    }

    pub fn contains(&self, n: u64) -> (r: bool)
        ensures
            r == self.spec_contains(n),
    {
        let mut i: usize = 0;
        while i < self.items.len()
            invariant
                i <= self.items@.len(),
                forall|j: int| 0 <= j < i ==> !(#[trigger] self.items@[j]).spec_contains(n),
            decreases self.items@.len() - i,
        {
            if self.items[i].contains(n) {
                return true;
            }
            i = i + 1;
        }
        false
    }

    /// A copy with the same ranges.
    pub fn clone_ranges(&self) -> (r: Ranges)
        ensures
            r.items@.len() == self.items@.len(),
            forall|i: int| 0 <= i < self.items@.len() ==> (#[trigger] r.items@[i]).same(&self.items@[i]),
            forall|n: u64| r.spec_contains(n) == self.spec_contains(n),
    {
        let mut items: Vec<Range> = Vec::new();
        let mut i: usize = 0;
        while i < self.items.len()
            invariant
                i <= self.items@.len(),
                items@.len() == i,
                forall|j: int| 0 <= j < i ==> (#[trigger] items@[j]).same(&self.items@[j]),
            decreases self.items@.len() - i,
        {
            let it = &self.items[i];
            items.push(Range { start: it.start, end: it.end, is_odd: it.is_odd, refsettlement: it.refsettlement.clone() });
            i = i + 1;
        }
        let r = Ranges { items };
        assert forall|n: u64| r.spec_contains(n) == self.spec_contains(n) by {
            if r.spec_contains(n) {
                let j = choose|j: int| 0 <= j < r.items@.len() && (#[trigger] r.items@[j]).spec_contains(n);
                assert(self.items@[j].spec_contains(n));
            }
            if self.spec_contains(n) {
                let j = choose|j: int| 0 <= j < self.items@.len() && (#[trigger] self.items@[j]).spec_contains(n);
                assert(r.items@[j].spec_contains(n));
            }
        }
        r
    }

    pub fn is_empty(&self) -> (r: bool)
        ensures
            r == (self.items@.len() == 0),
    {
        self.items.len() == 0
    }

    pub fn get_items(&self) -> (r: &Vec<Range>)
        ensures
            r == &self.items,
    {
        &self.items
    }

    /// The reference settlement code of the first range that holds `n`, where
    /// that range has one.
    pub fn get_refsettlement(&self, n: u64) -> (r: Option<String>)
        ensures
            ({
                let k = self.first_holding(n);
                if k < self.items@.len() && self.items@[k].refsettlement@.len() > 0 {
                    r is Some && r->0@ == self.items@[k].refsettlement@
                } else {
                    r is None
                }
            }),
    {
        let mut i: usize = 0;
        while i < self.items.len()
            invariant
                i <= self.items@.len(),
                forall|j: int| 0 <= j < i ==> !(#[trigger] self.items@[j]).spec_contains(n),
            decreases self.items@.len() - i,
        {
            if self.items[i].contains(n) {
                proof {
                    lemma_first_holding(self.items@, n, i as int);
                }
                if self.items[i].refsettlement.as_str().is_empty() {
                    return None;
                }
                return Some(self.items[i].refsettlement.clone());
            }
            i = i + 1;
        }
        proof {
            lemma_first_holding_none(self.items@, n);
        }
        None
    }
}

/// One of `items` is the same range as `r`.
pub open spec fn has_same(items: Seq<Range>, r: Range) -> bool {
    exists|j: int| 0 <= j < items.len() && items[j].same(&r)
}

/// Every range of `a` is one of `b`.
pub open spec fn covered(a: Seq<Range>, b: Seq<Range>) -> bool {
    forall|i: int| 0 <= i < a.len() ==> #[trigger] has_same(b, a[i])
}

fn find_same(items: &Vec<Range>, r: &Range) -> (found: bool)
    ensures
        found == has_same(items@, *r),
{
    let mut j: usize = 0;
    while j < items.len()
        invariant
            j <= items@.len(),
            forall|k: int| 0 <= k < j ==> !(#[trigger] items@[k]).same(r),
        decreases items@.len() - j,
    {
        if items[j] == *r {
            return true;
        }
        j = j + 1;
    }
    false
}

fn all_covered(a: &Vec<Range>, b: &Vec<Range>) -> (r: bool)
    ensures
        r == covered(a@, b@),
{
    let mut i: usize = 0;
    while i < a.len()
        invariant
            i <= a@.len(),
            forall|k: int| 0 <= k < i ==> #[trigger] has_same(b@, a@[k]),
        decreases a@.len() - i,
    {
        if !find_same(b, &a[i]) {
            return false;
        }
        i = i + 1;
    }
    true
}

impl PartialEq for Ranges {
    fn eq(&self, o: &Ranges) -> (r: bool) {
        all_covered(&self.items, &o.items) && all_covered(&o.items, &self.items)
    }
}

impl vstd::std_specs::cmp::PartialEqSpecImpl for Ranges {
    open spec fn obeys_eq_spec() -> bool {
        true
    }

    open spec fn eq_spec(&self, o: &Ranges) -> bool {
        covered(self.items@, o.items@) && covered(o.items@, self.items@)
    }
}

pub open spec fn first_holding(items: Seq<Range>, n: u64) -> int
    decreases items.len(),
{
    if items.len() == 0 {
        0
    } else if items[0].spec_contains(n) {
        0
    } else {
        1 + first_holding(items.drop_first(), n)
    }
}

proof fn lemma_first_holding(items: Seq<Range>, n: u64, i: int)
    requires
        0 <= i < items.len(),
        items[i].spec_contains(n),
        forall|j: int| 0 <= j < i ==> !(#[trigger] items[j]).spec_contains(n),
    ensures
        first_holding(items, n) == i,
    decreases i,
{
    if i > 0 {
        assert(!items[0].spec_contains(n));
        assert forall|j: int| 0 <= j < i - 1 implies !(#[trigger] items.drop_first()[j]).spec_contains(n) by {
            assert(items.drop_first()[j] == items[j + 1]);
        }
        lemma_first_holding(items.drop_first(), n, i - 1);
    }
}

proof fn lemma_first_holding_none(items: Seq<Range>, n: u64)
    requires
        forall|j: int| 0 <= j < items.len() ==> !(#[trigger] items[j]).spec_contains(n),
    ensures
        first_holding(items, n) == items.len(),
    decreases items.len(),
{
    if items.len() > 0 {
        assert(!items[0].spec_contains(n));
        assert forall|j: int| 0 <= j < items.len() - 1 implies !(#[trigger] items.drop_first()[j]).spec_contains(n) by {
            assert(items.drop_first()[j] == items[j + 1]);
        }
        lemma_first_holding_none(items.drop_first(), n);
    }
}

/// A well-formed range holds both its ends, and nothing just outside them.
pub proof fn lemma_range_bounds(r: Range)
    requires
        r.wf(),
    ensures
        r.spec_contains(r.start),
        r.spec_contains(r.end),
        r.start > 0 ==> !r.spec_contains((r.start - 1) as u64),
        r.end < u64::MAX ==> !r.spec_contains((r.end + 1) as u64),
{
}

} // verus!
