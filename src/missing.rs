//! House numbers of the map data and of the reference, street by street, and
//! which of them are missing on either side.

use vstd::prelude::*;
use crate::config::DictModel;
use crate::housenumber::{comparison_key, get_comparison_key, HouseNumber, LetterSuffixStyle};
use crate::normalize::{normalize, normalized, street_holds};
use crate::ranges::Ranges;
use crate::relation::{Relation, RelationError};
use crate::table::{cell, column, Table};
use crate::streets::hn_street;
use crate::housenumber::Street;
use crate::order::street_names;
use crate::streets::{entry_names, osm_street_entries};
use crate::text::{chars_eq, chars_of, push_char, split_on, split_str, str_eq, views};

verus! {

/// A house number as (number, source).
pub type NumberPair = (Seq<char>, Seq<char>);

pub open spec fn pairs_of(v: Seq<HouseNumber>) -> Seq<NumberPair> {
    v.map_values(|h: HouseNumber| (h.number@, h.source@))
}

/// `acc`, with `x` added where it is not there yet.
pub open spec fn push_new(acc: Seq<NumberPair>, x: NumberPair) -> Seq<NumberPair> {
    if acc.contains(x) {
        acc
    } else {
        acc.push(x)
    }
}

pub open spec fn add_all(acc: Seq<NumberPair>, xs: Seq<NumberPair>) -> Seq<NumberPair>
    decreases xs.len(),
{
    if xs.len() == 0 {
        acc
    } else {
        push_new(add_all(acc, xs.drop_last()), xs.last())
    }
}

/// The house numbers that rows of the map data give `street`, each
/// (number, source) pair once, in order of first appearance.
pub open spec fn osm_numbers(
    cfg: DictModel,
    h: Seq<Seq<char>>,
    rows: Seq<Seq<Seq<char>>>,
    street: Seq<char>,
    even_odd: bool,
    holds: spec_fn(u64) -> bool,
) -> Seq<NumberPair>
    decreases rows.len(),
{
    if rows.len() == 0 {
        Seq::empty()
    } else {
        let acc = osm_numbers(cfg, h, rows.drop_last(), street, even_odd, holds);
        if hn_street(h, rows.last()) == street {
            add_all(acc, normalized(cfg, cell(h, rows.last(), "addr:housenumber"@), street, even_odd, holds))
        } else {
            acc
        }
    }
}

/// The street of a reference line `street<TAB>number<TAB>comment`.
pub open spec fn line_street(line: Seq<char>) -> Seq<char> {
    split_on(line, '\t')[0]
}

/// The house-number field of a reference line: its number, and its comment
/// after a tab where it has one.
pub open spec fn line_field(line: Seq<char>) -> Seq<char> {
    let parts = split_on(line, '\t');
    if parts.len() < 2 {
        Seq::empty()
    } else if parts.len() == 2 {
        parts[1]
    } else {
        parts[1] + seq!['\t'] + parts[2]
    }
}

/// The reference house numbers of `street`, line by line.
pub open spec fn ref_numbers(
    cfg: DictModel,
    lines: Seq<Seq<char>>,
    street: Seq<char>,
    even_odd: bool,
    holds: spec_fn(u64) -> bool,
) -> Seq<NumberPair>
    decreases lines.len(),
{
    if lines.len() == 0 {
        Seq::empty()
    } else {
        let rest = ref_numbers(cfg, lines.drop_last(), street, even_odd, holds);
        if line_street(lines.last()) == street {
            rest + normalized(cfg, line_field(lines.last()), street, even_odd, holds)
        } else {
            rest
        }
    }
}

pub open spec fn key_of(n: Seq<char>, cfg: DictModel) -> Seq<char> {
    comparison_key(n, cfg.letters(), cfg.style())
}

/// Whether one of `ys` has the key `k`.
pub open spec fn has_key_in(k: Seq<char>, ys: Seq<NumberPair>, cfg: DictModel) -> bool {
    exists|i: int| 0 <= i < ys.len() && key_of(ys[i].0, cfg) == k
}

/// Those of `xs` whose key `ys` has (`found`), or has not (`!found`).
pub open spec fn by_key(xs: Seq<NumberPair>, ys: Seq<NumberPair>, cfg: DictModel, found: bool) -> Seq<NumberPair>
    decreases xs.len(),
{
    if xs.len() == 0 {
        Seq::empty()
    } else if has_key_in(key_of(xs.last().0, cfg), ys, cfg) == found {
        by_key(xs.drop_last(), ys, cfg, found).push(xs.last())
    } else {
        by_key(xs.drop_last(), ys, cfg, found)
    }
}

/// Each house number of `xs` is in exactly one of: those whose key `ys` lacks,
/// and those whose key `ys` has; the two together are as many as `xs`.
pub proof fn lemma_by_key_partition(xs: Seq<NumberPair>, ys: Seq<NumberPair>, cfg: DictModel)
    ensures
        by_key(xs, ys, cfg, false).len() + by_key(xs, ys, cfg, true).len() == xs.len(),
        forall|x: NumberPair| #[trigger] xs.contains(x) ==> by_key(xs, ys, cfg, false).contains(x) != by_key(xs, ys, cfg, true).contains(x),
    decreases xs.len(),
{
    if xs.len() > 0 {
        lemma_by_key_partition(xs.drop_last(), ys, cfg);
        lemma_by_key_members(xs, ys, cfg, false);
        lemma_by_key_members(xs, ys, cfg, true);
        assert forall|x: NumberPair| #[trigger] xs.contains(x) implies by_key(xs, ys, cfg, false).contains(x) != by_key(xs, ys, cfg, true).contains(x) by {
            let k = has_key_in(key_of(x.0, cfg), ys, cfg);
            let i = choose|i: int| 0 <= i < xs.len() && xs[i] == x;
            if i == xs.len() - 1 {
                assert(by_key(xs, ys, cfg, k).contains(x)) by {
                    assert(by_key(xs, ys, cfg, k).last() == x);
                }
            } else {
                assert(xs.drop_last().contains(x)) by {
                    assert(xs.drop_last()[i] == x);
                }
                let ra = by_key(xs.drop_last(), ys, cfg, k);
                let rb = by_key(xs.drop_last(), ys, cfg, !k);
                if ra.contains(x) {
                    let j = choose|j: int| 0 <= j < ra.len() && ra[j] == x;
                    assert(by_key(xs, ys, cfg, k)[j] == x);
                } else {
                    let j = choose|j: int| 0 <= j < rb.len() && rb[j] == x;
                    assert(by_key(xs, ys, cfg, !k)[j] == x);
                }
            }
        }
    }
}

/// What `by_key` keeps has the key condition.
pub proof fn lemma_by_key_members(xs: Seq<NumberPair>, ys: Seq<NumberPair>, cfg: DictModel, found: bool)
    ensures
        forall|x: NumberPair| #[trigger] by_key(xs, ys, cfg, found).contains(x) ==> has_key_in(key_of(x.0, cfg), ys, cfg) == found && xs.contains(x),
    decreases xs.len(),
{
    if xs.len() > 0 {
        lemma_by_key_members(xs.drop_last(), ys, cfg, found);
        assert forall|x: NumberPair| #[trigger] by_key(xs, ys, cfg, found).contains(x) implies has_key_in(key_of(x.0, cfg), ys, cfg) == found && xs.contains(x) by {
            let r = by_key(xs, ys, cfg, found);
            let rest = by_key(xs.drop_last(), ys, cfg, found);
            let j = choose|j: int| 0 <= j < r.len() && r[j] == x;
            if j < rest.len() {
                assert(rest[j] == x);
                assert(rest.contains(x));
                let i = choose|i: int| 0 <= i < xs.drop_last().len() && xs.drop_last()[i] == x;
                assert(xs[i] == x);
            } else {
                assert(x == xs.last());
                assert(xs[xs.len() - 1] == x);
            }
        }
    }
}

fn contains_pair(v: &Vec<HouseNumber>, h: &HouseNumber) -> (r: bool)
    ensures
        r == pairs_of(v@).contains((h.number@, h.source@)),
{
    let mut i: usize = 0;
    while i < v.len()
        invariant
            i <= v@.len(),
            forall|j: int| 0 <= j < i ==> pairs_of(v@)[j] != (h.number@, h.source@),
        decreases v@.len() - i,
    {
        if v[i].number == h.number && v[i].source == h.source {
            assert(pairs_of(v@)[i as int] == (h.number@, h.source@));
            return true;
        }
        i = i + 1;
    }
    false
}

fn add_new(out: &mut Vec<HouseNumber>, xs: &Vec<HouseNumber>)
    ensures
        pairs_of(final(out)@) == add_all(pairs_of(old(out)@), pairs_of(xs@)),
{
    let ghost start = pairs_of(out@);
    let mut i: usize = 0;
    assert(pairs_of(xs@).take(0) =~= Seq::<NumberPair>::empty());
    while i < xs.len()
        invariant
            i <= xs@.len(),
            pairs_of(out@) == add_all(start, pairs_of(xs@).take(i as int)),
        decreases xs@.len() - i,
    {
        assert(pairs_of(xs@).take(i + 1).drop_last() =~= pairs_of(xs@).take(i as int));
        assert(pairs_of(xs@).take(i + 1).last() == (xs@[i as int].number@, xs@[i as int].source@));
        if !contains_pair(out, &xs[i]) {
            let ghost before = out@;
            out.push(xs[i].duplicate());
            assert(pairs_of(out@) =~= pairs_of(before).push((xs@[i as int].number@, xs@[i as int].source@)));
        }
        i = i + 1;
    }
    assert(pairs_of(xs@).take(xs@.len() as int) =~= pairs_of(xs@));
}

impl Relation {
    /// The house numbers that the map data's house-number table gives
    /// `street_name` (by `addr:street`, else `addr:place`), normalized, each
    /// (number, source) pair once. Fails where the table has fewer than two
    /// columns, or where the street ranges are malformed.
    pub fn get_osm_housenumbers(&self, housenumbers: &str, street_name: &str) -> (r: Result<
        Vec<HouseNumber>,
        RelationError,
    >)
        ensures
            match r {
                Ok(v) => {
                    &&& crate::table::header_of(housenumbers@).len() >= 2
                    &&& crate::relation::config_ranges_ok(self.config.model())
                    &&& exists|ns: Seq<(String, Ranges)>|
                        crate::relation::street_ranges_match(ns, self.config.model().filters.unwrap_or(Seq::empty()))
                            && pairs_of(v@) == osm_numbers(
                            self.config.model(),
                            crate::table::header_of(housenumbers@),
                            crate::table::rows_of(housenumbers@),
                            street_name@,
                            self.config.model().street_is_even_odd(street_name@),
                            street_holds(ns, street_name@),
                        )
                },
                Err(e) => e == RelationError::Format && crate::table::header_of(housenumbers@).len() < 2
                    || e == RelationError::Config && crate::table::header_of(housenumbers@).len() >= 2
                    && !crate::relation::config_ranges_ok(self.config.model()),
            },
    {
        let t = match Table::parse(housenumbers) {
            Ok(t) => t,
            Err(e) => {
                return Err(e);
            },
        };
        let normalizers = match self.get_street_ranges() {
            Ok(n) => n,
            Err(e) => {
                return Err(e);
            },
        };
        let out = housenumbers_of_table(self, &t, street_name, &normalizers);
        Ok(out)
    }
}

/// The normalized house numbers that the rows of `t` give `street`.
pub(crate) fn housenumbers_of_table(relation: &Relation, t: &Table, street: &str, normalizers: &Vec<(String, Ranges)>) -> (r: Vec<HouseNumber>)
    ensures
        pairs_of(r@) == osm_numbers(
            relation.config.model(),
            t.header_view(),
            t.rows_view(),
            street@,
            relation.config.model().street_is_even_odd(street@),
            street_holds(normalizers@, street@),
        ),
{
    let even_odd = relation.config.get_street_is_even_odd(street);
    let street_col = t.column("addr:street");
    let place_col = t.column("addr:place");
    let number_col = t.column("addr:housenumber");
    let ghost h = t.header_view();
    let ghost rows = t.rows_view();
    let ghost cfg = relation.config.model();
    let ghost holds = street_holds(normalizers@, street@);
    let mut out: Vec<HouseNumber> = Vec::new();
    let mut i: usize = 0;
    while i < t.rows.len()
        invariant
            i <= t.rows@.len(),
            rows.len() == t.rows@.len(),
            h == t.header_view(),
            rows == t.rows_view(),
            cfg == relation.config.model(),
            holds == street_holds(normalizers@, street@),
            even_odd == cfg.street_is_even_odd(street@),
            match street_col {
                Some(c) => column(h, "addr:street"@) == Some(c as int),
                None => column(h, "addr:street"@) is None,
            },
            match place_col {
                Some(c) => column(h, "addr:place"@) == Some(c as int),
                None => column(h, "addr:place"@) is None,
            },
            match number_col {
                Some(c) => column(h, "addr:housenumber"@) == Some(c as int),
                None => column(h, "addr:housenumber"@) is None,
            },
            pairs_of(out@) == osm_numbers(cfg, h, rows.take(i as int), street@, even_odd, holds),
        decreases t.rows@.len() - i,
    {
        assert(rows.take(i + 1).drop_last() =~= rows.take(i as int));
        assert(rows.take(i + 1).last() == rows[i as int]);
        let s = t.cell(i, street_col, Ghost("addr:street"@));
        let name = if s.as_str().is_empty() {
            t.cell(i, place_col, Ghost("addr:place"@))
        } else {
            s
        };
        if str_eq(name.as_str(), street) {
            let raw = t.cell(i, number_col, Ghost("addr:housenumber"@));
            let found = match normalize(relation, raw.as_str(), street, even_odd, normalizers) {
                Ok(v) => v,
                Err(_) => Vec::new(),
            };
            let ghost want = normalized(cfg, raw@, street@, even_odd, holds);
            assert(pairs_of(found@) =~= want);
            add_new(&mut out, &found);
        }
        i = i + 1;
    }
    assert(rows.take(t.rows@.len() as int) =~= rows);
    out
}

/// The reference house numbers that `lines` give `street`.
fn ref_housenumbers_of(relation: &Relation, lines: &Vec<String>, street: &str, normalizers: &Vec<(String, Ranges)>) -> (r: Vec<HouseNumber>)
    ensures
        pairs_of(r@) == ref_numbers(
            relation.config.model(),
            views(lines@),
            street@,
            relation.config.model().street_is_even_odd(street@),
            street_holds(normalizers@, street@),
        ),
{
    let even_odd = relation.config.get_street_is_even_odd(street);
    let ghost cfg = relation.config.model();
    let ghost holds = street_holds(normalizers@, street@);
    let ghost ls = views(lines@);
    let mut out: Vec<HouseNumber> = Vec::new();
    let mut i: usize = 0;
    while i < lines.len()
        invariant
            i <= lines@.len(),
            ls == views(lines@),
            cfg == relation.config.model(),
            holds == street_holds(normalizers@, street@),
            even_odd == cfg.street_is_even_odd(street@),
            pairs_of(out@) == ref_numbers(cfg, ls.take(i as int), street@, even_odd, holds),
        decreases lines@.len() - i,
    {
        assert(ls.take(i + 1).drop_last() =~= ls.take(i as int));
        assert(ls.take(i + 1).last() == lines@[i as int]@);
        let parts = split_str(lines[i].as_str(), '\t');
        proof {
            crate::text::lemma_split_nonempty(lines@[i as int]@, '\t');
        }
        if str_eq(parts[0].as_str(), street) {
            let mut field = String::new();
            if parts.len() >= 2 {
                field = parts[1].clone();
                if parts.len() > 2 {
                    push_char(&mut field, '\t');
                    let mut rest = parts[2].clone();
                    field.append(rest.as_str());
                }
            }
            assert(field@ == line_field(lines@[i as int]@));
            let found = match normalize(relation, field.as_str(), street, even_odd, normalizers) {
                Ok(v) => v,
                Err(_) => Vec::new(),
            };
            assert(pairs_of(found@) =~= normalized(cfg, field@, street@, even_odd, holds));
            let ghost before = out@;
            let mut k: usize = 0;
            while k < found.len()
                invariant
                    k <= found@.len(),
                    pairs_of(out@) == pairs_of(before) + pairs_of(found@).take(k as int),
                decreases found@.len() - k,
            {
                let ghost prev = out@;
                out.push(found[k].duplicate());
                assert(pairs_of(out@) =~= pairs_of(prev).push(pairs_of(found@)[k as int]));
                assert(pairs_of(found@).take(k + 1) =~= pairs_of(found@).take(k as int).push(pairs_of(found@)[k as int]));
                k = k + 1;
                assert(pairs_of(out@) =~= pairs_of(before) + pairs_of(found@).take(k as int));
            }
            assert(pairs_of(found@).take(found@.len() as int) =~= pairs_of(found@));
        }
        i = i + 1;
    }
    assert(ls.take(lines@.len() as int) =~= ls);
    out
}

fn has_key_exec(ys: &Vec<HouseNumber>, key: &[char], letters: bool, style: LetterSuffixStyle) -> (r: bool)
    ensures
        r == has_key_in(key@, pairs_of(ys@), DictModel::with_letters(letters, style)),
{
    let ghost cfg = DictModel::with_letters(letters, style);
    let mut i: usize = 0;
    while i < ys.len()
        invariant
            i <= ys@.len(),
            cfg == DictModel::with_letters(letters, style),
            forall|j: int| 0 <= j < i ==> key_of(pairs_of(ys@)[j].0, cfg) != key@,
        decreases ys@.len() - i,
    {
        let cs = chars_of(ys[i].number.as_str());
        let k = get_comparison_key(cs.as_slice(), letters, style);
        assert(pairs_of(ys@)[i as int].0 == ys@[i as int].number@);
        if chars_eq(k.as_slice(), key) {
            return true;
        }
        i = i + 1;
    }
    false
}

pub proof fn lemma_key_of_letters(cfg: DictModel)
    ensures
        forall|n: Seq<char>| #[trigger] key_of(n, DictModel::with_letters(cfg.letters(), cfg.style())) == key_of(n, cfg),
{
}

/// Those of `xs` whose key `ys` has (`found`) or lacks (`!found`).
fn split_by_key(relation: &Relation, xs: &Vec<HouseNumber>, ys: &Vec<HouseNumber>, found: bool) -> (r: Vec<HouseNumber>)
    ensures
        pairs_of(r@) == by_key(pairs_of(xs@), pairs_of(ys@), relation.config.model(), found),
{
    let letters = relation.config.should_check_housenumber_letters();
    let style = relation.config.get_letter_suffix_style();
    let ghost cfg = relation.config.model();
    let ghost xp = pairs_of(xs@);
    let ghost yp = pairs_of(ys@);
    proof {
        lemma_key_of_letters(cfg);
    }
    let mut out: Vec<HouseNumber> = Vec::new();
    let mut i: usize = 0;
    while i < xs.len()
        invariant
            i <= xs@.len(),
            xp == pairs_of(xs@),
            yp == pairs_of(ys@),
            cfg == relation.config.model(),
            letters == cfg.letters(),
            style == cfg.style(),
            forall|n: Seq<char>| #[trigger] key_of(n, DictModel::with_letters(cfg.letters(), cfg.style())) == key_of(n, cfg),
            pairs_of(out@) == by_key(xp.take(i as int), yp, cfg, found),
        decreases xs@.len() - i,
    {
        assert(xp.take(i + 1).drop_last() =~= xp.take(i as int));
        assert(xp.take(i + 1).last() == (xs@[i as int].number@, xs@[i as int].source@));
        let cs = chars_of(xs[i].number.as_str());
        let k = get_comparison_key(cs.as_slice(), letters, style);
        let has = has_key_exec(ys, k.as_slice(), letters, style);
        assert(k@ == key_of(xs@[i as int].number@, cfg));
        assert(has == has_key_in(key_of(xs@[i as int].number@, cfg), yp, cfg)) by {
            if has {
                let j = choose|j: int| 0 <= j < yp.len() && key_of(yp[j].0, DictModel::with_letters(letters, style)) == k@;
                assert(key_of(yp[j].0, cfg) == k@);
            }
            if has_key_in(key_of(xs@[i as int].number@, cfg), yp, cfg) {
                let j = choose|j: int| 0 <= j < yp.len() && key_of(yp[j].0, cfg) == key_of(xs@[i as int].number@, cfg);
                assert(key_of(yp[j].0, DictModel::with_letters(letters, style)) == k@);
            }
        }
        if has == found {
            let ghost before = out@;
            out.push(xs[i].duplicate());
            assert(pairs_of(out@) =~= pairs_of(before).push((xs@[i as int].number@, xs@[i as int].source@)));
        }
        i = i + 1;
    }
    assert(xp.take(xs@.len() as int) =~= xp);
    out
}

/// A street with house numbers of it.
pub type StreetNumbers = (Street, Vec<HouseNumber>);

/// The reference numbers of `name` whose key the map data has (`found`) or
/// lacks (`!found`).
pub open spec fn numbers_by_key(
    cfg: DictModel,
    housenumbers: Seq<char>,
    lines: Seq<Seq<char>>,
    ns: Seq<(String, Ranges)>,
    name: Seq<char>,
    found: bool,
) -> Seq<NumberPair> {
    let eo = cfg.street_is_even_odd(name);
    let holds = street_holds(ns, name);
    by_key(
        ref_numbers(cfg, lines, name, eo, holds),
        osm_numbers(cfg, crate::table::header_of(housenumbers), crate::table::rows_of(housenumbers), name, eo, holds),
        cfg,
        found,
    )
}

/// `e` is a street of the map data with the numbers that `numbers_by_key`
/// gives it, and there is at least one.
pub open spec fn entry_ok(
    e: StreetNumbers,
    cfg: DictModel,
    streets: Seq<char>,
    housenumbers: Seq<char>,
    lines: Seq<Seq<char>>,
    ns: Seq<(String, Ranges)>,
    found: bool,
) -> bool {
    let name = e.0.osm_name@;
    &&& pairs_of(e.1@) == numbers_by_key(cfg, housenumbers, lines, ns, name, found)
    &&& e.1@.len() > 0
    &&& entry_names(osm_street_entries(streets, housenumbers)).contains(name)
    &&& e.0.ref_name@ == cfg.ref_street_of(name)
    &&& e.0.show_ref_street == cfg.show_ref_street(name)
}

pub open spec fn covers(v: Seq<StreetNumbers>, name: Seq<char>) -> bool {
    exists|i: int| 0 <= i < v.len() && v[i].0.osm_name@ == name
}

/// `v` holds, for each street of the map data with such numbers, one entry.
pub open spec fn result_ok(
    v: Seq<StreetNumbers>,
    cfg: DictModel,
    streets: Seq<char>,
    housenumbers: Seq<char>,
    lines: Seq<Seq<char>>,
    ns: Seq<(String, Ranges)>,
    found: bool,
) -> bool {
    &&& forall|i: int| 0 <= i < v.len() ==> entry_ok(#[trigger] v[i], cfg, streets, housenumbers, lines, ns, found)
    &&& forall|name: Seq<char>|
        #![trigger covers(v, name)]
        entry_names(osm_street_entries(streets, housenumbers)).contains(name)
            && numbers_by_key(cfg, housenumbers, lines, ns, name, found).len() > 0 ==> covers(v, name)
}

/// What `get_missing_housenumbers` returns, given the street ranges `ns`.
pub open spec fn missing_ok(
    ongoing: Seq<StreetNumbers>,
    done: Seq<StreetNumbers>,
    cfg: DictModel,
    streets: Seq<char>,
    housenumbers: Seq<char>,
    lines: Seq<Seq<char>>,
    ns: Seq<(String, Ranges)>,
) -> bool {
    &&& crate::relation::street_ranges_match(ns, cfg.filters.unwrap_or(Seq::empty()))
    &&& result_ok(ongoing, cfg, streets, housenumbers, lines, ns, false)
    &&& result_ok(done, cfg, streets, housenumbers, lines, ns, true)
    &&& by_count_desc(ongoing)
}

/// Each entry has at least as many numbers as the next one.
pub open spec fn by_count_desc(v: Seq<StreetNumbers>) -> bool {
    forall|i: int| 0 <= i < v.len() - 1 ==> (#[trigger] v[i]).1@.len() >= v[i + 1].1@.len()
}

/// For each street, each reference house number is either missing from the
/// map data or present in it, never both: the two lists split the reference
/// numbers of the street.
pub proof fn lemma_missing_or_done(
    cfg: DictModel,
    housenumbers: Seq<char>,
    lines: Seq<Seq<char>>,
    ns: Seq<(String, Ranges)>,
    name: Seq<char>,
)
    ensures
        ({
            let eo = cfg.street_is_even_odd(name);
            let refs = ref_numbers(cfg, lines, name, eo, street_holds(ns, name));
            let missing = numbers_by_key(cfg, housenumbers, lines, ns, name, false);
            let done = numbers_by_key(cfg, housenumbers, lines, ns, name, true);
            &&& missing.len() + done.len() == refs.len()
            &&& forall|x: NumberPair| #[trigger] refs.contains(x) ==> missing.contains(x) != done.contains(x)
        }),
{
    let eo = cfg.street_is_even_odd(name);
    let holds = street_holds(ns, name);
    lemma_by_key_partition(
        ref_numbers(cfg, lines, name, eo, holds),
        osm_numbers(cfg, crate::table::header_of(housenumbers), crate::table::rows_of(housenumbers), name, eo, holds),
        cfg,
    );
}

/// Puts `e` after every entry with at least as many numbers.
fn insert_by_count(v: &mut Vec<StreetNumbers>, e: StreetNumbers)
    requires
        by_count_desc(old(v)@),
    ensures
        by_count_desc(final(v)@),
        exists|p: int| 0 <= p <= old(v)@.len() && final(v)@ == old(v)@.insert(p, e),
{
    let mut p: usize = 0;
    while p < v.len() && v[p].1.len() >= e.1.len()
        invariant
            p <= v@.len(),
            by_count_desc(v@),
            p > 0 ==> v@[p - 1].1@.len() >= e.1@.len(),
        decreases v@.len() - p,
    {
        p = p + 1;
    }
    let ghost old_v = v@;
    let ghost ev = e;
    v.insert(p, e);
    assert(v@ == old_v.insert(p as int, ev));
    assert forall|i: int| 0 <= i < v@.len() - 1 implies (#[trigger] v@[i]).1@.len() >= v@[i + 1].1@.len() by {
        if i < p as int - 1 {
            assert(v@[i] == old_v[i] && v@[i + 1] == old_v[i + 1]);
        } else if i == p as int - 1 {
        } else if i == p as int {
        } else {
            assert(v@[i] == old_v[i - 1] && v@[i + 1] == old_v[i]);
        }
    }
}

impl Relation {
    /// For each street of the map data, the reference house numbers that the
    /// map data lacks (`ongoing`, most first) and those it has (`done`, by
    /// street name). Numbers are matched by their comparison key. Streets
    /// without such numbers are left out of each list.
    pub fn get_missing_housenumbers(&self, streets: &str, housenumbers: &str, ref_lines: &Vec<String>) -> (r:
        Result<(Vec<StreetNumbers>, Vec<StreetNumbers>), RelationError>)
        ensures
            r is Ok ==> exists|ns: Seq<(String, Ranges)>|
                #[trigger] missing_ok(r->Ok_0.0@, r->Ok_0.1@, self.config.model(), streets@, housenumbers@, views(ref_lines@), ns),
            r is Ok <==> crate::streets::tables_ok(streets@, housenumbers@) && crate::relation::config_ranges_ok(self.config.model()),
            r is Err ==> (r->Err_0 == RelationError::Format <==> !crate::streets::tables_ok(streets@, housenumbers@)),
            r is Err ==> r->Err_0 == RelationError::Format || r->Err_0 == RelationError::Config,
    {
        let osm_streets = match self.get_osm_streets(streets, housenumbers, true) {
            Ok(v) => v,
            Err(e) => {
                return Err(e);
            },
        };
        let t = if housenumbers.is_empty() {
            Table { header: Vec::new(), rows: Vec::new() }
        } else {
            match Table::parse(housenumbers) {
                Ok(t) => t,
                Err(e) => {
                    return Err(e);
                },
            }
        };
        assert(t.rows_view() == crate::table::rows_of(housenumbers@)) by {
            if housenumbers@.len() == 0 {
                assert(t.rows_view() =~= crate::table::rows_of(housenumbers@));
            }
        }
        let normalizers = match self.get_street_ranges() {
            Ok(n) => n,
            Err(e) => {
                return Err(e);
            },
        };
        assert(t.rows_view().len() == 0 || t.header_view() == crate::table::header_of(housenumbers@));
        let ghost cfg = self.config.model();
        let ghost ls = views(ref_lines@);
        let ghost ns = normalizers@;
        let ghost names = entry_names(osm_street_entries(streets@, housenumbers@));
        let mut ongoing: Vec<StreetNumbers> = Vec::new();
        let mut done: Vec<StreetNumbers> = Vec::new();
        let mut i: usize = 0;
        while i < osm_streets.len()
            invariant
                i <= osm_streets@.len(),
                cfg == self.config.model(),
                ls == views(ref_lines@),
                ns == normalizers@,
                names == entry_names(osm_street_entries(streets@, housenumbers@)),
                street_names(osm_streets@).to_set() == names.to_set(),
                t.rows_view() == crate::table::rows_of(housenumbers@),
                t.rows_view().len() == 0 || t.header_view() == crate::table::header_of(housenumbers@),
                by_count_desc(ongoing@),
                forall|k: int| 0 <= k < ongoing@.len() ==> entry_ok(#[trigger] ongoing@[k], cfg, streets@, housenumbers@, ls, ns, false),
                forall|k: int| 0 <= k < done@.len() ==> entry_ok(#[trigger] done@[k], cfg, streets@, housenumbers@, ls, ns, true),
                forall|k: int| 0 <= k < i && numbers_by_key(cfg, housenumbers@, ls, ns, osm_streets@[k].osm_name@, false).len() > 0
                    ==> covers(ongoing@, #[trigger] osm_streets@[k].osm_name@),
                forall|k: int| 0 <= k < i && numbers_by_key(cfg, housenumbers@, ls, ns, osm_streets@[k].osm_name@, true).len() > 0
                    ==> covers(done@, #[trigger] osm_streets@[k].osm_name@),
            decreases osm_streets@.len() - i,
        {
            let name = osm_streets[i].get_osm_name();
            let refs = ref_housenumbers_of(self, ref_lines, name.as_str(), &normalizers);
            let osm = housenumbers_of_table(self, &t, name.as_str(), &normalizers);
            let missing = split_by_key(self, &refs, &osm, false);
            let present = split_by_key(self, &refs, &osm, true);
            let ref_name = self.config.get_ref_street_from_osm_street(name.as_str());
            let show = self.config.should_show_ref_street(name.as_str());
            assert(names.contains(name@)) by {
                assert(street_names(osm_streets@)[i as int] == name@);
                assert(street_names(osm_streets@).to_set().contains(name@));
            }
            proof {
                lemma_rows_only(cfg, t.header_view(), crate::table::header_of(housenumbers@), t.rows_view(), name@, cfg.street_is_even_odd(name@), street_holds(ns, name@));
            }
            if missing.len() > 0 {
                let street = Street::new(name.as_str(), ref_name.as_str(), show, osm_streets[i].get_osm_id());
                let ghost before = ongoing@;
                let ghost e = (street, missing);
                insert_by_count(&mut ongoing, (street, missing));
                assert forall|k: int| 0 <= k < ongoing@.len() implies entry_ok(#[trigger] ongoing@[k], cfg, streets@, housenumbers@, ls, ns, false) by {
                    let p = choose|p: int| 0 <= p <= before.len() && ongoing@ == before.insert(p, e);
                    if k < p {
                        assert(ongoing@[k] == before[k]);
                    } else if k > p {
                        assert(ongoing@[k] == before[k - 1]);
                    }
                }
                assert forall|k: int| 0 <= k < i + 1 && numbers_by_key(cfg, housenumbers@, ls, ns, osm_streets@[k].osm_name@, false).len() > 0
                    implies covers(ongoing@, #[trigger] osm_streets@[k].osm_name@) by {
                    let p = choose|p: int| 0 <= p <= before.len() && ongoing@ == before.insert(p, e);
                    if k < i {
                        let j = choose|j: int| 0 <= j < before.len() && before[j].0.osm_name@ == osm_streets@[k].osm_name@;
                        if j < p {
                            assert(ongoing@[j] == before[j]);
                        } else {
                            assert(ongoing@[j + 1] == before[j]);
                        }
                    } else {
                        assert(ongoing@[p] == e);
                    }
                }
            }
            if present.len() > 0 {
                let street = Street::new(name.as_str(), ref_name.as_str(), show, osm_streets[i].get_osm_id());
                let ghost before_d = done@;
                done.push((street, present));
                assert forall|k: int| 0 <= k < i + 1 && numbers_by_key(cfg, housenumbers@, ls, ns, osm_streets@[k].osm_name@, true).len() > 0
                    implies covers(done@, #[trigger] osm_streets@[k].osm_name@) by {
                    if k == i {
                        assert(done@[done@.len() - 1].0.osm_name@ == osm_streets@[k].osm_name@);
                    } else {
                        assert(covers(before_d, osm_streets@[k].osm_name@));
                        let j = choose|j: int| 0 <= j < before_d.len() && before_d[j].0.osm_name@ == osm_streets@[k].osm_name@;
                        assert(done@[j] == before_d[j]);
                    }
                }
            }
            i = i + 1;
        }
        proof {
            assert forall|name: Seq<char>|
                #![trigger covers(ongoing@, name)]
                names.contains(name) && numbers_by_key(cfg, housenumbers@, ls, ns, name, false).len() > 0
                    implies covers(ongoing@, name) by {
                assert(street_names(osm_streets@).to_set().contains(name));
                let k = choose|k: int| 0 <= k < street_names(osm_streets@).len() && street_names(osm_streets@)[k] == name;
                assert(osm_streets@[k].osm_name@ == name);
            }
            assert forall|name: Seq<char>|
                #![trigger covers(done@, name)]
                names.contains(name) && numbers_by_key(cfg, housenumbers@, ls, ns, name, true).len() > 0
                    implies covers(done@, name) by {
                assert(street_names(osm_streets@).to_set().contains(name));
                let k = choose|k: int| 0 <= k < street_names(osm_streets@).len() && street_names(osm_streets@)[k] == name;
                assert(osm_streets@[k].osm_name@ == name);
            }
            let fs = self.config.model().filters.unwrap_or(Seq::empty());
            assert(crate::relation::street_ranges_match(normalizers@, fs));
            assert(result_ok(ongoing@, cfg, streets@, housenumbers@, ls, ns, false));
            assert(result_ok(done@, cfg, streets@, housenumbers@, ls, ns, true));
            assert(missing_ok(ongoing@, done@, cfg, streets@, housenumbers@, ls, ns));
        }
        let ghost o = ongoing@;
        let ghost d = done@;
        let res = (ongoing, done);
        assert(res.0@ == o && res.1@ == d);
        assert(missing_ok(res.0@, res.1@, self.config.model(), streets@, housenumbers@, views(ref_lines@), normalizers@));
        assert(exists|ns: Seq<(String, Ranges)>| #[trigger] missing_ok(res.0@, res.1@, self.config.model(), streets@, housenumbers@, views(ref_lines@), ns));
        let out: Result<(Vec<StreetNumbers>, Vec<StreetNumbers>), RelationError> = Ok(res);
        assert(out->Ok_0.0@ == o);
        out
    }
}

/// House numbers depend on the rows of a table and on its header only
/// through them: without rows there are none.
proof fn lemma_rows_only(
    cfg: DictModel,
    h1: Seq<Seq<char>>,
    h2: Seq<Seq<char>>,
    rows: Seq<Seq<Seq<char>>>,
    street: Seq<char>,
    eo: bool,
    holds: spec_fn(u64) -> bool,
)
    requires
        rows.len() == 0 || h1 == h2,
    ensures
        osm_numbers(cfg, h1, rows, street, eo, holds) == osm_numbers(cfg, h2, rows, street, eo, holds),
{
}

/// Whether the street lists its valid numbers: those are exceptions, never
/// reported as additional.
pub open spec fn valid_listed(cfg: DictModel, name: Seq<char>) -> bool {
    match cfg.street_filter(name) {
        Some(f) => f.valid is Some,
        None => false,
    }
}

/// The house numbers of `name` in the map data whose key the reference lacks.
pub open spec fn additional_numbers(
    cfg: DictModel,
    housenumbers: Seq<char>,
    lines: Seq<Seq<char>>,
    ns: Seq<(String, Ranges)>,
    name: Seq<char>,
) -> Seq<NumberPair> {
    let eo = cfg.street_is_even_odd(name);
    let holds = street_holds(ns, name);
    if valid_listed(cfg, name) {
        Seq::empty()
    } else {
        by_key(
            osm_numbers(cfg, crate::table::header_of(housenumbers), crate::table::rows_of(housenumbers), name, eo, holds),
            ref_numbers(cfg, lines, name, eo, holds),
            cfg,
            false,
        )
    }
}

pub open spec fn additional_entry_ok(
    e: StreetNumbers,
    cfg: DictModel,
    streets: Seq<char>,
    housenumbers: Seq<char>,
    lines: Seq<Seq<char>>,
    ns: Seq<(String, Ranges)>,
) -> bool {
    let name = e.0.osm_name@;
    &&& pairs_of(e.1@) == additional_numbers(cfg, housenumbers, lines, ns, name)
    &&& e.1@.len() > 0
    &&& entry_names(osm_street_entries(streets, housenumbers)).contains(name)
    &&& e.0.ref_name@ == cfg.ref_street_of(name)
    &&& e.0.show_ref_street == cfg.show_ref_street(name)
}

/// What `get_additional_housenumbers` returns, given the street ranges `ns`.
pub open spec fn additional_ok(
    v: Seq<StreetNumbers>,
    cfg: DictModel,
    streets: Seq<char>,
    housenumbers: Seq<char>,
    lines: Seq<Seq<char>>,
    ns: Seq<(String, Ranges)>,
) -> bool {
    &&& crate::relation::street_ranges_match(ns, cfg.filters.unwrap_or(Seq::empty()))
    &&& forall|i: int| 0 <= i < v.len() ==> additional_entry_ok(#[trigger] v[i], cfg, streets, housenumbers, lines, ns)
    &&& forall|name: Seq<char>|
        #![trigger covers(v, name)]
        entry_names(osm_street_entries(streets, housenumbers)).contains(name)
            && additional_numbers(cfg, housenumbers, lines, ns, name).len() > 0 ==> covers(v, name)
    &&& by_count_desc(v)
}

impl Relation {
    /// For each street of the map data, its house numbers that the reference
    /// lacks, most first. A street that lists its valid numbers has none.
    pub fn get_additional_housenumbers(&self, streets: &str, housenumbers: &str, ref_lines: &Vec<String>) -> (r:
        Result<Vec<StreetNumbers>, RelationError>)
        ensures
            r is Ok ==> exists|ns: Seq<(String, Ranges)>|
                #[trigger] additional_ok(r->Ok_0@, self.config.model(), streets@, housenumbers@, views(ref_lines@), ns),
            r is Ok <==> crate::streets::tables_ok(streets@, housenumbers@) && crate::relation::config_ranges_ok(self.config.model()),
            r is Err ==> (r->Err_0 == RelationError::Format <==> !crate::streets::tables_ok(streets@, housenumbers@)),
            r is Err ==> r->Err_0 == RelationError::Format || r->Err_0 == RelationError::Config,
    {
        let osm_streets = match self.get_osm_streets(streets, housenumbers, true) {
            Ok(v) => v,
            Err(e) => {
                return Err(e);
            },
        };
        let t = if housenumbers.is_empty() {
            Table { header: Vec::new(), rows: Vec::new() }
        } else {
            match Table::parse(housenumbers) {
                Ok(t) => t,
                Err(e) => {
                    return Err(e);
                },
            }
        };
        assert(t.rows_view() == crate::table::rows_of(housenumbers@)) by {
            if housenumbers@.len() == 0 {
                assert(t.rows_view() =~= crate::table::rows_of(housenumbers@));
            }
        }
        assert(t.rows_view().len() == 0 || t.header_view() == crate::table::header_of(housenumbers@));
        let normalizers = match self.get_street_ranges() {
            Ok(n) => n,
            Err(e) => {
                return Err(e);
            },
        };
        let ghost cfg = self.config.model();
        let ghost ls = views(ref_lines@);
        let ghost ns = normalizers@;
        let ghost names = entry_names(osm_street_entries(streets@, housenumbers@));
        let mut out: Vec<StreetNumbers> = Vec::new();
        let mut i: usize = 0;
        while i < osm_streets.len()
            invariant
                i <= osm_streets@.len(),
                cfg == self.config.model(),
                ls == views(ref_lines@),
                ns == normalizers@,
                names == entry_names(osm_street_entries(streets@, housenumbers@)),
                street_names(osm_streets@).to_set() == names.to_set(),
                t.rows_view() == crate::table::rows_of(housenumbers@),
                t.rows_view().len() == 0 || t.header_view() == crate::table::header_of(housenumbers@),
                by_count_desc(out@),
                forall|k: int| 0 <= k < out@.len() ==> additional_entry_ok(#[trigger] out@[k], cfg, streets@, housenumbers@, ls, ns),
                forall|k: int| 0 <= k < i && additional_numbers(cfg, housenumbers@, ls, ns, osm_streets@[k].osm_name@).len() > 0
                    ==> covers(out@, #[trigger] osm_streets@[k].osm_name@),
            decreases osm_streets@.len() - i,
        {
            let name = osm_streets[i].get_osm_name();
            let listed = match self.config.get_street_filter(name.as_str()) {
                Some(f) => f.filter.valid.is_some(),
                None => false,
            };
            let numbers = if listed {
                Vec::new()
            } else {
                let refs = ref_housenumbers_of(self, ref_lines, name.as_str(), &normalizers);
                let osm = housenumbers_of_table(self, &t, name.as_str(), &normalizers);
                proof {
                    lemma_rows_only(cfg, t.header_view(), crate::table::header_of(housenumbers@), t.rows_view(), name@, cfg.street_is_even_odd(name@), street_holds(ns, name@));
                }
                split_by_key(self, &osm, &refs, false)
            };
            assert(pairs_of(numbers@) == additional_numbers(cfg, housenumbers@, ls, ns, name@)) by {
                if listed {
                    assert(pairs_of(numbers@) =~= Seq::empty());
                }
            }
            assert(names.contains(name@)) by {
                assert(street_names(osm_streets@)[i as int] == name@);
                assert(street_names(osm_streets@).to_set().contains(name@));
            }
            if numbers.len() > 0 {
                let ref_name = self.config.get_ref_street_from_osm_street(name.as_str());
                let show = self.config.should_show_ref_street(name.as_str());
                let street = Street::new(name.as_str(), ref_name.as_str(), show, osm_streets[i].get_osm_id());
                let ghost before = out@;
                let ghost e = (street, numbers);
                insert_by_count(&mut out, (street, numbers));
                assert forall|k: int| 0 <= k < out@.len() implies additional_entry_ok(#[trigger] out@[k], cfg, streets@, housenumbers@, ls, ns) by {
                    let p = choose|p: int| 0 <= p <= before.len() && out@ == before.insert(p, e);
                    if k < p {
                        assert(out@[k] == before[k]);
                    } else if k > p {
                        assert(out@[k] == before[k - 1]);
                    }
                }
                assert forall|k: int| 0 <= k < i + 1 && additional_numbers(cfg, housenumbers@, ls, ns, osm_streets@[k].osm_name@).len() > 0
                    implies covers(out@, #[trigger] osm_streets@[k].osm_name@) by {
                    let p = choose|p: int| 0 <= p <= before.len() && out@ == before.insert(p, e);
                    if k < i {
                        let j = choose|j: int| 0 <= j < before.len() && before[j].0.osm_name@ == osm_streets@[k].osm_name@;
                        if j < p {
                            assert(out@[j] == before[j]);
                        } else {
                            assert(out@[j + 1] == before[j]);
                        }
                    } else {
                        assert(out@[p] == e);
                    }
                }
            }
            i = i + 1;
        }
        proof {
            assert forall|name: Seq<char>|
                #![trigger covers(out@, name)]
                names.contains(name) && additional_numbers(cfg, housenumbers@, ls, ns, name).len() > 0
                    implies covers(out@, name) by {
                assert(street_names(osm_streets@).to_set().contains(name));
                let k = choose|k: int| 0 <= k < street_names(osm_streets@).len() && street_names(osm_streets@)[k] == name;
                assert(osm_streets@[k].osm_name@ == name);
            }
            let fs = self.config.model().filters.unwrap_or(Seq::empty());
            assert(crate::relation::street_ranges_match(normalizers@, fs));
            assert(additional_ok(out@, cfg, streets@, housenumbers@, ls, ns));
        }
        let ghost o = out@;
        assert(additional_ok(out@, self.config.model(), streets@, housenumbers@, views(ref_lines@), normalizers@));
        assert(exists|ns: Seq<(String, Ranges)>| #[trigger] additional_ok(out@, self.config.model(), streets@, housenumbers@, views(ref_lines@), ns));
        let res: Result<Vec<StreetNumbers>, RelationError> = Ok(out);
        assert(res->Ok_0@ == o);
        res
    }
}

} // verus!
