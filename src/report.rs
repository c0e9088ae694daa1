//! Counts, percentages and the rows of the tables that present what is
//! missing.

use vstd::prelude::*;
use crate::housenumber::{without_star, HouseNumber, Street};
use crate::missing::{add_all, missing_ok, NumberPair, StreetNumbers};
use crate::ranges::Ranges;
use crate::config::DictModel;
use crate::order::{seq_lt, str_lt, lemma_seq_lt_total};
use crate::ranges::odd;
use crate::relation::{Relation, RelationError};
use crate::text::{chars_of, decimal, decimal_chars, digit_char, leading_u64, parse_leading_u64, string_of, views};

verus! {

/// `done / (done + todo)` in hundredths of a percent, rounded half up; all
/// done (10000) where there is nothing to do.
pub open spec fn percent_hundredths(done: nat, todo: nat) -> nat {
    if done + todo == 0 {
        10000
    } else {
        (done * 20000 + (done + todo)) / (2 * (done + todo))
    }
}

/// The share of `done` in `done + todo`, in hundredths of a percent.
pub fn get_percent(done: usize, todo: usize) -> (r: u64)
    ensures
        r == percent_hundredths(done as nat, todo as nat),
{
    let total: u128 = done as u128 + todo as u128;
    if total == 0 {
        return 10000;
    }
    let num: u128 = done as u128 * 20000 + total;
    let r: u128 = num / (2 * total);
    proof {
        let t = total as int;
        let n = num as int;
        assert(n <= 20001 * t) by (nonlinear_arith)
            requires
                n == (done as int) * 20000 + t,
                t == (done as int) + (todo as int),
                todo >= 0,
        ;
        assert(n < (2 * t) * 10001) by (nonlinear_arith)
            requires
                n <= 20001 * t,
                t > 0,
        ;
        vstd::arithmetic::div_mod::lemma_div_by_multiple_is_strongly_ordered(n, (2 * t) * 10001, 10001, 2 * t);
        assert(((2 * t) * 10001) / (2 * t) == 10001) by {
            vstd::arithmetic::div_mod::lemma_div_by_multiple(10001, 2 * t);
        }
    }
    r as u64
}

/// A percentage in hundredths, written with two decimals: `5455` is `54.55`.
pub open spec fn percent_text(h: nat) -> Seq<char> {
    decimal(h / 100) + seq!['.', digit_char((h % 100) / 10), digit_char(h % 10)]
}

fn digit(d: u64) -> (c: char)
    requires
        d < 10,
    ensures
        c == digit_char(d as nat),
{
    let v = decimal_chars(d as u128);
    assert(v@ == seq![digit_char(d as nat)]);
    v[0]
}

/// `h` hundredths of a percent, written with two decimals.
pub fn format_percent(h: u64) -> (r: String)
    ensures
        r@ == percent_text(h as nat),
{
    let mut v = decimal_chars((h / 100) as u128);
    v.push('.');
    v.push(digit((h % 100) / 10));
    v.push(digit(h % 10));
    string_of(v.as_slice())
}

/// What a street's numbers are shown as: each (source, comment) pair once,
/// so that the numbers of one interval `a-b` show as that interval.
pub open spec fn items_of(v: Seq<HouseNumber>) -> Seq<NumberPair> {
    add_all(Seq::empty(), v.map_values(|h: HouseNumber| (h.source@, h.comment@)))
}

/// An estimated number (`36*`) is shown in blue, without its star.
pub open spec fn item_text(it: NumberPair) -> Seq<char> {
    if it.0.len() > 0 && it.0.last() == '*' {
        "<span style=\"color: blue;\">"@ + without_star(it.0) + "</span>"@
    } else {
        it.0
    }
}

pub open spec fn is_odd_item(it: NumberPair) -> bool {
    match leading_u64(it.0) {
        Some(n) => n % 2 == 1,
        None => false,
    }
}

/// The texts of `items`, with `sep` between them.
pub open spec fn joined(items: Seq<NumberPair>, sep: Seq<char>) -> Seq<char>
    decreases items.len(),
{
    if items.len() == 0 {
        Seq::empty()
    } else if items.len() == 1 {
        item_text(items[0])
    } else {
        joined(items.drop_last(), sep) + sep + item_text(items.last())
    }
}

/// The odd (or the other) items, in order.
pub open spec fn select(items: Seq<NumberPair>, odd: bool) -> Seq<NumberPair>
    decreases items.len(),
{
    if items.len() == 0 {
        Seq::empty()
    } else if is_odd_item(items.last()) == odd {
        select(items.drop_last(), odd).push(items.last())
    } else {
        select(items.drop_last(), odd)
    }
}

/// The cell of house numbers: on an even-odd street the odd ones, a line
/// break, then the even ones; else all of them, comma-separated.
pub open spec fn numbers_cell(items: Seq<NumberPair>, even_odd: bool) -> Seq<char> {
    if !even_odd {
        joined(items, ", "@)
    } else {
        let o = joined(select(items, true), ", "@);
        let e = joined(select(items, false), ", "@);
        if o.len() > 0 && e.len() > 0 {
            o + "<br />"@ + e
        } else {
            o + e
        }
    }
}

/// The row of a street: its name, how many items it has, and them.
pub open spec fn row_is(row: Seq<Seq<char>>, e: StreetNumbers, even_odd: bool) -> bool {
    let items = items_of(e.1@);
    &&& row.len() == 3
    &&& row[0] == e.0.osm_name@
    &&& row[1] == decimal(items.len())
    &&& row[2] == numbers_cell(items, even_odd)
}

pub open spec fn header_row() -> Seq<Seq<char>> {
    seq!["Street name"@, "Missing count"@, "House numbers"@]
}

/// The total of the item counts of `v`, capped at the largest `usize`.
pub open spec fn item_total(v: Seq<StreetNumbers>) -> nat
    decreases v.len(),
{
    if v.len() == 0 {
        0
    } else {
        let t = item_total(v.drop_last()) + items_of(v.last().1@).len();
        if t > usize::MAX {
            usize::MAX as nat
        } else {
            t
        }
    }
}

fn append_str(out: &mut Vec<char>, s: &str)
    ensures
        final(out)@ == old(out)@ + s@,
{
    let cs = chars_of(s);
    let ghost start = out@;
    let mut i: usize = 0;
    while i < cs.len()
        invariant
            i <= cs@.len(),
            out@ == start + cs@.take(i as int),
        decreases cs@.len() - i,
    {
        out.push(cs[i]);
        i = i + 1;
        assert(out@ =~= start + cs@.take(i as int));
    }
    assert(cs@.take(cs@.len() as int) =~= cs@);
}

/// The shown items of `v`.
fn get_items(v: &Vec<HouseNumber>) -> (r: Vec<(String, String)>)
    ensures
        r@.map_values(|p: (String, String)| (p.0@, p.1@)) == items_of(v@),
{
    let ghost src = v@.map_values(|h: HouseNumber| (h.source@, h.comment@));
    let mut r: Vec<(String, String)> = Vec::new();
    let mut i: usize = 0;
    assert(src.take(0) =~= Seq::<NumberPair>::empty());
    while i < v.len()
        invariant
            i <= v@.len(),
            src == v@.map_values(|h: HouseNumber| (h.source@, h.comment@)),
            r@.map_values(|p: (String, String)| (p.0@, p.1@)) == add_all(Seq::empty(), src.take(i as int)),
        decreases v@.len() - i,
    {
        assert(src.take(i + 1).drop_last() =~= src.take(i as int));
        let ghost cur = r@.map_values(|p: (String, String)| (p.0@, p.1@));
        let mut found = false;
        let mut k: usize = 0;
        while k < r.len()
            invariant
                k <= r@.len(),
                cur == r@.map_values(|p: (String, String)| (p.0@, p.1@)),
                found == exists|j: int| 0 <= j < k && cur[j] == (v@[i as int].source@, v@[i as int].comment@),
                i < v@.len(),
            decreases r@.len() - k,
        {
            assert(cur[k as int] == (r@[k as int].0@, r@[k as int].1@));
            if r[k].0 == v[i].source && r[k].1 == v[i].comment {
                found = true;
            }
            k = k + 1;
        }
        let ghost x = (v@[i as int].source@, v@[i as int].comment@);
        assert(src.take(i + 1).last() == x);
        assert(found == cur.contains(x));
        if !found {
            r.push((v[i].source.clone(), v[i].comment.clone()));
            assert(r@.map_values(|p: (String, String)| (p.0@, p.1@)) =~= cur.push(x));
        }
        i = i + 1;
    }
    assert(src.take(v@.len() as int) =~= src);
    r
}

pub open spec fn pair_views(v: Seq<(String, String)>) -> Seq<NumberPair> {
    v.map_values(|p: (String, String)| (p.0@, p.1@))
}

fn push_item_text(out: &mut Vec<char>, it: &(String, String))
    ensures
        final(out)@ == old(out)@ + item_text((it.0@, it.1@)),
{
    let cs = chars_of(it.0.as_str());
    if cs.len() > 0 && cs[cs.len() - 1] == '*' {
        let ghost start = out@;
        append_str(out, "<span style=\"color: blue;\">");
        let mut i: usize = 0;
        let ghost mid = out@;
        while i < cs.len() - 1
            invariant
                cs@.len() > 0,
                i <= cs@.len() - 1,
                out@ == mid + cs@.take(i as int),
            decreases cs@.len() - i,
        {
            out.push(cs[i]);
            i = i + 1;
            assert(out@ =~= mid + cs@.take(i as int));
        }
        assert(cs@.take(i as int) =~= without_star(cs@));
        append_str(out, "</span>");
        assert(out@ =~= start + item_text((it.0@, it.1@)));
    } else {
        append_str(out, it.0.as_str());
    }
}

/// The texts of those `items` whose oddness is `odd` (or of all of them),
/// with `, ` between them.
fn join_items(items: &Vec<(String, String)>, all: bool, odd: bool) -> (r: Vec<char>)
    ensures
        r@ == joined(if all { pair_views(items@) } else { select(pair_views(items@), odd) }, ", "@),
{
    let ghost iv = pair_views(items@);
    let mut out: Vec<char> = Vec::new();
    let ghost sel: Seq<NumberPair> = Seq::empty();
    let mut count: usize = 0;
    let mut i: usize = 0;
    proof {
        reveal_strlit(", ");
    }
    assert(iv.take(0) =~= Seq::<NumberPair>::empty());
    while i < items.len()
        invariant
            i <= items@.len(),
            iv == pair_views(items@),
            sel == if all { iv.take(i as int) } else { select(iv.take(i as int), odd) },
            count == sel.len(),
            count <= i,
            out@ == joined(sel, ", "@),
        decreases items@.len() - i,
    {
        assert(iv.take(i + 1).drop_last() =~= iv.take(i as int));
        assert(iv.take(i + 1).last() == (items@[i as int].0@, items@[i as int].1@));
        let cs = chars_of(items[i].0.as_str());
        let n = parse_leading_u64(cs.as_slice());
        let is_odd = match n {
            Some(v) => v % 2 == 1,
            None => false,
        };
        assert(is_odd == is_odd_item(iv[i as int]));
        if all || is_odd == odd {
            if count > 0 {
                append_str(&mut out, ", ");
            }
            push_item_text(&mut out, &items[i]);
            proof {
                let x = iv[i as int];
                let nsel = sel.push(x);
                assert(nsel.drop_last() =~= sel);
                sel = nsel;
            }
            count = count + 1;
        }
        i = i + 1;
    }
    assert(iv.take(items@.len() as int) =~= iv);
    out
}

/// The cell of house numbers of `items`.
fn numbers_cell_of(items: &Vec<(String, String)>, even_odd: bool) -> (r: String)
    ensures
        r@ == numbers_cell(pair_views(items@), even_odd),
{
    if !even_odd {
        let v = join_items(items, true, true);
        return string_of(v.as_slice());
    }
    let mut o = join_items(items, false, true);
    let e = join_items(items, false, false);
    if o.len() > 0 && e.len() > 0 {
        append_str(&mut o, "<br />");
    }
    let ghost before = o@;
    let mut i: usize = 0;
    while i < e.len()
        invariant
            i <= e@.len(),
            o@ == before + e@.take(i as int),
        decreases e@.len() - i,
    {
        o.push(e[i]);
        i = i + 1;
        assert(o@ =~= before + e@.take(i as int));
    }
    assert(e@.take(e@.len() as int) =~= e@);
    string_of(o.as_slice())
}

fn header() -> (r: Vec<String>)
    ensures
        views(r@) == header_row(),
{
    let mut r: Vec<String> = Vec::new();
    r.push("Street name".to_owned());
    r.push("Missing count".to_owned());
    r.push("House numbers".to_owned());
    assert(views(r@) =~= header_row());
    r
}

/// Whether row key `a` (item count, name) comes before `b`: more items
/// first, then by name.
pub open spec fn row_before(a: (nat, Seq<char>), b: (nat, Seq<char>)) -> bool {
    a.0 > b.0 || (a.0 == b.0 && seq_lt(a.1, b.1))
}

pub open spec fn row_key(e: StreetNumbers) -> (nat, Seq<char>) {
    (items_of(e.1@).len(), e.0.osm_name@)
}

/// No entry comes before the one ahead of it.
pub open spec fn rows_sorted(v: Seq<StreetNumbers>) -> bool {
    forall|i: int| 0 <= i < v.len() - 1 ==> !row_before(row_key(#[trigger] v[i + 1]), row_key(v[i]))
}

proof fn lemma_row_before_asym(a: (nat, Seq<char>), b: (nat, Seq<char>))
    ensures
        !(row_before(a, b) && row_before(b, a)),
{
    lemma_seq_lt_total(a.1, b.1);
}

impl Relation {
    /// The table of `streets` and their house numbers: a header row, then one
    /// row per street in the order given; and the total of the item counts.
    pub fn numbered_streets_to_table(&self, streets: &Vec<StreetNumbers>) -> (r: (Vec<Vec<String>>, usize))
        ensures
            r.0@.len() == streets@.len() + 1,
            views(r.0@[0]@) == header_row(),
            forall|i: int| 0 <= i < streets@.len() ==> row_is(views(r.0@[i + 1]@), #[trigger] streets@[i], self.config.model().street_is_even_odd(streets@[i].0.osm_name@)),
            r.1 == item_total(streets@),
    {
        let mut table: Vec<Vec<String>> = Vec::new();
        table.push(header());
        let mut total: usize = 0;
        let mut i: usize = 0;
        assert(streets@.take(0) =~= Seq::<StreetNumbers>::empty());
        while i < streets.len()
            invariant
                i <= streets@.len(),
                table@.len() == i + 1,
                views(table@[0]@) == header_row(),
                forall|k: int| 0 <= k < i ==> row_is(views(table@[k + 1]@), #[trigger] streets@[k], self.config.model().street_is_even_odd(streets@[k].0.osm_name@)),
                total == item_total(streets@.take(i as int)),
            decreases streets@.len() - i,
        {
            let e = &streets[i];
            let items = get_items(&e.1);
            let even_odd = self.config.get_street_is_even_odd(e.0.osm_name.as_str());
            let mut row: Vec<String> = Vec::new();
            row.push(e.0.osm_name.clone());
            let count = decimal_chars(items.len() as u128);
            row.push(string_of(count.as_slice()));
            row.push(numbers_cell_of(&items, even_odd));
            assert(pair_views(items@) == items_of(e.1@));
            assert(row_is(views(row@), *e, even_odd));
            table.push(row);
            assert(streets@.take(i + 1).drop_last() =~= streets@.take(i as int));
            total = if total > usize::MAX - items.len() {
                usize::MAX
            } else {
                total + items.len()
            };
            i = i + 1;
        }
        assert(streets@.take(streets@.len() as int) =~= streets@);
        (table, total)
    }
}

/// Puts `e` after every entry that does not come after it.
fn insert_row(v: &mut Vec<StreetNumbers>, e: StreetNumbers, key: usize)
    requires
        rows_sorted(old(v)@),
        key == items_of(e.1@).len(),
    ensures
        rows_sorted(final(v)@),
        exists|p: int| 0 <= p <= old(v)@.len() && final(v)@ == old(v)@.insert(p, e),
{
    let mut p: usize = 0;
    let ghost ek = row_key(e);
    while p < v.len() && !before_exec(key, &e.0.osm_name, &v[p])
        invariant
            p <= v@.len(),
            rows_sorted(v@),
            ek == row_key(e),
            key == ek.0,
            e.0.osm_name@ == ek.1,
            p > 0 ==> !row_before(ek, row_key(v@[p - 1])),
        decreases v@.len() - p,
    {
        p = p + 1;
    }
    let ghost old_v = v@;
    let ghost ev = e;
    proof {
        if p < v@.len() {
            lemma_row_before_asym(ek, row_key(old_v[p as int]));
        }
    }
    v.insert(p, e);
    assert(v@ == old_v.insert(p as int, ev));
    assert forall|i: int| 0 <= i < v@.len() - 1 implies !row_before(row_key(#[trigger] v@[i + 1]), row_key(v@[i])) by {
        if i < p as int - 1 {
            assert(v@[i] == old_v[i] && v@[i + 1] == old_v[i + 1]);
            assert(!row_before(row_key(old_v[i + 1]), row_key(old_v[i])));
        } else if i == p as int - 1 {
            assert(v@[i] == old_v[i] && v@[i + 1] == ev);
            assert(row_key(ev) == ek);
            assert(!row_before(ek, row_key(old_v[i])));
        } else if i == p as int {
            assert(v@[i] == ev && v@[i + 1] == old_v[i]);
            assert(row_before(ek, row_key(old_v[i])));
            assert(!row_before(row_key(old_v[i]), ek));
        } else {
            assert(v@[i] == old_v[i - 1] && v@[i + 1] == old_v[i]);
            assert(!row_before(row_key(old_v[(i - 1) + 1]), row_key(old_v[i - 1])));
        }
    }
}

/// Whether (key, name) comes before the row key of `other`.
fn before_exec(key: usize, name: &String, other: &StreetNumbers) -> (r: bool)
    ensures
        r == row_before((key as nat, name@), row_key(*other)),
{
    let n = count_items(&other.1);
    if key != n {
        return key > n;
    }
    str_lt(name.as_str(), other.0.osm_name.as_str())
}

fn count_items(v: &Vec<HouseNumber>) -> (r: usize)
    ensures
        r == items_of(v@).len(),
{
    let items = get_items(v);
    items.len()
}

/// `v` sorted by item count, most first, then by street name.
fn sort_rows(v: Vec<StreetNumbers>) -> (r: Vec<StreetNumbers>)
    ensures
        rows_sorted(r@),
        r@.len() == v@.len(),
        forall|i: int| 0 <= i < r@.len() ==> #[trigger] v@.contains(r@[i]),
{
    let ghost orig = v@;
    let mut v = v;
    let mut r: Vec<StreetNumbers> = Vec::new();
    let ghost taken: Seq<StreetNumbers> = Seq::empty();
    while v.len() > 0
        invariant
            rows_sorted(r@),
            r@.len() + v@.len() == orig.len(),
            v@ == orig.take(v@.len() as int),
            forall|i: int| 0 <= i < r@.len() ==> #[trigger] orig.contains(r@[i]),
        decreases v@.len(),
    {
        let ghost n = v@.len();
        let e = v.pop().unwrap();
        assert(e == orig[n - 1]);
        assert(v@ =~= orig.take(n - 1));
        let key = count_items(&e.1);
        let ghost old_r = r@;
        let ghost ev = e;
        insert_row(&mut r, e, key);
        assert forall|i: int| 0 <= i < r@.len() implies #[trigger] orig.contains(r@[i]) by {
            let p = choose|p: int| 0 <= p <= old_r.len() && r@ == old_r.insert(p, ev);
            if i < p {
                assert(r@[i] == old_r[i]);
            } else if i > p {
                assert(r@[i] == old_r[i - 1]);
            } else {
                assert(orig[n - 1] == r@[i]);
            }
        }
    }
    r
}

/// The counts of missing house numbers, as `write_missing_housenumbers`
/// returns them: streets with missing numbers, missing items, present items,
/// the share present, and the table.
pub type MissingReport = (usize, usize, usize, u64, Vec<Vec<String>>);

/// What `write_missing_housenumbers` returns, given what
/// `get_missing_housenumbers` would (`ongoing`, `done` with street ranges
/// `ns`) and the rows in table order (`sorted`).
pub open spec fn missing_report_ok(
    res: MissingReport,
    ongoing: Seq<StreetNumbers>,
    done: Seq<StreetNumbers>,
    sorted: Seq<StreetNumbers>,
    cfg: DictModel,
    streets: Seq<char>,
    housenumbers: Seq<char>,
    lines: Seq<Seq<char>>,
    ns: Seq<(String, Ranges)>,
) -> bool {
    let table = res.4@;
    &&& missing_ok(ongoing, done, cfg, streets, housenumbers, lines, ns)
    &&& sorted.len() == ongoing.len()
    &&& forall|i: int| 0 <= i < sorted.len() ==> #[trigger] ongoing.contains(sorted[i])
    &&& rows_sorted(sorted)
    &&& table.len() == sorted.len() + 1
    &&& views(table[0]@) == header_row()
    &&& forall|i: int| 0 <= i < sorted.len() ==> row_is(views(table[i + 1]@), #[trigger] sorted[i], cfg.street_is_even_odd(sorted[i].0.osm_name@))
    &&& res.0 == ongoing.len()
    &&& res.1 == item_total(sorted)
    &&& res.2 == item_total(done)
    &&& res.3 == percent_hundredths(res.2 as nat, res.1 as nat)
}

impl Relation {
    /// Sums up the missing house numbers: how many streets lack numbers, how
    /// many items are missing and present, the share present (in hundredths
    /// of a percent), and the table of the streets that lack numbers, most
    /// items first, then by name.
    pub fn write_missing_housenumbers(&self, streets: &str, housenumbers: &str, ref_lines: &Vec<String>) -> (r:
        Result<MissingReport, RelationError>)
        ensures
            r is Ok ==> exists|o: Seq<StreetNumbers>, d: Seq<StreetNumbers>, s: Seq<StreetNumbers>, ns: Seq<(String, Ranges)>|
                #[trigger] missing_report_ok(r->Ok_0, o, d, s, self.config.model(), streets@, housenumbers@, views(ref_lines@), ns),
            r is Ok <==> crate::streets::tables_ok(streets@, housenumbers@) && crate::relation::config_ranges_ok(self.config.model()),
            r is Err ==> (r->Err_0 == RelationError::Format <==> !crate::streets::tables_ok(streets@, housenumbers@)),
            r is Err ==> r->Err_0 == RelationError::Format || r->Err_0 == RelationError::Config,
    {
        let (ongoing, done) = match self.get_missing_housenumbers(streets, housenumbers, ref_lines) {
            Ok(v) => v,
            Err(e) => {
                return Err(e);
            },
        };
        let ghost o = ongoing@;
        let ghost d = done@;
        let ghost ns = choose|ns: Seq<(String, Ranges)>| #[trigger] missing_ok(o, d, self.config.model(), streets@, housenumbers@, views(ref_lines@), ns);
        let todo_streets = ongoing.len();
        let sorted = sort_rows(ongoing);
        let (table, todo) = self.numbered_streets_to_table(&sorted);
        let mut done_count: usize = 0;
        let mut i: usize = 0;
        assert(done@.take(0) =~= Seq::<StreetNumbers>::empty());
        while i < done.len()
            invariant
                i <= done@.len(),
                done_count == item_total(done@.take(i as int)),
            decreases done@.len() - i,
        {
            let n = count_items(&done[i].1);
            assert(done@.take(i + 1).drop_last() =~= done@.take(i as int));
            done_count = if done_count > usize::MAX - n {
                usize::MAX
            } else {
                done_count + n
            };
            i = i + 1;
        }
        assert(done@.take(done@.len() as int) =~= done@);
        let percent = get_percent(done_count, todo);
        let res = (todo_streets, todo, done_count, percent, table);
        assert(missing_report_ok(res, o, d, sorted@, self.config.model(), streets@, housenumbers@, views(ref_lines@), ns));
        assert(exists|o: Seq<StreetNumbers>, d: Seq<StreetNumbers>, s: Seq<StreetNumbers>, ns: Seq<(String, Ranges)>|
            #[trigger] missing_report_ok(res, o, d, s, self.config.model(), streets@, housenumbers@, views(ref_lines@), ns));
        let out: Result<MissingReport, RelationError> = Ok(res);
        assert(out->Ok_0 == res);
        out
    }

    /// Sums up the missing streets: how many reference streets the map data
    /// lacks and has, the share it has (in hundredths of a percent), and the
    /// lacking ones, sorted.
    pub fn write_missing_streets(&self, streets: &str, housenumbers: &str, ref_streets: &Vec<String>) -> (r:
        Result<(usize, usize, u64, Vec<String>), RelationError>)
        ensures
            r is Ok <==> crate::streets::tables_ok(streets@, housenumbers@),
            r is Err ==> r->Err_0 == RelationError::Format,
            r is Ok ==> {
                let (todo, done, percent, lacking) = r->Ok_0;
                let names = crate::streets::entry_names(crate::streets::osm_street_entries(streets@, housenumbers@));
                let cfg = self.config.model();
                let refs = views(ref_streets@);
                &&& crate::order::strictly_sorted(views(lacking@))
                &&& forall|x: Seq<char>| #[trigger] views(lacking@).contains(x) <==> crate::streets::counted_ref(cfg, refs, x)
                    && !crate::streets::osm_has_ref_name(cfg, names, x)
                &&& todo == lacking@.len()
                &&& percent == percent_hundredths(done as nat, todo as nat)
            },
    {
        let (only, both) = match self.get_missing_streets(streets, housenumbers, ref_streets) {
            Ok(v) => v,
            Err(e) => {
                return Err(e);
            },
        };
        let todo = only.len();
        let done = both.len();
        let percent = get_percent(done, todo);
        Ok((todo, done, percent, only))
    }
}

} // verus!
