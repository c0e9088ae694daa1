//! Turns a raw house-number field into normalized house numbers.

use vstd::prelude::*;
use crate::config::{DictModel, FilterModel};
use crate::housenumber::{
    comparison_key, get_comparison_key, has_letter_suffix, has_letter_suffix_form,
    letter_suffix_normal_form, normalize_letter_suffix, without_star, HouseNumber,
    LetterSuffixStyle,
};
use crate::ranges::{Range, Ranges};
use crate::relation::Relation;
use crate::text::{
    chars_eq, chars_of, decimal, decimal_chars, digit_prefix, digit_prefix_len, leading_u64,
    parse_leading_u64, split_chars, split_on, split_str, string_of, views,
};

verus! {

/// An interval wider than this is not expanded: only its ends are kept.
pub const MAX_INTERVAL: u64 = 50;

/// Without configured ranges, a street's numbers run from 1 to this.
pub const DEFAULT_MAX: u64 = 998;

pub open spec fn holds_of(rs: Ranges) -> spec_fn(u64) -> bool {
    |n: u64| rs.spec_contains(n)
}

/// `n`, where `holds` accepts it.
pub open spec fn keep1(n: u64, holds: spec_fn(u64) -> bool) -> Seq<u64> {
    if holds(n) {
        seq![n]
    } else {
        Seq::empty()
    }
}

/// `a`, `a + step`, ... up to `b`, those that `holds` accepts.
pub open spec fn interval(a: u64, b: u64, step: u64, holds: spec_fn(u64) -> bool) -> Seq<u64>
    decreases b - a,
{
    if step == 0 || b < a {
        Seq::empty()
    } else if b - a < step {
        keep1(a, holds)
    } else {
        keep1(a, holds) + interval((a + step) as u64, b, step, holds)
    }
}

/// Whether the end of an interval has something after its digits (other
/// than the star of an estimated number).
pub open spec fn has_suffix(end: Seq<char>) -> bool {
    digit_prefix_len(without_star(end)) < without_star(end).len()
}

/// The numbers of one token: a number, or an interval `x-y`.
pub open spec fn token_numbers(tok: Seq<char>, even_odd: bool, holds: spec_fn(u64) -> bool) -> Seq<u64> {
    let parts = split_on(tok, '-');
    if parts.len() == 2 {
        match (leading_u64(parts[0]), leading_u64(parts[1])) {
            (Some(a), Some(b)) => if b < a || has_suffix(parts[1]) {
                keep1(a, holds)
            } else if a == 0 || b - a > MAX_INTERVAL {
                keep1(a, holds) + keep1(b, holds)
            } else if !even_odd {
                interval(a, b, 1, holds)
            } else if a % 2 == b % 2 {
                interval(a, b, 2, holds)
            } else {
                keep1(a, holds) + keep1(b, holds)
            },
            (Some(a), None) => keep1(a, holds),
            _ => Seq::empty(),
        }
    } else {
        match leading_u64(tok) {
            Some(n) => keep1(n, holds),
            None => Seq::empty(),
        }
    }
}

pub open spec fn tokens_numbers(toks: Seq<Seq<char>>, even_odd: bool, holds: spec_fn(u64) -> bool) -> Seq<u64>
    decreases toks.len(),
{
    if toks.len() == 0 {
        Seq::empty()
    } else {
        tokens_numbers(toks.drop_last(), even_odd, holds) + token_numbers(toks.last(), even_odd, holds)
    }
}

/// `;` and `,` separate tokens alike.
pub open spec fn semicolon_as_comma(s: Seq<char>) -> Seq<char> {
    s.map_values(|c: char| if c == ';' { ',' } else { c })
}

/// The numbers of a field, token by token; none where it does not start with
/// a digit.
pub open spec fn field_numbers(text: Seq<char>, even_odd: bool, holds: spec_fn(u64) -> bool) -> Seq<u64> {
    if digit_prefix_len(text) == 0 {
        Seq::empty()
    } else {
        tokens_numbers(split_on(semicolon_as_comma(text), ','), even_odd, holds)
    }
}

pub open spec fn star_suffix(text: Seq<char>) -> Seq<char> {
    if text.len() > 0 && text.last() == '*' {
        seq!['*']
    } else {
        Seq::empty()
    }
}

/// A field of one number with a letter suffix, where letters are kept apart.
pub open spec fn letter_case(cfg: DictModel, text: Seq<char>, even_odd: bool, holds: spec_fn(u64) -> bool) -> bool {
    &&& cfg.letters()
    &&& field_numbers(text, even_odd, holds).len() == 1
    &&& has_letter_suffix_form(without_star(text))
}

pub open spec fn number_text(n: u64, text: Seq<char>) -> Seq<char> {
    decimal(n as nat) + star_suffix(text)
}

/// The normalized numbers of a field, before the street's lists apply.
pub open spec fn candidate_numbers(cfg: DictModel, text: Seq<char>, even_odd: bool, holds: spec_fn(u64) -> bool) -> Seq<Seq<char>> {
    if letter_case(cfg, text, even_odd, holds) {
        seq![letter_suffix_normal_form(without_star(text), cfg.style())]
    } else {
        field_numbers(text, even_odd, holds).map_values(|n: u64| number_text(n, text))
    }
}

pub open spec fn keys(list: Seq<Seq<char>>, cfg: DictModel) -> Seq<Seq<char>> {
    list.map_values(|s: Seq<char>| comparison_key(s, cfg.letters(), cfg.style()))
}

/// Whether a number passes the street's `invalid` and `valid` lists.
pub open spec fn passes(number: Seq<char>, f: Option<FilterModel>, cfg: DictModel) -> bool {
    let key = comparison_key(number, cfg.letters(), cfg.style());
    match f {
        None => true,
        Some(f) => {
            &&& match f.invalid {
                Some(inv) => !keys(inv, cfg).contains(key),
                None => true,
            }
            &&& match f.valid {
                Some(v) => keys(v, cfg).contains(key),
                None => true,
            }
        },
    }
}

pub open spec fn kept(ns: Seq<Seq<char>>, f: Option<FilterModel>, cfg: DictModel) -> Seq<Seq<char>>
    decreases ns.len(),
{
    if ns.len() == 0 {
        Seq::empty()
    } else if passes(ns.last(), f, cfg) {
        kept(ns.drop_last(), f, cfg).push(ns.last())
    } else {
        kept(ns.drop_last(), f, cfg)
    }
}

/// The ranges configured for `street`, first match first.
pub open spec fn find_ranges(ns: Seq<(String, Ranges)>, street: Seq<char>) -> Option<Ranges>
    decreases ns.len(),
{
    if ns.len() == 0 {
        None
    } else if ns[0].0@ == street {
        Some(ns[0].1)
    } else {
        find_ranges(ns.drop_first(), street)
    }
}

/// Which numbers a street accepts: its configured ranges, else 1 to 998.
pub open spec fn street_holds(ns: Seq<(String, Ranges)>, street: Seq<char>) -> spec_fn(u64) -> bool {
    |n: u64| match find_ranges(ns, street) {
        Some(rs) => rs.spec_contains(n),
        None => 1 <= n <= DEFAULT_MAX,
    }
}

/// The number part of a field (before a tab) and its comment (after it).
pub open spec fn field_text(raw: Seq<char>) -> Seq<char> {
    split_on(raw, '\t')[0]
}

pub open spec fn field_comment(raw: Seq<char>) -> Seq<char> {
    if split_on(raw, '\t').len() > 1 {
        split_on(raw, '\t')[1]
    } else {
        Seq::empty()
    }
}

/// What `normalize` returns for a field: (number, source) pairs.
#[verifier::opaque]
pub open spec fn normalized(
    cfg: DictModel,
    raw: Seq<char>,
    street: Seq<char>,
    even_odd: bool,
    holds: spec_fn(u64) -> bool,
) -> Seq<(Seq<char>, Seq<char>)> {
    let text = field_text(raw);
    let ns = kept(candidate_numbers(cfg, text, even_odd, holds), cfg.street_filter(street), cfg);
    if letter_case(cfg, text, even_odd, holds) {
        ns.map_values(|n: Seq<char>| (n, n))
    } else {
        ns.map_values(|n: Seq<char>| (n, text))
    }
}

fn push_interval(a: u64, b: u64, step: u64, rs: &Ranges, out: &mut Vec<u64>)
    requires
        step > 0,
        a <= b,
    ensures
        final(out)@ == old(out)@ + interval(a, b, step, holds_of(*rs)),
    decreases b - a,
{
    let ghost start = out@;
    if rs.contains(a) {
        out.push(a);
    }
    assert(out@ =~= start + keep1(a, holds_of(*rs)));
    if b - a >= step {
        push_interval(a + step, b, step, rs, out);
        assert(out@ =~= start + interval(a, b, step, holds_of(*rs)));
    } else {
        assert(out@ =~= start + interval(a, b, step, holds_of(*rs)));
    }
}

fn push_kept(n: u64, rs: &Ranges, out: &mut Vec<u64>)
    ensures
        final(out)@ == old(out)@ + keep1(n, holds_of(*rs)),
{
    let ghost start = out@;
    if rs.contains(n) {
        out.push(n);
    }
    assert(out@ =~= start + keep1(n, holds_of(*rs)));
}

fn push_token_numbers(tok: &[char], even_odd: bool, rs: &Ranges, out: &mut Vec<u64>)
    ensures
        final(out)@ == old(out)@ + token_numbers(tok@, even_odd, holds_of(*rs)),
{
    let ghost start = out@;
    let parts = split_chars(tok, '-');
    if parts.len() == 2 {
        let x = parse_leading_u64(parts[0].as_slice());
        let y = parse_leading_u64(parts[1].as_slice());
        let end = crate::housenumber::strip_star(parts[1].as_slice());
        let suffixed = digit_prefix(end.as_slice()) < end.len();
        match (x, y) {
            (Some(a), Some(b)) => {
                if b < a || suffixed {
                    push_kept(a, rs, out);
                } else if a == 0 || b - a > MAX_INTERVAL {
                    push_kept(a, rs, out);
                    push_kept(b, rs, out);
                    assert(out@ =~= start + token_numbers(tok@, even_odd, holds_of(*rs)));
                } else if !even_odd {
                    push_interval(a, b, 1, rs, out);
                } else if a % 2 == b % 2 {
                    push_interval(a, b, 2, rs, out);
                } else {
                    push_kept(a, rs, out);
                    push_kept(b, rs, out);
                    assert(out@ =~= start + token_numbers(tok@, even_odd, holds_of(*rs)));
                }
            },
            (Some(a), None) => {
                push_kept(a, rs, out);
            },
            _ => {
                assert(out@ =~= start + token_numbers(tok@, even_odd, holds_of(*rs)));
            },
        }
    } else {
        match parse_leading_u64(tok) {
            Some(n) => push_kept(n, rs, out),
            None => {
                assert(out@ =~= start + token_numbers(tok@, even_odd, holds_of(*rs)));
            },
        }
    }
}

/// The numbers of a field, before they are written out.
fn field_number_values(text: &[char], even_odd: bool, rs: &Ranges) -> (r: Vec<u64>)
    ensures
        r@ == field_numbers(text@, even_odd, holds_of(*rs)),
{
    let mut out: Vec<u64> = Vec::new();
    if digit_prefix(text) == 0 {
        return out;
    }
    let mut commas: Vec<char> = Vec::new();
    let mut i: usize = 0;
    while i < text.len()
        invariant
            i <= text@.len(),
            commas@ == semicolon_as_comma(text@).take(i as int),
        decreases text@.len() - i,
    {
        if text[i] == ';' {
            commas.push(',');
        } else {
            commas.push(text[i]);
        }
        i = i + 1;
        assert(commas@ =~= semicolon_as_comma(text@).take(i as int));
    }
    assert(commas@ =~= semicolon_as_comma(text@));
    let toks = split_chars(commas.as_slice(), ',');
    let ghost ts = split_on(semicolon_as_comma(text@), ',');
    let mut k: usize = 0;
    assert(ts.take(0) =~= Seq::<Seq<char>>::empty());
    while k < toks.len()
        invariant
            k <= toks@.len(),
            toks@.len() == ts.len(),
            forall|j: int| 0 <= j < toks@.len() ==> (#[trigger] toks@[j])@ == ts[j],
            out@ == tokens_numbers(ts.take(k as int), even_odd, holds_of(*rs)),
        decreases toks@.len() - k,
    {
        assert(ts.take(k + 1).drop_last() =~= ts.take(k as int));
        push_token_numbers(toks[k].as_slice(), even_odd, rs, &mut out);
        k = k + 1;
    }
    assert(ts.take(toks@.len() as int) =~= ts);
    out
}

fn key_list(list: &Vec<String>, letters: bool, style: LetterSuffixStyle) -> (r: Vec<Vec<char>>)
    ensures
        r@.len() == list@.len(),
        forall|i: int| 0 <= i < r@.len() ==> (#[trigger] r@[i])@ == comparison_key(list@[i]@, letters, style),
{
    let mut r: Vec<Vec<char>> = Vec::new();
    let mut i: usize = 0;
    while i < list.len()
        invariant
            i <= list@.len(),
            r@.len() == i,
            forall|j: int| 0 <= j < i ==> (#[trigger] r@[j])@ == comparison_key(list@[j]@, letters, style),
        decreases list@.len() - i,
    {
        let cs = chars_of(list[i].as_str());
        r.push(get_comparison_key(cs.as_slice(), letters, style));
        i = i + 1;
    }
    r
}

fn has_key(ks: &Vec<Vec<char>>, key: &[char]) -> (r: bool)
    ensures
        r == exists|i: int| 0 <= i < ks@.len() && (#[trigger] ks@[i])@ == key@,
{
    let mut i: usize = 0;
    while i < ks.len()
        invariant
            i <= ks@.len(),
            forall|j: int| 0 <= j < i ==> (#[trigger] ks@[j])@ != key@,
        decreases ks@.len() - i,
    {
        if chars_eq(ks[i].as_slice(), key) {
            return true;
        }
        i = i + 1;
    }
    false
}

pub open spec fn filter_model(f: Option<&crate::config::StreetFilter>) -> Option<FilterModel> {
    match f {
        Some(f) => Some(f@),
        None => None,
    }
}

/// Whether a number passes a list check: `list` absent, or `key` in it
/// exactly when `want` says so.
fn list_check(list: &Option<Vec<String>>, key: &[char], want: bool, letters: bool, style: LetterSuffixStyle) -> (r: bool)
    ensures
        r == match crate::config::opt_strs(*list) {
            Some(l) => keys(l, DictModel::with_letters(letters, style)).contains(key@) == want,
            None => true,
        },
{
    match list {
        Some(l) => {
            let ks = key_list(l, letters, style);
            let found = has_key(&ks, key);
            let ghost kl = keys(views(l@), DictModel::with_letters(letters, style));
            assert(kl.len() == ks@.len());
            assert forall|i: int| 0 <= i < ks@.len() implies kl[i] == (#[trigger] ks@[i])@ by {}
            if found {
                let ghost i = choose|i: int| 0 <= i < ks@.len() && (#[trigger] ks@[i])@ == key@;
                assert(kl[i] == key@);
            } else {
                proof {
                    if kl.contains(key@) {
                        let i = choose|i: int| 0 <= i < kl.len() && kl[i] == key@;
                        assert(ks@[i]@ == key@);
                    }
                }
            }
            found == want
        },
        None => true,
    }
}

/// Normalizes the raw house-number field `house_numbers` of the street
/// `street_name`: splits it at `;` and `,`, expands intervals `x-y`, keeps
/// the numbers that the street's ranges (`normalizers`, else 1 to 998) hold,
/// then applies the street's `invalid` and `valid` lists. Malformed parts
/// give no numbers; this never fails.
pub fn normalize(
    relation: &Relation,
    house_numbers: &str,
    street_name: &str,
    street_is_even_odd: bool,
    normalizers: &Vec<(String, Ranges)>,
) -> (r: Result<Vec<HouseNumber>, crate::relation::RelationError>)
    ensures
        r is Ok,
        ({
            let v = r->Ok_0;
            let want = normalized(
                relation.config.model(),
                house_numbers@,
                street_name@,
                street_is_even_odd,
                street_holds(normalizers@, street_name@),
            );
            &&& v@.len() == want.len()
            &&& forall|i: int|
                0 <= i < v@.len() ==> {
                    &&& (#[trigger] v@[i]).number@ == want[i].0
                    &&& v@[i].source@ == want[i].1
                    &&& v@[i].comment@ == field_comment(house_numbers@)
                }
        }),
{
    proof {
        reveal(normalized);
    }
    let cfg = relation.get_config();
    let ghost model = cfg.model();
    let parts = split_str(house_numbers, '\t');
    proof {
        crate::text::lemma_split_nonempty(house_numbers@, '\t');
    }
    let text = chars_of(parts[0].as_str());
    let comment = if parts.len() > 1 {
        parts[1].clone()
    } else {
        String::new()
    };
    let rs = find_street_ranges(normalizers, street_name);
    let ghost holds = street_holds(normalizers@, street_name@);
    assert(holds_of(rs) =~= holds);
    let nums = field_number_values(text.as_slice(), street_is_even_odd, &rs);
    let letters = cfg.should_check_housenumber_letters();
    let style = cfg.get_letter_suffix_style();
    let letter = letters && nums.len() == 1 && has_letter_suffix(text.as_slice());
    assert(letter == letter_case(model, text@, street_is_even_odd, holds));
    let mut cands: Vec<Vec<char>> = Vec::new();
    if letter {
        cands.push(normalize_letter_suffix(text.as_slice(), style));
        assert(views_of(cands@) =~= candidate_numbers(model, text@, street_is_even_odd, holds));
    } else {
        let star = text.len() > 0 && text[text.len() - 1] == '*';
        let ghost want = candidate_numbers(model, text@, street_is_even_odd, holds);
        let mut i: usize = 0;
        while i < nums.len()
            invariant
                i <= nums@.len(),
                !letter_case(model, text@, street_is_even_odd, holds),
                want == candidate_numbers(model, text@, street_is_even_odd, holds),
                nums@ == field_numbers(text@, street_is_even_odd, holds),
                star == (text@.len() > 0 && text@.last() == '*'),
                views_of(cands@) == want.take(i as int),
            decreases nums@.len() - i,
        {
            let mut c = decimal_chars(nums[i] as u128);
            if star {
                c.push('*');
            }
            assert(c@ == number_text(nums@[i as int], text@));
            assert(want[i as int] == number_text(nums@[i as int], text@));
            let ghost before = cands@;
            cands.push(c);
            assert(views_of(cands@) =~= views_of(before).push(c@));
            i = i + 1;
            assert(views_of(cands@) =~= want.take(i as int));
        }
        assert(want.take(nums@.len() as int) =~= want);
    }
    let f = cfg.get_street_filter(street_name);
    let ghost fm = model.street_filter(street_name@);
    assert(filter_model(f) == fm);
    let mut out: Vec<HouseNumber> = Vec::new();
    let ghost cs = views_of(cands@);
    let ghost want = normalized(model, house_numbers@, street_name@, street_is_even_odd, holds);
    let ghost ks = kept(cs, fm, model);
    let mut i: usize = 0;
    while i < cands.len()
        invariant
            i <= cands@.len(),
            cs == views_of(cands@),
            cs == candidate_numbers(model, text@, street_is_even_odd, holds),
            text@ == field_text(house_numbers@),
            comment@ == field_comment(house_numbers@),
            filter_model(f) == fm,
            fm == model.street_filter(street_name@),
            letters == model.letters(),
            style == model.style(),
            letter == letter_case(model, text@, street_is_even_odd, holds),
            out@.len() == kept(cs.take(i as int), fm, model).len(),
            forall|j: int|
                0 <= j < out@.len() ==> {
                    &&& (#[trigger] out@[j]).number@ == kept(cs.take(i as int), fm, model)[j]
                    &&& out@[j].source@ == if letter {
                        kept(cs.take(i as int), fm, model)[j]
                    } else {
                        text@
                    }
                    &&& out@[j].comment@ == comment@
                },
        decreases cands@.len() - i,
    {
        assert(cs.take(i + 1).drop_last() =~= cs.take(i as int));
        let key = get_comparison_key(cands[i].as_slice(), letters, style);
        let ok = match f {
            Some(sf) => {
                let a = list_check(&sf.filter.invalid, key.as_slice(), false, letters, style);
                let b = list_check(&sf.filter.valid, key.as_slice(), true, letters, style);
                a && b
            },
            None => true,
        };
        assert(DictModel::with_letters(letters, style).letters() == model.letters());
        assert(ok == passes(cs[i as int], fm, model)) by {
            lemma_keys_by_letters(model, letters, style);
        }
        if ok {
            let number = string_of(cands[i].as_slice());
            let source = if letter {
                string_of(cands[i].as_slice())
            } else {
                string_of(text.as_slice())
            };
            out.push(HouseNumber { number, source, comment: comment.clone() });
        }
        i = i + 1;
    }
    assert(cs.take(cands@.len() as int) =~= cs);
    Ok(out)
}

pub open spec fn views_of(v: Seq<Vec<char>>) -> Seq<Seq<char>> {
    v.map_values(|c: Vec<char>| c@)
}

proof fn lemma_keys_by_letters(model: DictModel, letters: bool, style: LetterSuffixStyle)
    requires
        letters == model.letters(),
        style == model.style(),
    ensures
        forall|l: Seq<Seq<char>>| #[trigger] keys(l, DictModel::with_letters(letters, style)) == keys(l, model),
{
    assert forall|l: Seq<Seq<char>>| #[trigger] keys(l, DictModel::with_letters(letters, style)) == keys(l, model) by {
        assert(keys(l, DictModel::with_letters(letters, style)) =~= keys(l, model));
    }
}

/// The ranges of `street`, or 1 to 998 where none are configured.
fn find_street_ranges(normalizers: &Vec<(String, Ranges)>, street: &str) -> (r: Ranges)
    ensures
        forall|n: u64| r.spec_contains(n) == street_holds(normalizers@, street@)(n),
{
    let mut i: usize = 0;
    assert(normalizers@.skip(0) =~= normalizers@);
    while i < normalizers.len()
        invariant
            i <= normalizers@.len(),
            find_ranges(normalizers@, street@) == find_ranges(normalizers@.skip(i as int), street@),
        decreases normalizers@.len() - i,
    {
        assert(normalizers@.skip(i as int).drop_first() =~= normalizers@.skip(i + 1));
        assert(normalizers@.skip(i as int)[0] == normalizers@[i as int]);
        if crate::text::str_eq(normalizers[i].0.as_str(), street) {
            return normalizers[i].1.clone_ranges();
        }
        i = i + 1;
    }
    let mut items: Vec<Range> = Vec::new();
    proof {
        reveal_strlit("");
    }
    items.push(Range::new(1, DEFAULT_MAX, ""));
    let r = Ranges::new(items);
    assert forall|n: u64| r.spec_contains(n) == street_holds(normalizers@, street@)(n) by {
        if 1 <= n <= DEFAULT_MAX {
            assert(r.items@[0].spec_contains(n));
        }
    }
    r
}

pub open spec fn sep_char(c: char) -> char {
    if c == ';' {
        ','
    } else {
        c
    }
}

proof fn lemma_commas_drop_last(s: Seq<char>)
    requires
        s.len() > 0,
    ensures
        semicolon_as_comma(s).drop_last() == semicolon_as_comma(s.drop_last()),
        semicolon_as_comma(s).last() == sep_char(s.last()),
        semicolon_as_comma(s).len() == s.len(),
{
    assert(semicolon_as_comma(s).drop_last() =~= semicolon_as_comma(s.drop_last()));
}

/// Cutting at tabs and writing `;` as `,` can be done in either order.
proof fn lemma_split_tab_commas(s: Seq<char>)
    ensures
        split_on(semicolon_as_comma(s), '\t') == split_on(s, '\t').map_values(|p: Seq<char>| semicolon_as_comma(p)),
    decreases s.len(),
{
    let m = semicolon_as_comma(s);
    if s.len() == 0 {
        assert(m =~= Seq::<char>::empty());
        assert(split_on(m, '\t') =~= split_on(s, '\t').map_values(|p: Seq<char>| semicolon_as_comma(p))) by {
            assert(semicolon_as_comma(Seq::<char>::empty()) =~= Seq::<char>::empty());
        }
    } else {
        lemma_commas_drop_last(s);
        lemma_split_tab_commas(s.drop_last());
        crate::text::lemma_split_nonempty(s.drop_last(), '\t');
        let parts = split_on(s.drop_last(), '\t');
        let mparts = parts.map_values(|p: Seq<char>| semicolon_as_comma(p));
        if s.last() == '\t' {
            assert(semicolon_as_comma(Seq::<char>::empty()) =~= Seq::<char>::empty());
            assert(split_on(m, '\t') =~= split_on(s, '\t').map_values(|p: Seq<char>| semicolon_as_comma(p)));
        } else {
            let lastp = parts.last();
            assert(semicolon_as_comma(lastp.push(s.last())) =~= semicolon_as_comma(lastp).push(sep_char(s.last())));
            assert(split_on(m, '\t') =~= split_on(s, '\t').map_values(|p: Seq<char>| semicolon_as_comma(p)));
        }
    }
}

proof fn lemma_prefix_commas(s: Seq<char>)
    ensures
        digit_prefix_len(semicolon_as_comma(s)) == digit_prefix_len(s),
    decreases s.len(),
{
    if s.len() > 0 {
        assert(semicolon_as_comma(s).drop_first() =~= semicolon_as_comma(s.drop_first()));
        lemma_prefix_commas(s.drop_first());
    }
}

proof fn lemma_prefix_digits(s: Seq<char>, j: int)
    requires
        0 <= j < digit_prefix_len(s),
    ensures
        j < s.len(),
        crate::text::is_digit(s[j]),
    decreases j,
{
    assert(s.len() > 0 && crate::text::is_digit(s[0]));
    if j > 0 {
        lemma_prefix_digits(s.drop_first(), j - 1);
        assert(s.drop_first()[j - 1] == s[j]);
    }
}

/// A number with a letter suffix has neither `;` nor `,` in it.
proof fn lemma_letter_form_no_separator(t: Seq<char>)
    requires
        has_letter_suffix_form(t),
    ensures
        !t.contains(';'),
        !t.contains(','),
{
    let n = digit_prefix_len(t) as int;
    assert forall|j: int| 0 <= j < t.len() implies t[j] != ';' && t[j] != ',' by {
        if j < n {
            lemma_prefix_digits(t, j);
        }
    }
}

/// `;` and `,` separate house numbers alike: a field and the same field with
/// each `;` written as `,` normalize to the same numbers.
pub proof fn lemma_separators_interchangeable(
    cfg: DictModel,
    raw: Seq<char>,
    street: Seq<char>,
    even_odd: bool,
    holds: spec_fn(u64) -> bool,
)
    ensures
        normalized(cfg, semicolon_as_comma(raw), street, even_odd, holds).map_values(|p: (Seq<char>, Seq<char>)| p.0)
            == normalized(cfg, raw, street, even_odd, holds).map_values(|p: (Seq<char>, Seq<char>)| p.0),
{
    reveal(normalized);
    lemma_split_tab_commas(raw);
    crate::text::lemma_split_nonempty(raw, '\t');
    let t = field_text(raw);
    let mt = semicolon_as_comma(t);
    assert(field_text(semicolon_as_comma(raw)) == mt);
    lemma_prefix_commas(t);
    assert(semicolon_as_comma(mt) =~= semicolon_as_comma(t));
    assert(field_numbers(mt, even_odd, holds) == field_numbers(t, even_odd, holds));
    assert(star_suffix(mt) == star_suffix(t)) by {
        if t.len() > 0 {
            lemma_commas_drop_last(t);
        }
    }
    if t.contains(';') {
        let k = choose|k: int| 0 <= k < t.len() && t[k] == ';';
        assert(mt[k] == ',');
        if has_letter_suffix_form(without_star(t)) {
            lemma_letter_form_no_separator(without_star(t));
            if t.len() > 0 && t.last() == '*' {
                assert(without_star(t)[k] == ';');
            }
        }
        if has_letter_suffix_form(without_star(mt)) {
            lemma_letter_form_no_separator(without_star(mt));
            if mt.len() > 0 && mt.last() == '*' {
                assert(without_star(mt)[k] == ',');
            }
        }
        assert(!letter_case(cfg, mt, even_odd, holds) && !letter_case(cfg, t, even_odd, holds));
        assert(candidate_numbers(cfg, mt, even_odd, holds) =~= candidate_numbers(cfg, t, even_odd, holds));
    } else {
        assert(mt =~= t);
    }
    let a = normalized(cfg, semicolon_as_comma(raw), street, even_odd, holds).map_values(|p: (Seq<char>, Seq<char>)| p.0);
    let b = normalized(cfg, raw, street, even_odd, holds).map_values(|p: (Seq<char>, Seq<char>)| p.0);
    assert(a =~= b);
}

proof fn lemma_decimal_digits(n: nat)
    ensures
        decimal(n).len() > 0,
        forall|j: int| 0 <= j < decimal(n).len() ==> crate::text::is_digit(#[trigger] decimal(n)[j]),
        crate::text::digits_value(decimal(n)) == n,
    decreases n,
{
    if n >= 10 {
        lemma_decimal_digits(n / 10);
        let d = decimal(n);
        assert(d.drop_last() =~= decimal(n / 10));
        assert(d.last() == crate::text::digit_char(n % 10));
        assert(crate::text::is_digit(crate::text::digit_char(n % 10)));
        assert forall|j: int| 0 <= j < d.len() implies crate::text::is_digit(#[trigger] d[j]) by {
            if j < d.len() - 1 {
                assert(d[j] == decimal(n / 10)[j]);
            }
        }
        assert(crate::text::digit_value(crate::text::digit_char(n % 10)) == n % 10);
        assert(crate::text::digits_value(d) == crate::text::digits_value(d.drop_last()) * 10 + crate::text::digit_value(d.last()));
        assert(n == (n / 10) * 10 + n % 10) by (nonlinear_arith)
            requires
                n >= 10,
        ;
    } else {
        assert(crate::text::digit_value(crate::text::digit_char(n)) == n);
        assert(decimal(n).drop_last() =~= Seq::<char>::empty());
        assert(decimal(n).last() == crate::text::digit_char(n));
        assert(crate::text::digits_value(decimal(n).drop_last()) == 0);
    }
}

proof fn lemma_all_digits_prefix(s: Seq<char>)
    requires
        forall|j: int| 0 <= j < s.len() ==> crate::text::is_digit(#[trigger] s[j]),
    ensures
        digit_prefix_len(s) == s.len(),
    decreases s.len(),
{
    if s.len() > 0 {
        assert forall|j: int| 0 <= j < s.drop_first().len() implies crate::text::is_digit(#[trigger] s.drop_first()[j]) by {
            assert(s.drop_first()[j] == s[j + 1]);
        }
        lemma_all_digits_prefix(s.drop_first());
    }
}

/// A text without `c` is not cut at `c`.
proof fn lemma_split_none(s: Seq<char>, c: char)
    requires
        !s.contains(c),
    ensures
        split_on(s, c) == seq![s],
    decreases s.len(),
{
    if s.len() > 0 {
        assert(!s.drop_last().contains(c)) by {
            if s.drop_last().contains(c) {
                let k = choose|k: int| 0 <= k < s.drop_last().len() && s.drop_last()[k] == c;
                assert(s[k] == c);
            }
        }
        lemma_split_none(s.drop_last(), c);
        assert(s.last() != c) by {
            assert(s[s.len() - 1] == s.last());
        }
        assert(split_on(s, c) =~= seq![s]) by {
            assert(s.drop_last().push(s.last()) =~= s);
        }
    } else {
        assert(s =~= Seq::<char>::empty());
        assert(split_on(s, c) =~= seq![s]);
    }
}

/// Normalizing a number that normalization writes gives it back: a plain
/// number that the street's ranges hold and its lists let pass normalizes
/// to itself, with itself as source.
pub proof fn lemma_normalize_idempotent(
    cfg: DictModel,
    n: u64,
    street: Seq<char>,
    even_odd: bool,
    holds: spec_fn(u64) -> bool,
)
    requires
        holds(n),
        passes(decimal(n as nat), cfg.street_filter(street), cfg),
    ensures
        normalized(cfg, decimal(n as nat), street, even_odd, holds) == seq![(decimal(n as nat), decimal(n as nat))],
{
    reveal(normalized);
    let d = decimal(n as nat);
    lemma_decimal_digits(n as nat);
    lemma_all_digits_prefix(d);
    assert(!d.contains('\t') && !d.contains(',') && !d.contains('-') && !d.contains(';')) by {
        if d.contains('\t') || d.contains(',') || d.contains('-') || d.contains(';') {
            let k = choose|k: int| 0 <= k < d.len() && (d[k] == '\t' || d[k] == ',' || d[k] == '-' || d[k] == ';');
            assert(crate::text::is_digit(d[k]));
        }
    }
    lemma_split_none(d, '\t');
    assert(field_text(d) == d);
    assert(semicolon_as_comma(d) =~= d) by {
        assert forall|k: int| 0 <= k < d.len() implies semicolon_as_comma(d)[k] == d[k] by {
            assert(d[k] != ';');
        }
    }
    lemma_split_none(d, ',');
    lemma_split_none(d, '-');
    assert(d.take(d.len() as int) =~= d);
    assert(crate::text::leading_u64(d) == Some(n));
    assert(token_numbers(d, even_odd, holds) == seq![n]);
    let toks = split_on(semicolon_as_comma(d), ',');
    assert(toks == seq![d]);
    assert(toks.drop_last() =~= Seq::<Seq<char>>::empty());
    assert(toks.last() == d);
    assert(tokens_numbers(toks.drop_last(), even_odd, holds) =~= Seq::<u64>::empty());
    assert(tokens_numbers(toks, even_odd, holds) =~= seq![n]);
    assert(field_numbers(d, even_odd, holds) == seq![n]);
    assert(!has_letter_suffix_form(without_star(d))) by {
        assert(d.last() != '*') by {
            assert(crate::text::is_digit(d[d.len() - 1]));
        }
        assert(without_star(d) == d);
        assert(crate::text::is_digit(d[d.len() - 1]));
    }
    assert(star_suffix(d) =~= Seq::<char>::empty()) by {
        assert(crate::text::is_digit(d[d.len() - 1]));
    }
    assert(number_text(n, d) =~= d);
    let cands = candidate_numbers(cfg, d, even_odd, holds);
    assert(cands =~= seq![d]);
    assert(cands.drop_last() =~= Seq::<Seq<char>>::empty());
    assert(cands.last() == d);
    assert(kept(cands.drop_last(), cfg.street_filter(street), cfg) =~= Seq::<Seq<char>>::empty());
    assert(kept(cands, cfg.street_filter(street), cfg) =~= seq![d]);
    assert(normalized(cfg, d, street, even_odd, holds) =~= seq![(d, d)]);
}

} // verus!
