//! House numbers, streets, and the letter-suffix forms of house numbers.

use vstd::prelude::*;
use crate::text::{digit_prefix, digit_prefix_len};

verus! {

/// One normalized house number. `number` is the normalized form, `source`
/// the raw field it came from, `comment` an annotation that equality ignores.
#[derive(Debug)]
pub struct HouseNumber {
    pub number: String,
    pub source: String,
    pub comment: String,
}

impl HouseNumber {
    pub fn new(number: &str, source: &str, comment: &str) -> (r: HouseNumber)
        ensures
            r.number@ == number@,
            r.source@ == source@,
            r.comment@ == comment@,
    {
        HouseNumber {
            number: number.to_owned(),
            source: source.to_owned(),
            comment: comment.to_owned(),
        }
    }

    pub fn get_number(&self) -> (r: &String)
        ensures
            r@ == self.number@,
    {
        &self.number
    }

    pub fn get_source(&self) -> (r: &String)
        ensures
            r@ == self.source@,
    {
        &self.source
    }

    pub fn get_comment(&self) -> (r: &String)
        ensures
            r@ == self.comment@,
    {
        &self.comment
    }

    /// A copy with the same number, source and comment.
    pub fn duplicate(&self) -> (r: HouseNumber)
        ensures
            r.number@ == self.number@,
            r.source@ == self.source@,
            r.comment@ == self.comment@,
    {
        HouseNumber {
            number: self.number.clone(),
            source: self.source.clone(),
            comment: self.comment.clone(),
        }
    }
}

impl PartialEq for HouseNumber {
    fn eq(&self, o: &HouseNumber) -> (r: bool) {
        self.number == o.number && self.source == o.source
    }
}

impl vstd::std_specs::cmp::PartialEqSpecImpl for HouseNumber {
    open spec fn obeys_eq_spec() -> bool {
        true
    }

    open spec fn eq_spec(&self, o: &HouseNumber) -> bool {
        self.number@ == o.number@ && self.source@ == o.source@
    }
}

/// Where the name of a street was seen.
#[derive(Debug, Clone, Copy, PartialEq, Eq, Structural)]
pub enum OsmType {
    /// A way: the street itself.
    Way,
    /// A node: a house number that names the street.
    Node,
}

impl OsmType {
    /// The name of the kind, as the map data writes it.
    pub fn name(&self) -> (r: String)
        ensures
            r@ == osm_type_name(*self),
    {
        match self {
            OsmType::Way => "way".to_owned(),
            OsmType::Node => "node".to_owned(),
        }
    }
}

pub open spec fn osm_type_name(t: OsmType) -> Seq<char> {
    match t {
        OsmType::Way => "way"@,
        OsmType::Node => "node"@,
    }
}

/// A street: its name in the map data, its name in the reference, whether the
/// reference name is worth showing, and where the map data has it from.
#[derive(Debug)]
pub struct Street {
    pub osm_name: String,
    pub ref_name: String,
    pub show_ref_street: bool,
    pub osm_type: OsmType,
    pub osm_id: u64,
}

impl Street {
    pub fn new(osm_name: &str, ref_name: &str, show_ref_street: bool, osm_id: u64) -> (r: Street)
        ensures
            r.osm_name@ == osm_name@,
            r.ref_name@ == ref_name@,
            r.show_ref_street == show_ref_street,
            r.osm_id == osm_id,
            r.osm_type == OsmType::Way,
    {
        Street {
            osm_name: osm_name.to_owned(),
            ref_name: ref_name.to_owned(),
            show_ref_street,
            osm_type: OsmType::Way,
            osm_id,
        }
    }

    /// A street known by one name only.
    pub fn from_string(name: &str) -> (r: Street)
        ensures
            r.osm_name@ == name@,
            r.ref_name@ == name@,
            r.show_ref_street,
            r.osm_id == 0,
            r.osm_type == OsmType::Way,
    {
        Street::new(name, name, true, 0)
    }

    pub fn get_osm_name(&self) -> (r: &String)
        ensures
            r@ == self.osm_name@,
    {
        &self.osm_name
    }

    pub fn get_ref_name(&self) -> (r: &String)
        ensures
            r@ == self.ref_name@,
    {
        &self.ref_name
    }

    pub fn get_show_ref_street(&self) -> (r: bool)
        ensures
            r == self.show_ref_street,
    {
        self.show_ref_street
    }

    pub fn get_osm_id(&self) -> (r: u64)
        ensures
            r == self.osm_id,
    {
        self.osm_id
    }

    pub fn get_osm_type(&self) -> (r: OsmType)
        ensures
            r == self.osm_type,
    {
        self.osm_type
    }

    pub fn set_osm_type(&mut self, osm_type: OsmType)
        ensures
            final(self).osm_type == osm_type,
            final(self).osm_name@ == old(self).osm_name@,
            final(self).ref_name@ == old(self).ref_name@,
            final(self).show_ref_street == old(self).show_ref_street,
            final(self).osm_id == old(self).osm_id,
    {
        self.osm_type = osm_type;
    }

    /// A copy with the same fields.
    pub fn duplicate(&self) -> (r: Street)
        ensures
            r.osm_name@ == self.osm_name@,
            r.ref_name@ == self.ref_name@,
            r.show_ref_street == self.show_ref_street,
            r.osm_type == self.osm_type,
            r.osm_id == self.osm_id,
    {
        Street {
            osm_name: self.osm_name.clone(),
            ref_name: self.ref_name.clone(),
            show_ref_street: self.show_ref_street,
            osm_type: self.osm_type,
            osm_id: self.osm_id,
        }
    }
}

impl PartialEq for Street {
    fn eq(&self, o: &Street) -> (r: bool) {
        self.osm_name == o.osm_name
    }
}

impl vstd::std_specs::cmp::PartialEqSpecImpl for Street {
    open spec fn obeys_eq_spec() -> bool {
        true
    }

    open spec fn eq_spec(&self, o: &Street) -> bool {
        self.osm_name@ == o.osm_name@
    }
}

/// Streets are ordered by their names in the map data.
pub open spec fn street_cmp(a: &Street, b: &Street) -> core::cmp::Ordering {
    if crate::order::seq_lt(a.osm_name@, b.osm_name@) {
        core::cmp::Ordering::Less
    } else if a.osm_name@ == b.osm_name@ {
        core::cmp::Ordering::Equal
    } else {
        core::cmp::Ordering::Greater
    }
}

impl PartialOrd for Street {
    fn partial_cmp(&self, o: &Street) -> (r: Option<core::cmp::Ordering>) {
        if crate::order::str_lt(self.osm_name.as_str(), o.osm_name.as_str()) {
            Some(core::cmp::Ordering::Less)
        } else if self.osm_name == o.osm_name {
            Some(core::cmp::Ordering::Equal)
        } else {
            Some(core::cmp::Ordering::Greater)
        }
    }
}

impl vstd::std_specs::cmp::PartialOrdSpecImpl for Street {
    open spec fn obeys_partial_cmp_spec() -> bool {
        true
    }

    open spec fn partial_cmp_spec(&self, o: &Street) -> Option<core::cmp::Ordering> {
        Some(street_cmp(self, o))
    }
}

/// The case in which the letter of a house number such as `42/A` is written.
#[derive(Debug, Clone, Copy, PartialEq, Eq, Structural)]
pub enum LetterSuffixStyle {
    Upper,
    Lower,
}

pub open spec fn is_upper(c: char) -> bool {
    'A' <= c && c <= 'Z'
}

pub open spec fn is_lower(c: char) -> bool {
    'a' <= c && c <= 'z'
}

pub open spec fn is_letter(c: char) -> bool {
    is_upper(c) || is_lower(c)
}

/// `s` without a trailing `*`.
pub open spec fn without_star(s: Seq<char>) -> Seq<char> {
    if s.len() > 0 && s.last() == '*' {
        s.drop_last()
    } else {
        s
    }
}

/// Digits followed by one letter, with an optional space or `/` between them:
/// `42a`, `42 a`, `42/a`.
pub open spec fn has_letter_suffix_form(s: Seq<char>) -> bool {
    let n = digit_prefix_len(s) as int;
    &&& n > 0
    &&& is_letter(s.last())
    &&& (s.len() == n + 1 || (s.len() == n + 2 && (s[n] == ' ' || s[n] == '/')))
}

pub open spec fn letter_in_style(c: char, style: LetterSuffixStyle) -> char {
    match style {
        LetterSuffixStyle::Upper => if is_lower(c) {
            ((c as u32) - 32) as char
        } else {
            c
        },
        LetterSuffixStyle::Lower => if is_upper(c) {
            ((c as u32) + 32) as char
        } else {
            c
        },
    }
}

/// `42a`, `42 a` and `42/a` all become `42/A` (or `42/a`, by the style).
pub open spec fn letter_suffix_normal_form(s: Seq<char>, style: LetterSuffixStyle) -> Seq<char> {
    s.take(digit_prefix_len(s) as int) + seq!['/', letter_in_style(s.last(), style)]
}

/// What house numbers are compared by against `invalid` and `valid` lists:
/// the leading digits, or with letters switched on, the letter-suffix normal
/// form where the number has one.
pub open spec fn comparison_key(s: Seq<char>, letters: bool, style: LetterSuffixStyle) -> Seq<char> {
    let t = without_star(s);
    if letters && has_letter_suffix_form(t) {
        letter_suffix_normal_form(t, style)
    } else {
        t.take(digit_prefix_len(t) as int)
    }
}

fn is_letter_char(c: char) -> (r: bool)
    ensures
        r == is_letter(c),
{
    ('a' <= c && c <= 'z') || ('A' <= c && c <= 'Z')
}

fn style_letter(c: char, style: LetterSuffixStyle) -> (r: char)
    ensures
        r == letter_in_style(c, style),
{
    match style {
        LetterSuffixStyle::Upper => if 'a' <= c && c <= 'z' {
            ((c as u8) - 32) as char
        } else {
            c
        },
        LetterSuffixStyle::Lower => if 'A' <= c && c <= 'Z' {
            ((c as u8) + 32) as char
        } else {
            c
        },
    }
}

/// `s` without a trailing `*`.
pub fn strip_star(s: &[char]) -> (r: Vec<char>)
    ensures
        r@ == without_star(s@),
{
    let mut r: Vec<char> = Vec::new();
    let n: usize = if s.len() > 0 && s[s.len() - 1] == '*' {
        s.len() - 1
    } else {
        s.len()
    };
    let mut i: usize = 0;
    while i < n
        invariant
            n <= s@.len(),
            i <= n,
            r@ == s@.take(i as int),
        decreases n - i,
    {
        r.push(s[i]);
        i = i + 1;
        assert(r@ =~= s@.take(i as int));
    }
    assert(r@ =~= without_star(s@));
    r
}

/// Whether `s` (without a trailing `*`) is digits followed by one letter.
pub fn has_letter_suffix(s: &[char]) -> (r: bool)
    ensures
        r == has_letter_suffix_form(without_star(s@)),
{
    let t = strip_star(s);
    let n = digit_prefix(t.as_slice());
    if n == 0 || t.len() == 0 {
        return false;
    }
    let last = t[t.len() - 1];
    if !is_letter_char(last) {
        return false;
    }
    if t.len() == n + 1 {
        return true;
    }
    t.len() == n + 2 && (t[n] == ' ' || t[n] == '/')
}

/// The letter-suffix normal form of `s` (without a trailing `*`).
pub fn normalize_letter_suffix(s: &[char], style: LetterSuffixStyle) -> (r: Vec<char>)
    requires
        has_letter_suffix_form(without_star(s@)),
    ensures
        r@ == letter_suffix_normal_form(without_star(s@), style),
{
    let t = strip_star(s);
    let n = digit_prefix(t.as_slice());
    let mut r: Vec<char> = Vec::new();
    let mut i: usize = 0;
    while i < n
        invariant
            n <= t@.len(),
            i <= n,
            r@ == t@.take(i as int),
        decreases n - i,
    {
        r.push(t[i]);
        i = i + 1;
        assert(r@ =~= t@.take(i as int));
    }
    r.push('/');
    r.push(style_letter(t[t.len() - 1], style));
    assert(r@ =~= letter_suffix_normal_form(t@, style));
    r
}

/// The key by which `s` is compared against `invalid` and `valid` lists.
pub fn get_comparison_key(s: &[char], letters: bool, style: LetterSuffixStyle) -> (r: Vec<char>)
    ensures
        r@ == comparison_key(s@, letters, style),
{
    if letters && has_letter_suffix(s) {
        return normalize_letter_suffix(s, style);
    }
    let t = strip_star(s);
    let n = digit_prefix(t.as_slice());
    let mut r: Vec<char> = Vec::new();
    let mut i: usize = 0;
    while i < n
        invariant
            n <= t@.len(),
            i <= n,
            r@ == t@.take(i as int),
        decreases n - i,
    {
        r.push(t[i]);
        i = i + 1;
        assert(r@ =~= t@.take(i as int));
    }
    r
}

} // verus!
