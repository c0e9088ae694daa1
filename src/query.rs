//! The queries that fetch a relation's streets and house numbers from the
//! map query service.

use vstd::prelude::*;
use crate::relation::Relation;
use crate::text::{decimal, decimal_chars, split_on, split_str, str_eq, string_of, views};

verus! {

/// The query service gives up on a query after this many seconds.
pub const QUERY_TIMEOUT: u64 = 425;

/// Relation `n` has the area id `AREA_OFFSET + n`.
pub const AREA_OFFSET: u64 = 3600000000;

/// What a placeholder `@name@` of a query template stands for.
pub open spec fn placeholder(name: Seq<char>, id: u64) -> Seq<char> {
    if name == "RELATION"@ {
        decimal(id as nat)
    } else if name == "AREA"@ {
        decimal((AREA_OFFSET + id) as nat)
    } else if name == "TIMEOUT"@ {
        decimal(QUERY_TIMEOUT as nat)
    } else {
        seq!['@'] + name + seq!['@']
    }
}

/// The template cut at `@`, with each `@name@` filled in: a part at an odd
/// position is a name, except the last one where no `@` closes it.
pub open spec fn filled(parts: Seq<Seq<char>>, total: nat, id: u64) -> Seq<char>
    decreases parts.len(),
{
    if parts.len() == 0 {
        Seq::empty()
    } else {
        let k = parts.len() - 1;
        let prev = filled(parts.drop_last(), total, id);
        if k % 2 == 0 {
            prev + parts[k]
        } else if k == total - 1 {
            prev + seq!['@'] + parts[k]
        } else {
            prev + placeholder(parts[k], id)
        }
    }
}

pub open spec fn fill_template(template: Seq<char>, id: u64) -> Seq<char> {
    filled(split_on(template, '@'), split_on(template, '@').len(), id)
}

fn append_chars(out: &mut Vec<char>, s: &[char])
    ensures
        final(out)@ == old(out)@ + s@,
{
    let ghost start = out@;
    let mut i: usize = 0;
    while i < s.len()
        invariant
            i <= s@.len(),
            out@ == start + s@.take(i as int),
        decreases s@.len() - i,
    {
        out.push(s[i]);
        i = i + 1;
        assert(out@ =~= start + s@.take(i as int));
    }
    assert(s@.take(s@.len() as int) =~= s@);
}

fn append_text(out: &mut Vec<char>, s: &str)
    ensures
        final(out)@ == old(out)@ + s@,
{
    let cs = crate::text::chars_of(s);
    append_chars(out, cs.as_slice());
}

fn placeholder_chars(name: &str, id: u64) -> (r: Vec<char>)
    ensures
        r@ == placeholder(name@, id),
{
    if str_eq(name, "RELATION") {
        decimal_chars(id as u128)
    } else if str_eq(name, "AREA") {
        decimal_chars(AREA_OFFSET as u128 + id as u128)
    } else if str_eq(name, "TIMEOUT") {
        decimal_chars(QUERY_TIMEOUT as u128)
    } else {
        let mut r: Vec<char> = Vec::new();
        r.push('@');
        append_text(&mut r, name);
        r.push('@');
        assert(r@ =~= seq!['@'] + name@ + seq!['@']);
        r
    }
}

/// `template` with `@RELATION@`, `@AREA@` and `@TIMEOUT@` filled in for
/// the relation `id`.
pub fn fill_query_template(template: &str, id: u64) -> (r: String)
    ensures
        r@ == fill_template(template@, id),
{
    let parts = split_str(template, '@');
    let ghost ps = split_on(template@, '@');
    let mut out: Vec<char> = Vec::new();
    let mut k: usize = 0;
    assert(ps.take(0) =~= Seq::<Seq<char>>::empty());
    while k < parts.len()
        invariant
            k <= parts@.len(),
            parts@.len() == ps.len(),
            forall|j: int| 0 <= j < parts@.len() ==> (#[trigger] parts@[j])@ == ps[j],
            out@ == filled(ps.take(k as int), ps.len(), id),
        decreases parts@.len() - k,
    {
        assert(ps.take(k + 1).drop_last() =~= ps.take(k as int));
        assert(ps.take(k + 1)[k as int] == ps[k as int]);
        if k % 2 == 0 {
            append_text(&mut out, parts[k].as_str());
        } else if k == parts.len() - 1 {
            out.push('@');
            append_text(&mut out, parts[k].as_str());
        } else {
            let v = placeholder_chars(parts[k].as_str(), id);
            append_chars(&mut out, v.as_slice());
        }
        k = k + 1;
    }
    assert(ps.take(ps.len() as int) =~= ps);
    string_of(out.as_slice())
}

impl Relation {
    /// The query for the relation's streets, from its template.
    pub fn get_osm_streets_query(&self, template: &str) -> (r: String)
        ensures
            r@ == fill_template(template@, self.config.model().osmrelation.unwrap_or(0)),
    {
        fill_query_template(template, self.config.get_osmrelation())
    }

    /// The query for the relation's house numbers, from its template.
    pub fn get_osm_housenumbers_query(&self, template: &str) -> (r: String)
        ensures
            r@ == fill_template(template@, self.config.model().osmrelation.unwrap_or(0)),
    {
        fill_query_template(template, self.config.get_osmrelation())
    }
}

/// The lines of the streets query that ask for the street `name`.
pub open spec fn street_lines(name: Seq<char>) -> Seq<char> {
    "way[\"name\"=\""@ + name + "\"](r.searchRelation);\nway[\"name\"=\""@ + name + "\"](area.searchArea);\n"@
}

pub open spec fn all_street_lines(names: Seq<Seq<char>>) -> Seq<char>
    decreases names.len(),
{
    if names.len() == 0 {
        Seq::empty()
    } else {
        all_street_lines(names.drop_last()) + street_lines(names.last())
    }
}

/// The query that shows the streets `names` of relation `id` on a map.
pub open spec fn turbo_query(id: u64, names: Seq<Seq<char>>) -> Seq<char> {
    "[out:json][timeout:425];\nrel("@ + decimal(id as nat) + ")->.searchRelation;\narea("@
        + decimal((AREA_OFFSET + id) as nat) + ")->.searchArea;\n(rel("@ + decimal(id as nat) + ");\n"@
        + all_street_lines(names)
        + ");\nout body;\n>;\nout skel qt;\n{{style:\nrelation{width:3}\nway{color:blue; width:4;}\n}}"@
}

/// A query for the query service's map view that shows the streets
/// `streets` of `relation`.
pub fn make_turbo_query_for_streets(relation: &Relation, streets: &Vec<String>) -> (r: String)
    ensures
        r@ == turbo_query(relation.config.model().osmrelation.unwrap_or(0), views(streets@)),
{
    let id = relation.config.get_osmrelation();
    let rel = decimal_chars(id as u128);
    let area = decimal_chars(AREA_OFFSET as u128 + id as u128);
    let mut out: Vec<char> = Vec::new();
    append_text(&mut out, "[out:json][timeout:425];\nrel(");
    append_chars(&mut out, rel.as_slice());
    append_text(&mut out, ")->.searchRelation;\narea(");
    append_chars(&mut out, area.as_slice());
    append_text(&mut out, ")->.searchArea;\n(rel(");
    append_chars(&mut out, rel.as_slice());
    append_text(&mut out, ");\n");
    let ghost head = out@;
    let ghost names = views(streets@);
    let mut i: usize = 0;
    assert(names.take(0) =~= Seq::<Seq<char>>::empty());
    assert(head =~= head + all_street_lines(names.take(0)));
    while i < streets.len()
        invariant
            i <= streets@.len(),
            names == views(streets@),
            out@ == head + all_street_lines(names.take(i as int)),
        decreases streets@.len() - i,
    {
        assert(names.take(i + 1).drop_last() =~= names.take(i as int));
        assert(names.take(i + 1).last() == streets@[i as int]@);
        append_text(&mut out, "way[\"name\"=\"");
        append_text(&mut out, streets[i].as_str());
        append_text(&mut out, "\"](r.searchRelation);\nway[\"name\"=\"");
        append_text(&mut out, streets[i].as_str());
        append_text(&mut out, "\"](area.searchArea);\n");
        i = i + 1;
        assert(out@ =~= head + all_street_lines(names.take(i as int)));
    }
    assert(names.take(streets@.len() as int) =~= names);
    append_text(&mut out, ");\nout body;\n>;\nout skel qt;\n{{style:\nrelation{width:3}\nway{color:blue; width:4;}\n}}");
    assert(out@ =~= turbo_query(id, names));
    string_of(out.as_slice())
}

} // verus!
