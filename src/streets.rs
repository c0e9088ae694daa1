//! The streets of a relation, as the map data has them.

use vstd::prelude::*;
use crate::housenumber::{OsmType, Street};
use crate::config::or_empty;
use crate::order::{sorted_unique, sorted_unique_streets, street_names, strictly_sorted};
use crate::relation::{exact_u64, parse_exact_u64, Relation, RelationError};
use crate::table::{cell, column, header_of, rows_of, Table};
use crate::text::{contains_str, str_eq, views};

verus! {

/// A street as the map data has it: name, id and kind.
pub type StreetEntry = (Seq<char>, u64, OsmType);

pub open spec fn osm_type_of(t: Seq<char>) -> OsmType {
    if t == "node"@ {
        OsmType::Node
    } else {
        OsmType::Way
    }
}

pub open spec fn id_of(t: Seq<char>) -> u64 {
    match exact_u64(t) {
        Some(v) => v,
        None => 0,
    }
}

/// The streets of a table of streets, one per row.
pub open spec fn street_rows(h: Seq<Seq<char>>, rows: Seq<Seq<Seq<char>>>) -> Seq<StreetEntry> {
    rows.map_values(
        |row: Seq<Seq<char>>|
            (cell(h, row, "name"@), id_of(cell(h, row, "@id"@)), osm_type_of(cell(h, row, "@type"@))),
    )
}

/// The street that a row of house numbers names: `addr:street`, else
/// `addr:place`.
pub open spec fn hn_street(h: Seq<Seq<char>>, row: Seq<Seq<char>>) -> Seq<char> {
    if cell(h, row, "addr:street"@).len() > 0 {
        cell(h, row, "addr:street"@)
    } else {
        cell(h, row, "addr:place"@)
    }
}

/// The streets that rows of house numbers name, one per row that names one.
pub open spec fn hn_street_rows(h: Seq<Seq<char>>, rows: Seq<Seq<Seq<char>>>) -> Seq<StreetEntry>
    decreases rows.len(),
{
    if rows.len() == 0 {
        Seq::empty()
    } else {
        let rest = hn_street_rows(h, rows.drop_last());
        let row = rows.last();
        if hn_street(h, row).len() > 0 {
            rest.push((hn_street(h, row), id_of(cell(h, row, "@id"@)), osm_type_of(cell(h, row, "@type"@))))
        } else {
            rest
        }
    }
}

/// Whether a table text is malformed: present, with fewer than two columns.
pub open spec fn bad_table(text: Seq<char>) -> bool {
    header_of(text).len() < 2
}

/// Whether the tables of the map data are well formed: the street table, and
/// the house-number table where there is one.
pub open spec fn tables_ok(streets: Seq<char>, housenumbers: Seq<char>) -> bool {
    !bad_table(streets) && (housenumbers.len() > 0 ==> !bad_table(housenumbers))
}

/// All streets of the map data: those of the street table, then those that
/// house numbers name (where there is a house-number table).
pub open spec fn osm_street_entries(streets: Seq<char>, housenumbers: Seq<char>) -> Seq<StreetEntry> {
    street_rows(header_of(streets), rows_of(streets)) + if housenumbers.len() == 0 {
        Seq::<StreetEntry>::empty()
    } else {
        hn_street_rows(header_of(housenumbers), rows_of(housenumbers))
    }
}

pub open spec fn entry_names(es: Seq<StreetEntry>) -> Seq<Seq<char>> {
    es.map_values(|e: StreetEntry| e.0)
}

/// `s` is the street that `e` describes.
pub open spec fn street_is(s: Street, e: StreetEntry) -> bool {
    &&& s.osm_name@ == e.0
    &&& s.ref_name@ == Seq::<char>::empty()
    &&& s.show_ref_street
    &&& s.osm_id == e.1
    &&& s.osm_type == e.2
}

/// `s` is the street that one of `es` describes.
pub open spec fn has_entry(s: Street, es: Seq<StreetEntry>) -> bool {
    exists|k: int| 0 <= k < es.len() && street_is(s, es[k])
}

fn type_from(t: &str) -> (r: OsmType)
    ensures
        r == osm_type_of(t@),
{
    if str_eq(t, "node") {
        OsmType::Node
    } else {
        OsmType::Way
    }
}

fn id_from(t: &str) -> (r: u64)
    ensures
        r == id_of(t@),
{
    match parse_exact_u64(t) {
        Some(v) => v,
        None => 0,
    }
}

fn make_street(name: &str, id: u64, t: OsmType) -> (r: Street)
    ensures
        street_is(r, (name@, id, t)),
{
    let mut s = Street::new(name, "", true, id);
    proof {
        reveal_strlit("");
    }
    assert(""@ =~= Seq::<char>::empty());
    s.set_osm_type(t);
    s
}

/// The streets of a table of streets.
fn streets_of_table(t: &Table) -> (out: Vec<Street>)
    ensures
        out@.len() == t.rows_view().len(),
        forall|i: int|
            0 <= i < t.rows_view().len() ==> street_is(
                #[trigger] out@[i],
                street_rows(t.header_view(), t.rows_view())[i],
            ),
{
    let mut out: Vec<Street> = Vec::new();
    let name_col = t.column("name");
    let id_col = t.column("@id");
    let type_col = t.column("@type");
    let ghost es = street_rows(t.header_view(), t.rows_view());
    let mut i: usize = 0;
    while i < t.rows.len()
        invariant
            i <= t.rows@.len(),
            t.rows_view().len() == t.rows@.len(),
            es == street_rows(t.header_view(), t.rows_view()),
            match name_col {
                Some(c) => column(t.header_view(), "name"@) == Some(c as int),
                None => column(t.header_view(), "name"@) is None,
            },
            match id_col {
                Some(c) => column(t.header_view(), "@id"@) == Some(c as int),
                None => column(t.header_view(), "@id"@) is None,
            },
            match type_col {
                Some(c) => column(t.header_view(), "@type"@) == Some(c as int),
                None => column(t.header_view(), "@type"@) is None,
            },
            out@.len() == i,
            forall|k: int| 0 <= k < i ==> street_is(#[trigger] out@[k], es[k]),
        decreases t.rows@.len() - i,
    {
        let name = t.cell(i, name_col, Ghost("name"@));
        let id = t.cell(i, id_col, Ghost("@id"@));
        let kind = t.cell(i, type_col, Ghost("@type"@));
        let s = make_street(name.as_str(), id_from(id.as_str()), type_from(kind.as_str()));
        out.push(s);
        i = i + 1;
    }
    out
}

/// The streets that a table of house numbers names.
fn streets_of_housenumbers(t: &Table, out: &mut Vec<Street>)
    ensures
        final(out)@.len() == old(out)@.len() + hn_street_rows(t.header_view(), t.rows_view()).len(),
        forall|i: int| 0 <= i < old(out)@.len() ==> #[trigger] final(out)@[i] == old(out)@[i],
        forall|i: int|
            0 <= i < hn_street_rows(t.header_view(), t.rows_view()).len() ==> street_is(
                #[trigger] final(out)@[old(out)@.len() + i],
                hn_street_rows(t.header_view(), t.rows_view())[i],
            ),
{
    let street_col = t.column("addr:street");
    let place_col = t.column("addr:place");
    let id_col = t.column("@id");
    let type_col = t.column("@type");
    let ghost start = out@;
    let ghost h = t.header_view();
    let ghost rows = t.rows_view();
    let mut i: usize = 0;
    while i < t.rows.len()
        invariant
            i <= t.rows@.len(),
            rows.len() == t.rows@.len(),
            h == t.header_view(),
            rows == t.rows_view(),
            match street_col {
                Some(c) => column(h, "addr:street"@) == Some(c as int),
                None => column(h, "addr:street"@) is None,
            },
            match place_col {
                Some(c) => column(h, "addr:place"@) == Some(c as int),
                None => column(h, "addr:place"@) is None,
            },
            match id_col {
                Some(c) => column(h, "@id"@) == Some(c as int),
                None => column(h, "@id"@) is None,
            },
            match type_col {
                Some(c) => column(h, "@type"@) == Some(c as int),
                None => column(h, "@type"@) is None,
            },
            out@.len() == start.len() + hn_street_rows(h, rows.take(i as int)).len(),
            forall|k: int| 0 <= k < start.len() ==> #[trigger] out@[k] == start[k],
            forall|k: int|
                0 <= k < hn_street_rows(h, rows.take(i as int)).len() ==> street_is(
                    #[trigger] out@[start.len() + k],
                    hn_street_rows(h, rows.take(i as int))[k],
                ),
        decreases t.rows@.len() - i,
    {
        assert(rows.take(i + 1).drop_last() =~= rows.take(i as int));
        assert(rows.take(i + 1).last() == rows[i as int]);
        let street = t.cell(i, street_col, Ghost("addr:street"@));
        let name = if street.as_str().is_empty() {
            t.cell(i, place_col, Ghost("addr:place"@))
        } else {
            street
        };
        if !name.as_str().is_empty() {
            let id = t.cell(i, id_col, Ghost("@id"@));
            let kind = t.cell(i, type_col, Ghost("@type"@));
            let s = make_street(name.as_str(), id_from(id.as_str()), type_from(kind.as_str()));
            out.push(s);
        }
        i = i + 1;
    }
    assert(rows.take(t.rows@.len() as int) =~= rows);
}

impl Relation {
    /// The streets of the map data: from the street table `streets`, and those
    /// that the house-number table `housenumbers` names (none where that text
    /// is empty). Sorted by name, one per name, where `sorted_result` asks.
    /// Fails where a table has fewer than two columns.
    pub fn get_osm_streets(&self, streets: &str, housenumbers: &str, sorted_result: bool) -> (r:
        Result<Vec<Street>, RelationError>)
        ensures
            ({
                let es = osm_street_entries(streets@, housenumbers@);
                match r {
                    Err(e) => e == RelationError::Format && (bad_table(streets@) || (
                    housenumbers@.len() > 0 && bad_table(housenumbers@))),
                    Ok(v) => {
                        &&& !bad_table(streets@)
                        &&& (housenumbers@.len() > 0 ==> !bad_table(housenumbers@))
                        &&& if sorted_result {
                            &&& strictly_sorted(street_names(v@))
                            &&& street_names(v@).to_set() == entry_names(es).to_set()
                            &&& forall|i: int|
                                #![trigger v@[i]]
                                0 <= i < v@.len() ==> has_entry(v@[i], es)
                        } else {
                            &&& v@.len() == es.len()
                            &&& forall|i: int| 0 <= i < v@.len() ==> street_is(#[trigger] v@[i], es[i])
                        }
                    },
                }
            }),
    {
        let st = match Table::parse(streets) {
            Ok(t) => t,
            Err(e) => {
                return Err(e);
            },
        };
        let mut all = streets_of_table(&st);
        let ghost first = street_rows(header_of(streets@), rows_of(streets@));
        let ghost n1 = all@.len();
        assert(n1 == first.len());
        let ghost es = osm_street_entries(streets@, housenumbers@);
        if !housenumbers.is_empty() {
            let hn = match Table::parse(housenumbers) {
                Ok(t) => t,
                Err(e) => {
                    return Err(e);
                },
            };
            let ghost a1 = all@;
            streets_of_housenumbers(&hn, &mut all);
            assert forall|i: int| 0 <= i < all@.len() implies street_is(#[trigger] all@[i], es[i]) by {
                if i < n1 {
                    assert(street_is(a1[i], first[i]));
                    assert(all@[i] == a1[i]);
                } else {
                    assert(all@[i] == all@[n1 + (i - n1)]);
                }
            }
        } else {
            assert(es =~= first);
            assert forall|i: int| 0 <= i < all@.len() implies street_is(#[trigger] all@[i], es[i]) by {
                assert(street_is(all@[i], first[i]));
            }
        }
        assert(all@.len() == es.len());
        if !sorted_result {
            assert(!bad_table(streets@));
            assert(housenumbers@.len() > 0 ==> !bad_table(housenumbers@));
            return Ok(all);
        }
        let sorted = sorted_unique_streets(&all);
        assert(street_names(all@) =~= entry_names(es));
        assert forall|i: int| 0 <= i < sorted@.len() implies #[trigger] has_entry(sorted@[i], es) by {
            assert(crate::order::streets_from(sorted@, all@));
            let ri = sorted@[i];
            assert(exists|k: int| 0 <= k < all@.len() && crate::order::same_street(ri, all@[k]));
            let k = choose|k: int| 0 <= k < all@.len() && crate::order::same_street(sorted@[i], all@[k]);
            assert(street_is(all@[k], es[k]));
            assert(street_is(sorted@[i], es[k]));
        }
        Ok(sorted)
    }
}

/// Whether a street of the map data has the reference name `r`.
pub open spec fn osm_has_ref_name(cfg: crate::config::DictModel, names: Seq<Seq<char>>, r: Seq<char>) -> bool {
    exists|i: int| 0 <= i < names.len() && cfg.ref_street_of(names[i]) == r
}

/// The reference streets that count: those not filtered out.
pub open spec fn counted_ref(cfg: crate::config::DictModel, refs: Seq<Seq<char>>, r: Seq<char>) -> bool {
    refs.contains(r) && !or_empty(cfg.street_filters).contains(r)
}

impl Relation {
    /// The reference streets, sorted, each once.
    pub fn get_ref_streets(&self, ref_streets: &Vec<String>) -> (r: Vec<String>)
        ensures
            strictly_sorted(views(r@)),
            views(r@).to_set() == views(ref_streets@).to_set(),
    {
        sorted_unique(ref_streets)
    }

    /// The reference streets that the map data lacks, and those it has (by
    /// their reference names), both sorted; filtered-out streets are in
    /// neither. Fails where a table of the map data is malformed.
    pub fn get_missing_streets(&self, streets: &str, housenumbers: &str, ref_streets: &Vec<String>) -> (r:
        Result<(Vec<String>, Vec<String>), RelationError>)
        ensures
            r is Ok <==> tables_ok(streets@, housenumbers@),
            r is Err ==> r->Err_0 == RelationError::Format,
            r is Ok ==> {
                let names = entry_names(osm_street_entries(streets@, housenumbers@));
                let cfg = self.config.model();
                let refs = views(ref_streets@);
                &&& strictly_sorted(views(r->Ok_0.0@))
                &&& strictly_sorted(views(r->Ok_0.1@))
                &&& forall|x: Seq<char>| #[trigger] views(r->Ok_0.0@).contains(x) <==> counted_ref(cfg, refs, x) && !osm_has_ref_name(cfg, names, x)
                &&& forall|x: Seq<char>| #[trigger] views(r->Ok_0.1@).contains(x) <==> counted_ref(cfg, refs, x) && osm_has_ref_name(cfg, names, x)
            },
    {
        let osm = match self.get_osm_streets(streets, housenumbers, false) {
            Ok(v) => v,
            Err(e) => {
                return Err(e);
            },
        };
        let ghost cfg = self.config.model();
        let ghost names = entry_names(osm_street_entries(streets@, housenumbers@));
        let ghost refs = views(ref_streets@);
        let mut mapped: Vec<String> = Vec::new();
        let mut i: usize = 0;
        while i < osm.len()
            invariant
                i <= osm@.len(),
                osm@.len() == names.len(),
                forall|k: int| 0 <= k < osm@.len() ==> (#[trigger] osm@[k]).osm_name@ == names[k],
                cfg == self.config.model(),
                mapped@.len() == i,
                forall|k: int| 0 <= k < i ==> (#[trigger] mapped@[k])@ == cfg.ref_street_of(names[k]),
            decreases osm@.len() - i,
        {
            mapped.push(self.config.get_ref_street_from_osm_street(osm[i].osm_name.as_str()));
            i = i + 1;
        }
        let blacklist = self.config.get_street_filters();
        let mut only: Vec<String> = Vec::new();
        let mut both: Vec<String> = Vec::new();
        let mut j: usize = 0;
        while j < ref_streets.len()
            invariant
                j <= ref_streets@.len(),
                refs == views(ref_streets@),
                cfg == self.config.model(),
                views(blacklist@) == or_empty(cfg.street_filters),
                mapped@.len() == names.len(),
                forall|k: int| 0 <= k < mapped@.len() ==> (#[trigger] mapped@[k])@ == cfg.ref_street_of(names[k]),
                forall|x: Seq<char>| #[trigger] views(only@).contains(x) <==> refs.take(j as int).contains(x) && !or_empty(cfg.street_filters).contains(x) && !osm_has_ref_name(cfg, names, x),
                forall|x: Seq<char>| #[trigger] views(both@).contains(x) <==> refs.take(j as int).contains(x) && !or_empty(cfg.street_filters).contains(x) && osm_has_ref_name(cfg, names, x),
            decreases ref_streets@.len() - j,
        {
            let name = &ref_streets[j];
            let skip = contains_str(&blacklist, name.as_str());
            let found = contains_str(&mapped, name.as_str());
            assert(found == osm_has_ref_name(cfg, names, name@)) by {
                if found {
                    let k = choose|k: int| 0 <= k < views(mapped@).len() && views(mapped@)[k] == name@;
                    assert(mapped@[k]@ == cfg.ref_street_of(names[k]));
                }
                if osm_has_ref_name(cfg, names, name@) {
                    let k = choose|k: int| 0 <= k < names.len() && cfg.ref_street_of(names[k]) == name@;
                    assert(views(mapped@)[k] == name@);
                }
            }
            assert(refs.take(j + 1) =~= refs.take(j as int).push(name@));
            let ghost old_only = views(only@);
            let ghost old_both = views(both@);
            if !skip {
                if found {
                    both.push(name.clone());
                } else {
                    only.push(name.clone());
                }
            }
            assert(views(only@) =~= if !skip && !found { old_only.push(name@) } else { old_only });
            assert(views(both@) =~= if !skip && found { old_both.push(name@) } else { old_both });
            let ghost t1 = refs.take(j + 1);
            let ghost t0 = refs.take(j as int);
            assert forall|x: Seq<char>| #[trigger] t1.contains(x) <==> t0.contains(x) || x == name@ by {
                if t1.contains(x) {
                    let k = choose|k: int| 0 <= k < t1.len() && t1[k] == x;
                    if k < j {
                        assert(t0[k] == x);
                    }
                }
                if t0.contains(x) {
                    let k = choose|k: int| 0 <= k < t0.len() && t0[k] == x;
                    assert(t1[k] == x);
                }
                if x == name@ {
                    assert(t1[j as int] == x);
                }
            }
            proof {
                lemma_push_contains(old_only, name@);
                lemma_push_contains(old_both, name@);
            }
            assert(skip == or_empty(cfg.street_filters).contains(name@));
            assert forall|x: Seq<char>| #[trigger] views(only@).contains(x) <==> t1.contains(x) && !or_empty(cfg.street_filters).contains(x) && !osm_has_ref_name(cfg, names, x) by {
                assert(old_only.contains(x) <==> t0.contains(x) && !or_empty(cfg.street_filters).contains(x) && !osm_has_ref_name(cfg, names, x));
            }
            assert forall|x: Seq<char>| #[trigger] views(both@).contains(x) <==> t1.contains(x) && !or_empty(cfg.street_filters).contains(x) && osm_has_ref_name(cfg, names, x) by {
                assert(old_both.contains(x) <==> t0.contains(x) && !or_empty(cfg.street_filters).contains(x) && osm_has_ref_name(cfg, names, x));
            }
            j = j + 1;
        }
        assert(refs.take(ref_streets@.len() as int) =~= refs);
        let a = sorted_unique(&only);
        let b = sorted_unique(&both);
        assert forall|x: Seq<char>| #[trigger] views(a@).contains(x) <==> views(only@).contains(x) by {
            assert(views(a@).to_set().contains(x) == views(only@).to_set().contains(x));
        }
        assert forall|x: Seq<char>| #[trigger] views(b@).contains(x) <==> views(both@).contains(x) by {
            assert(views(b@).to_set().contains(x) == views(both@).to_set().contains(x));
        }
        Ok((a, b))
    }

    /// The streets of the map data that the reference lacks (by reference
    /// name), except those that `osm-street-filters` names; sorted by name,
    /// one per name, where `sorted_result` asks.
    pub fn get_additional_streets(&self, streets: &str, housenumbers: &str, ref_streets: &Vec<String>, sorted_result: bool) -> (r:
        Result<Vec<Street>, RelationError>)
        ensures
            r is Ok <==> tables_ok(streets@, housenumbers@),
            r is Err ==> r->Err_0 == RelationError::Format,
            r is Ok ==> {
                let es = osm_street_entries(streets@, housenumbers@);
                let cfg = self.config.model();
                let refs = views(ref_streets@);
                &&& forall|i: int| 0 <= i < r->Ok_0@.len() ==> #[trigger] additional_street(r->Ok_0@[i], cfg, refs, es)
                &&& forall|k: int| 0 <= k < es.len() && !refs.contains(cfg.ref_street_of(es[k].0))
                    && !or_empty(cfg.osm_street_filters).contains(es[k].0) ==> street_names(r->Ok_0@).contains(#[trigger] es[k].0)
                &&& sorted_result ==> strictly_sorted(street_names(r->Ok_0@))
            },
    {
        let osm = match self.get_osm_streets(streets, housenumbers, false) {
            Ok(v) => v,
            Err(e) => {
                return Err(e);
            },
        };
        let ghost cfg = self.config.model();
        let ghost es = osm_street_entries(streets@, housenumbers@);
        let ghost refs = views(ref_streets@);
        let blacklist = self.config.get_osm_street_filters();
        let mut out: Vec<Street> = Vec::new();
        let mut i: usize = 0;
        while i < osm.len()
            invariant
                i <= osm@.len(),
                osm@.len() == es.len(),
                forall|k: int| 0 <= k < osm@.len() ==> street_is(#[trigger] osm@[k], es[k]),
                cfg == self.config.model(),
                refs == views(ref_streets@),
                views(blacklist@) == or_empty(cfg.osm_street_filters),
                forall|k: int| 0 <= k < out@.len() ==> #[trigger] additional_street(out@[k], cfg, refs, es),
                forall|k: int| 0 <= k < i && !refs.contains(cfg.ref_street_of(es[k].0))
                    && !or_empty(cfg.osm_street_filters).contains(es[k].0) ==> street_names(out@).contains(#[trigger] es[k].0),
            decreases osm@.len() - i,
        {
            let name = osm[i].get_osm_name();
            let ref_name = self.config.get_ref_street_from_osm_street(name.as_str());
            let known = contains_str(ref_streets, ref_name.as_str());
            let skip = contains_str(&blacklist, name.as_str());
            if !known && !skip {
                let ghost before = out@;
                out.push(osm[i].duplicate());
                assert(additional_street(out@[out@.len() - 1], cfg, refs, es));
                assert forall|k: int| 0 <= k < i + 1 && !refs.contains(cfg.ref_street_of(es[k].0))
                    && !or_empty(cfg.osm_street_filters).contains(es[k].0) implies street_names(out@).contains(#[trigger] es[k].0) by {
                    if k == i {
                        assert(street_names(out@)[out@.len() - 1] == es[k].0);
                    } else {
                        let j = choose|j: int| 0 <= j < street_names(before).len() && street_names(before)[j] == es[k].0;
                        assert(street_names(out@)[j] == es[k].0);
                    }
                }
            }
            i = i + 1;
        }
        if !sorted_result {
            return Ok(out);
        }
        let sorted = sorted_unique_streets(&out);
        assert forall|i: int| 0 <= i < sorted@.len() implies #[trigger] additional_street(sorted@[i], cfg, refs, es) by {
            assert(crate::order::streets_from(sorted@, out@));
            let si = sorted@[i];
            assert(exists|k: int| 0 <= k < out@.len() && crate::order::same_street(si, out@[k]));
            let k = choose|k: int| 0 <= k < out@.len() && crate::order::same_street(sorted@[i], out@[k]);
            assert(additional_street(out@[k], cfg, refs, es));
        }
        assert forall|k: int| 0 <= k < es.len() && !refs.contains(cfg.ref_street_of(es[k].0))
            && !or_empty(cfg.osm_street_filters).contains(es[k].0) implies street_names(sorted@).contains(#[trigger] es[k].0) by {
            assert(street_names(out@).contains(es[k].0));
            assert(street_names(out@).to_set().contains(es[k].0));
        }
        Ok(sorted)
    }
}

pub proof fn lemma_push_contains(s: Seq<Seq<char>>, a: Seq<char>)
    ensures
        forall|x: Seq<char>| #[trigger] s.push(a).contains(x) <==> s.contains(x) || x == a,
{
    assert forall|x: Seq<char>| #[trigger] s.push(a).contains(x) <==> s.contains(x) || x == a by {
        if s.push(a).contains(x) {
            let k = choose|k: int| 0 <= k < s.push(a).len() && s.push(a)[k] == x;
            if k < s.len() {
                assert(s[k] == x);
            }
        }
        if s.contains(x) {
            let k = choose|k: int| 0 <= k < s.len() && s[k] == x;
            assert(s.push(a)[k] == x);
        }
        if x == a {
            assert(s.push(a)[s.len() as int] == x);
        }
    }
}

/// `s` is a street of the map data whose reference name the reference lacks
/// and that no `osm-street-filters` entry names.
pub open spec fn additional_street(s: Street, cfg: crate::config::DictModel, refs: Seq<Seq<char>>, es: Seq<StreetEntry>) -> bool {
    &&& has_entry(s, es)
    &&& !refs.contains(cfg.ref_street_of(s.osm_name@))
    &&& !or_empty(cfg.osm_street_filters).contains(s.osm_name@)
}

} // verus!
