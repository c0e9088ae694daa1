//! The configuration of one relation: a layer of defaults for the area, the
//! relation's own layer over it, and street-level filters.

use vstd::prelude::*;
use crate::housenumber::LetterSuffixStyle;
use crate::text::{str_eq, views};

verus! {

/// One configured range of a street, with the numbers as written.
#[derive(Debug, Clone)]
pub struct RelationRangesDict {
    pub start: String,
    pub end: String,
    pub refsettlement: Option<String>,
}

/// Street-level settings.
#[derive(Debug, Clone)]
pub struct RelationFiltersDict {
    pub ranges: Option<Vec<RelationRangesDict>>,
    pub invalid: Option<Vec<String>>,
    pub valid: Option<Vec<String>>,
    pub interpolation: Option<String>,
    pub refsettlement: Option<String>,
    pub show_refstreet: Option<bool>,
}

/// The settings of a street, by street name.
#[derive(Debug, Clone)]
pub struct StreetFilter {
    pub street: String,
    pub filter: RelationFiltersDict,
}

/// One layer of relation settings; an absent value leaves the lower layer's.
#[derive(Debug, Clone)]
pub struct RelationDict {
    pub osmrelation: Option<u64>,
    pub refcounty: Option<String>,
    pub refsettlement: Option<String>,
    pub filters: Option<Vec<StreetFilter>>,
    pub refstreets: Option<Vec<(String, String)>>,
    pub street_filters: Option<Vec<String>>,
    pub osm_street_filters: Option<Vec<String>>,
    pub housenumber_letters: Option<bool>,
    pub letter_suffix_style: Option<LetterSuffixStyle>,
    pub missing_streets: Option<String>,
    pub inactive: Option<bool>,
    pub alias: Option<Vec<String>>,
}

/// The resolved settings of a relation.
#[derive(Debug, Clone)]
pub struct RelationConfig {
    pub dict: RelationDict,
}

pub open spec fn pick<T>(own: Option<T>, parent: Option<T>) -> Option<T> {
    if own is Some {
        own
    } else {
        parent
    }
}

impl RelationDict {
    /// A layer that sets nothing.
    pub fn empty() -> (r: RelationDict)
        ensures
            r.is_empty(),
    {
        RelationDict {
            osmrelation: None,
            refcounty: None,
            refsettlement: None,
            filters: None,
            refstreets: None,
            street_filters: None,
            osm_street_filters: None,
            housenumber_letters: None,
            letter_suffix_style: None,
            missing_streets: None,
            inactive: None,
            alias: None,
        }
    }

    pub open spec fn is_empty(&self) -> bool {
        &&& self.osmrelation is None
        &&& self.refcounty is None
        &&& self.refsettlement is None
        &&& self.filters is None
        &&& self.refstreets is None
        &&& self.street_filters is None
        &&& self.osm_street_filters is None
        &&& self.housenumber_letters is None
        &&& self.letter_suffix_style is None
        &&& self.missing_streets is None
        &&& self.inactive is None
        &&& self.alias is None
    }
}

/// The numbers of a configured range, as written.
pub struct RangeModel {
    pub start: Seq<char>,
    pub end: Seq<char>,
    pub refsettlement: Option<Seq<char>>,
}

/// The settings of one street.
pub struct FilterModel {
    pub street: Seq<char>,
    pub ranges: Option<Seq<RangeModel>>,
    pub invalid: Option<Seq<Seq<char>>>,
    pub valid: Option<Seq<Seq<char>>>,
    pub interpolation: Option<Seq<char>>,
    pub refsettlement: Option<Seq<char>>,
    pub show_refstreet: Option<bool>,
}

/// One layer of settings, as values.
pub struct DictModel {
    pub osmrelation: Option<u64>,
    pub refcounty: Option<Seq<char>>,
    pub refsettlement: Option<Seq<char>>,
    pub filters: Option<Seq<FilterModel>>,
    pub refstreets: Option<Seq<(Seq<char>, Seq<char>)>>,
    pub street_filters: Option<Seq<Seq<char>>>,
    pub osm_street_filters: Option<Seq<Seq<char>>>,
    pub housenumber_letters: Option<bool>,
    pub letter_suffix_style: Option<LetterSuffixStyle>,
    pub missing_streets: Option<Seq<char>>,
    pub inactive: Option<bool>,
    pub alias: Option<Seq<Seq<char>>>,
}

pub open spec fn opt_str(o: Option<String>) -> Option<Seq<char>> {
    match o {
        Some(s) => Some(s@),
        None => None,
    }
}

pub open spec fn opt_strs(o: Option<Vec<String>>) -> Option<Seq<Seq<char>>> {
    match o {
        Some(v) => Some(views(v@)),
        None => None,
    }
}

impl View for RelationRangesDict {
    type V = RangeModel;

    open spec fn view(&self) -> RangeModel {
        RangeModel {
            start: self.start@,
            end: self.end@,
            refsettlement: opt_str(self.refsettlement),
        }
    }
}

impl View for StreetFilter {
    type V = FilterModel;

    open spec fn view(&self) -> FilterModel {
        FilterModel {
            street: self.street@,
            ranges: match self.filter.ranges {
                Some(v) => Some(ranges_view(v@)),
                None => None,
            },
            invalid: opt_strs(self.filter.invalid),
            valid: opt_strs(self.filter.valid),
            interpolation: opt_str(self.filter.interpolation),
            refsettlement: opt_str(self.filter.refsettlement),
            show_refstreet: self.filter.show_refstreet,
        }
    }
}

pub open spec fn ranges_view(v: Seq<RelationRangesDict>) -> Seq<RangeModel> {
    v.map_values(|d: RelationRangesDict| d@)
}

pub open spec fn filters_view(v: Seq<StreetFilter>) -> Seq<FilterModel> {
    v.map_values(|f: StreetFilter| f@)
}

pub open spec fn pairs_view(v: Seq<(String, String)>) -> Seq<(Seq<char>, Seq<char>)> {
    v.map_values(|p: (String, String)| (p.0@, p.1@))
}

impl View for RelationDict {
    type V = DictModel;

    open spec fn view(&self) -> DictModel {
        DictModel {
            osmrelation: self.osmrelation,
            refcounty: opt_str(self.refcounty),
            refsettlement: opt_str(self.refsettlement),
            filters: match self.filters {
                Some(v) => Some(filters_view(v@)),
                None => None,
            },
            refstreets: match self.refstreets {
                Some(v) => Some(pairs_view(v@)),
                None => None,
            },
            street_filters: opt_strs(self.street_filters),
            osm_street_filters: opt_strs(self.osm_street_filters),
            housenumber_letters: self.housenumber_letters,
            letter_suffix_style: self.letter_suffix_style,
            missing_streets: opt_str(self.missing_streets),
            inactive: self.inactive,
            alias: opt_strs(self.alias),
        }
    }
}

impl DictModel {
    /// Each value of `self` where it is set, else that of `parent`.
    pub open spec fn layered(self, parent: DictModel) -> DictModel {
        DictModel {
            osmrelation: pick(self.osmrelation, parent.osmrelation),
            refcounty: pick(self.refcounty, parent.refcounty),
            refsettlement: pick(self.refsettlement, parent.refsettlement),
            filters: pick(self.filters, parent.filters),
            refstreets: pick(self.refstreets, parent.refstreets),
            street_filters: pick(self.street_filters, parent.street_filters),
            osm_street_filters: pick(self.osm_street_filters, parent.osm_street_filters),
            housenumber_letters: pick(self.housenumber_letters, parent.housenumber_letters),
            letter_suffix_style: pick(self.letter_suffix_style, parent.letter_suffix_style),
            missing_streets: pick(self.missing_streets, parent.missing_streets),
            inactive: pick(self.inactive, parent.inactive),
            alias: pick(self.alias, parent.alias),
        }
    }
}

pub fn copy_strings(v: &Vec<String>) -> (r: Vec<String>)
    ensures
        r@ == v@,
{
    let r = v.clone();
    assert(r@ =~= v@);
    r
}

fn copy_opt_strings(v: &Option<Vec<String>>) -> (r: Option<Vec<String>>)
    ensures
        opt_strs(r) == opt_strs(*v),
{
    match v {
        Some(x) => {
            let c = copy_strings(x);
            assert(views(c@) =~= views(x@));
            Some(c)
        },
        None => None,
    }
}

fn copy_opt_string(v: &Option<String>) -> (r: Option<String>)
    ensures
        r == *v,
{
    match v {
        Some(x) => Some(x.clone()),
        None => None,
    }
}

fn copy_ranges_dicts(v: &Vec<RelationRangesDict>) -> (r: Vec<RelationRangesDict>)
    ensures
        r@ == v@,
{
    let mut r: Vec<RelationRangesDict> = Vec::new();
    let mut i: usize = 0;
    while i < v.len()
        invariant
            i <= v@.len(),
            r@ == v@.take(i as int),
        decreases v@.len() - i,
    {
        let d = &v[i];
        r.push(
            RelationRangesDict {
                start: d.start.clone(),
                end: d.end.clone(),
                refsettlement: copy_opt_string(&d.refsettlement),
            },
        );
        i = i + 1;
        assert(r@ =~= v@.take(i as int));
    }
    assert(r@ =~= v@);
    r
}

impl StreetFilter {
    pub fn duplicate(&self) -> (r: StreetFilter)
        ensures
            r@ == self@,
    {
        let ranges = match &self.filter.ranges {
            Some(v) => Some(copy_ranges_dicts(v)),
            None => None,
        };
        let r = StreetFilter {
            street: self.street.clone(),
            filter: RelationFiltersDict {
                ranges,
                invalid: copy_opt_strings(&self.filter.invalid),
                valid: copy_opt_strings(&self.filter.valid),
                interpolation: copy_opt_string(&self.filter.interpolation),
                refsettlement: copy_opt_string(&self.filter.refsettlement),
                show_refstreet: self.filter.show_refstreet,
            },
        };
        assert(r@.ranges == self@.ranges);
        r
    }
}

/// A copy of street filters, with the same settings.
pub fn copy_filters(v: &Vec<StreetFilter>) -> (r: Vec<StreetFilter>)
    ensures
        filters_view(r@) == filters_view(v@),
{
    let mut r: Vec<StreetFilter> = Vec::new();
    let mut i: usize = 0;
    while i < v.len()
        invariant
            i <= v@.len(),
            r@.len() == i,
            forall|j: int| 0 <= j < i ==> (#[trigger] r@[j])@ == v@[j]@,
        decreases v@.len() - i,
    {
        r.push(v[i].duplicate());
        i = i + 1;
    }
    assert(filters_view(r@) =~= filters_view(v@));
    r
}

fn copy_pairs(v: &Vec<(String, String)>) -> (r: Vec<(String, String)>)
    ensures
        r@ == v@,
{
    let mut r: Vec<(String, String)> = Vec::new();
    let mut i: usize = 0;
    while i < v.len()
        invariant
            i <= v@.len(),
            r@ == v@.take(i as int),
        decreases v@.len() - i,
    {
        r.push((v[i].0.clone(), v[i].1.clone()));
        i = i + 1;
        assert(r@ =~= v@.take(i as int));
    }
    assert(r@ =~= v@);
    r
}

impl RelationDict {
    pub fn duplicate(&self) -> (r: RelationDict)
        ensures
            r@ == self@,
    {
        let filters = match &self.filters {
            Some(v) => Some(copy_filters(v)),
            None => None,
        };
        let refstreets = match &self.refstreets {
            Some(v) => Some(copy_pairs(v)),
            None => None,
        };
        RelationDict {
            osmrelation: self.osmrelation,
            refcounty: copy_opt_string(&self.refcounty),
            refsettlement: copy_opt_string(&self.refsettlement),
            filters,
            refstreets,
            street_filters: copy_opt_strings(&self.street_filters),
            osm_street_filters: copy_opt_strings(&self.osm_street_filters),
            housenumber_letters: self.housenumber_letters,
            letter_suffix_style: self.letter_suffix_style,
            missing_streets: copy_opt_string(&self.missing_streets),
            inactive: self.inactive,
            alias: copy_opt_strings(&self.alias),
        }
    }
}

pub open spec fn find_filter(fs: Seq<FilterModel>, street: Seq<char>) -> Option<FilterModel>
    decreases fs.len(),
{
    if fs.len() == 0 {
        None
    } else if fs[0].street == street {
        Some(fs[0])
    } else {
        find_filter(fs.drop_first(), street)
    }
}

/// The value paired with `key`, first pair first.
pub open spec fn find_value(ps: Seq<(Seq<char>, Seq<char>)>, key: Seq<char>) -> Option<Seq<char>>
    decreases ps.len(),
{
    if ps.len() == 0 {
        None
    } else if ps[0].0 == key {
        Some(ps[0].1)
    } else {
        find_value(ps.drop_first(), key)
    }
}

/// The key paired with `value`, first pair first.
pub open spec fn find_key(ps: Seq<(Seq<char>, Seq<char>)>, value: Seq<char>) -> Option<Seq<char>>
    decreases ps.len(),
{
    if ps.len() == 0 {
        None
    } else if ps[0].1 == value {
        Some(ps[0].0)
    } else {
        find_key(ps.drop_first(), value)
    }
}

pub open spec fn or_empty(o: Option<Seq<Seq<char>>>) -> Seq<Seq<char>> {
    match o {
        Some(v) => v,
        None => Seq::empty(),
    }
}

pub open spec fn or_text(o: Option<Seq<char>>, d: Seq<char>) -> Seq<char> {
    match o {
        Some(v) => v,
        None => d,
    }
}

/// The refsettlement codes that the ranges of a street name.
pub open spec fn range_refsettlements(rs: Seq<RangeModel>) -> Seq<Seq<char>>
    decreases rs.len(),
{
    if rs.len() == 0 {
        Seq::empty()
    } else {
        let rest = range_refsettlements(rs.drop_last());
        match rs.last().refsettlement {
            Some(c) => rest.push(c),
            None => rest,
        }
    }
}

impl DictModel {
    /// A model that sets only how letters are handled.
    pub open spec fn with_letters(letters: bool, style: LetterSuffixStyle) -> DictModel {
        DictModel {
            osmrelation: None,
            refcounty: None,
            refsettlement: None,
            filters: None,
            refstreets: None,
            street_filters: None,
            osm_street_filters: None,
            housenumber_letters: Some(letters),
            letter_suffix_style: Some(style),
            missing_streets: None,
            inactive: None,
            alias: None,
        }
    }

    pub open spec fn street_filter(self, street: Seq<char>) -> Option<FilterModel> {
        match self.filters {
            Some(fs) => find_filter(fs, street),
            None => None,
        }
    }

    pub open spec fn street_is_even_odd(self, street: Seq<char>) -> bool {
        match self.street_filter(street) {
            Some(f) => f.interpolation != Some("all"@),
            None => true,
        }
    }

    pub open spec fn show_ref_street(self, street: Seq<char>) -> bool {
        match self.street_filter(street) {
            Some(f) => match f.show_refstreet {
                Some(b) => b,
                None => true,
            },
            None => true,
        }
    }

    pub open spec fn ref_street_of(self, osm: Seq<char>) -> Seq<char> {
        match self.refstreets {
            Some(ps) => or_text(find_value(ps, osm), osm),
            None => osm,
        }
    }

    pub open spec fn osm_street_of(self, reference: Seq<char>) -> Seq<char> {
        match self.refstreets {
            Some(ps) => or_text(find_key(ps, reference), reference),
            None => reference,
        }
    }

    pub open spec fn letters(self) -> bool {
        self.housenumber_letters == Some(true)
    }

    pub open spec fn style(self) -> LetterSuffixStyle {
        match self.letter_suffix_style {
            Some(s) => s,
            None => LetterSuffixStyle::Upper,
        }
    }

    pub open spec fn active(self) -> bool {
        self.inactive != Some(true)
    }

    pub open spec fn street_refsettlement(self, street: Seq<char>) -> Seq<Seq<char>> {
        let own = or_text(self.refsettlement, Seq::empty());
        match self.street_filter(street) {
            Some(f) => seq![or_text(f.refsettlement, own)] + match f.ranges {
                Some(rs) => range_refsettlements(rs),
                None => Seq::empty(),
            },
            None => seq![own],
        }
    }
}

impl RelationConfig {
    /// The settings of a relation: `own` over `parent`.
    pub fn new(parent: &RelationDict, own: &RelationDict) -> (r: RelationConfig)
        ensures
            r.dict@ == own@.layered(parent@),
    {
        let p = parent.duplicate();
        let o = own.duplicate();
        let dict = RelationDict {
            osmrelation: if o.osmrelation.is_some() { o.osmrelation } else { p.osmrelation },
            refcounty: if o.refcounty.is_some() { o.refcounty } else { p.refcounty },
            refsettlement: if o.refsettlement.is_some() { o.refsettlement } else { p.refsettlement },
            filters: if o.filters.is_some() { o.filters } else { p.filters },
            refstreets: if o.refstreets.is_some() { o.refstreets } else { p.refstreets },
            street_filters: if o.street_filters.is_some() { o.street_filters } else { p.street_filters },
            osm_street_filters: if o.osm_street_filters.is_some() {
                o.osm_street_filters
            } else {
                p.osm_street_filters
            },
            housenumber_letters: if o.housenumber_letters.is_some() {
                o.housenumber_letters
            } else {
                p.housenumber_letters
            },
            letter_suffix_style: if o.letter_suffix_style.is_some() {
                o.letter_suffix_style
            } else {
                p.letter_suffix_style
            },
            missing_streets: if o.missing_streets.is_some() { o.missing_streets } else { p.missing_streets },
            inactive: if o.inactive.is_some() { o.inactive } else { p.inactive },
            alias: if o.alias.is_some() { o.alias } else { p.alias },
        };
        RelationConfig { dict }
    }

    pub open spec fn model(&self) -> DictModel {
        self.dict@
    }

    pub fn duplicate(&self) -> (r: RelationConfig)
        ensures
            r.model() == self.model(),
    {
        RelationConfig { dict: self.dict.duplicate() }
    }

    /// The settings of `street`, where it has any.
    pub fn get_street_filter(&self, street: &str) -> (r: Option<&StreetFilter>)
        ensures
            match r {
                Some(f) => self.model().street_filter(street@) == Some(f@),
                None => self.model().street_filter(street@) is None,
            },
    {
        match &self.dict.filters {
            Some(fs) => {
                let ghost m = filters_view(fs@);
                let mut i: usize = 0;
                assert(m.skip(0) =~= m);
                while i < fs.len()
                    invariant
                        i <= fs@.len(),
                        m == filters_view(fs@),
                        self.model().filters == Some(m),
                        find_filter(m, street@) == find_filter(m.skip(i as int), street@),
                    decreases fs@.len() - i,
                {
                    assert(m.skip(i as int).drop_first() =~= m.skip(i + 1));
                    assert(m[i as int] == fs@[i as int]@);
                    assert(m.skip(i as int)[0] == m[i as int]);
                    if str_eq(fs[i].street.as_str(), street) {
                        return Some(&fs[i]);
                    }
                    i = i + 1;
                }
                None
            },
            None => None,
        }
    }

    pub fn get_filters(&self) -> (r: &Option<Vec<StreetFilter>>)
        ensures
            r == &self.dict.filters,
    {
        &self.dict.filters
    }

    /// False where the street has `interpolation: all`, which asks for every
    /// number of a range, not only those of one parity.
    pub fn get_street_is_even_odd(&self, street: &str) -> (r: bool)
        ensures
            r == self.model().street_is_even_odd(street@),
    {
        match self.get_street_filter(street) {
            Some(f) => match &f.filter.interpolation {
                Some(i) => {
                    let all = str_eq(i.as_str(), "all");
                    !all
                },
                None => true,
            },
            None => true,
        }
    }

    pub fn should_show_ref_street(&self, street: &str) -> (r: bool)
        ensures
            r == self.model().show_ref_street(street@),
    {
        match self.get_street_filter(street) {
            Some(f) => match f.filter.show_refstreet {
                Some(b) => b,
                None => true,
            },
            None => true,
        }
    }

    /// The map name to reference name pairs.
    pub fn get_refstreets(&self) -> (r: Vec<(String, String)>)
        ensures
            pairs_view(r@) == match self.model().refstreets {
                Some(ps) => ps,
                None => Seq::empty(),
            },
    {
        match &self.dict.refstreets {
            Some(v) => copy_pairs(v),
            None => {
                let r: Vec<(String, String)> = Vec::new();
                assert(pairs_view(r@) =~= Seq::empty());
                r
            },
        }
    }

    /// The reference name of a street with the map name `osm`.
    pub fn get_ref_street_from_osm_street(&self, osm: &str) -> (r: String)
        ensures
            r@ == self.model().ref_street_of(osm@),
    {
        match &self.dict.refstreets {
            Some(ps) => {
                let ghost m = pairs_view(ps@);
                let mut i: usize = 0;
                assert(m.skip(0) =~= m);
                while i < ps.len()
                    invariant
                        i <= ps@.len(),
                        m == pairs_view(ps@),
                        self.model().refstreets == Some(m),
                        find_value(m, osm@) == find_value(m.skip(i as int), osm@),
                    decreases ps@.len() - i,
                {
                    assert(m.skip(i as int).drop_first() =~= m.skip(i + 1));
                    assert(m[i as int] == (ps@[i as int].0@, ps@[i as int].1@));
                    assert(m.skip(i as int)[0] == m[i as int]);
                    if str_eq(ps[i].0.as_str(), osm) {
                        return ps[i].1.clone();
                    }
                    i = i + 1;
                }
                osm.to_owned()
            },
            None => osm.to_owned(),
        }
    }

    /// The map name of a street with the reference name `reference`.
    pub fn get_osm_street_from_ref_street(&self, reference: &str) -> (r: String)
        ensures
            r@ == self.model().osm_street_of(reference@),
    {
        match &self.dict.refstreets {
            Some(ps) => {
                let ghost m = pairs_view(ps@);
                let mut i: usize = 0;
                assert(m.skip(0) =~= m);
                while i < ps.len()
                    invariant
                        i <= ps@.len(),
                        m == pairs_view(ps@),
                        self.model().refstreets == Some(m),
                        find_key(m, reference@) == find_key(m.skip(i as int), reference@),
                    decreases ps@.len() - i,
                {
                    assert(m.skip(i as int).drop_first() =~= m.skip(i + 1));
                    assert(m[i as int] == (ps@[i as int].0@, ps@[i as int].1@));
                    assert(m.skip(i as int)[0] == m[i as int]);
                    if str_eq(ps[i].1.as_str(), reference) {
                        return ps[i].0.clone();
                    }
                    i = i + 1;
                }
                reference.to_owned()
            },
            None => reference.to_owned(),
        }
    }

    pub fn get_osmrelation(&self) -> (r: u64)
        ensures
            r == match self.model().osmrelation {
                Some(v) => v,
                None => 0,
            },
    {
        match self.dict.osmrelation {
            Some(v) => v,
            None => 0,
        }
    }

    pub fn get_refcounty(&self) -> (r: String)
        ensures
            r@ == or_text(self.model().refcounty, Seq::empty()),
    {
        match &self.dict.refcounty {
            Some(v) => v.clone(),
            None => String::new(),
        }
    }

    pub fn get_refsettlement(&self) -> (r: String)
        ensures
            r@ == or_text(self.model().refsettlement, Seq::empty()),
    {
        match &self.dict.refsettlement {
            Some(v) => v.clone(),
            None => String::new(),
        }
    }

    /// The refsettlement codes that numbers of `street` may have: the street's
    /// own (or else the relation's), then those of its ranges.
    pub fn get_street_refsettlement(&self, street: &str) -> (r: Vec<String>)
        ensures
            views(r@) == self.model().street_refsettlement(street@),
    {
        let own = self.get_refsettlement();
        let mut r: Vec<String> = Vec::new();
        match self.get_street_filter(street) {
            Some(f) => {
                match &f.filter.refsettlement {
                    Some(c) => r.push(c.clone()),
                    None => r.push(own),
                }
                match &f.filter.ranges {
                    Some(rs) => {
                        let ghost m = ranges_view(rs@);
                        let ghost first = views(r@);
                        let mut i: usize = 0;
                        while i < rs.len()
                            invariant
                                i <= rs@.len(),
                                m == ranges_view(rs@),
                                first.len() == 1,
                                views(r@) == first + range_refsettlements(m.take(i as int)),
                            decreases rs@.len() - i,
                        {
                            assert(m.take(i + 1).drop_last() =~= m.take(i as int));
                            assert(m.take(i + 1).last() == rs@[i as int]@);
                            match &rs[i].refsettlement {
                                Some(c) => {
                                    let ghost before = r@;
                                    r.push(c.clone());
                                    assert(views(r@) =~= views(before).push(c@));
                                    assert(range_refsettlements(m.take(i + 1)) =~= range_refsettlements(m.take(i as int)).push(c@));
                                    assert(views(r@) =~= first + range_refsettlements(
                                        m.take(i + 1),
                                    ));
                                },
                                None => {},
                            }
                            i = i + 1;
                        }
                        assert(m.take(rs@.len() as int) =~= m);
                    },
                    None => {
                        assert(views(r@) =~= seq![views(r@)[0]] + Seq::empty());
                    },
                }
            },
            None => {
                r.push(own);
                assert(views(r@) =~= seq![own@]);
            },
        }
        r
    }

    pub fn get_street_filters(&self) -> (r: Vec<String>)
        ensures
            views(r@) == or_empty(self.model().street_filters),
    {
        match &self.dict.street_filters {
            Some(v) => copy_strings(v),
            None => Vec::new(),
        }
    }

    pub fn get_osm_street_filters(&self) -> (r: Vec<String>)
        ensures
            views(r@) == or_empty(self.model().osm_street_filters),
    {
        match &self.dict.osm_street_filters {
            Some(v) => copy_strings(v),
            None => Vec::new(),
        }
    }

    pub fn get_alias(&self) -> (r: Vec<String>)
        ensures
            views(r@) == or_empty(self.model().alias),
    {
        match &self.dict.alias {
            Some(v) => copy_strings(v),
            None => Vec::new(),
        }
    }

    /// Whether letter suffixes (`42/A`) are kept apart from the plain number.
    pub fn should_check_housenumber_letters(&self) -> (r: bool)
        ensures
            r == self.model().letters(),
    {
        match self.dict.housenumber_letters {
            Some(b) => b,
            None => false,
        }
    }

    pub fn get_letter_suffix_style(&self) -> (r: LetterSuffixStyle)
        ensures
            r == self.model().style(),
    {
        match self.dict.letter_suffix_style {
            Some(s) => s,
            None => LetterSuffixStyle::Upper,
        }
    }

    pub fn set_letter_suffix_style(&mut self, style: LetterSuffixStyle)
        ensures
            final(self).model() == (DictModel { letter_suffix_style: Some(style), ..old(self).model() }),
    {
        self.dict.letter_suffix_style = Some(style);
    }

    /// `yes`, `no` or `only`: whether missing streets are looked for, and
    /// whether only they are.
    pub fn should_check_missing_streets(&self) -> (r: String)
        ensures
            r@ == or_text(self.model().missing_streets, "yes"@),
    {
        match &self.dict.missing_streets {
            Some(v) => v.clone(),
            None => "yes".to_owned(),
        }
    }

    pub fn is_active(&self) -> (r: bool)
        ensures
            r == self.model().active(),
    {
        match self.dict.inactive {
            Some(b) => !b,
            None => true,
        }
    }

    pub fn set_active(&mut self, active: bool)
        ensures
            final(self).model() == (DictModel { inactive: Some(!active), ..old(self).model() }),
            final(self).model().active() == active,
    {
        self.dict.inactive = Some(!active);
    }
}

/// Switches letter suffixes on or off.
pub fn set_config_housenumber_letters(config: &mut RelationConfig, housenumber_letters: bool)
    ensures
        final(config).model() == (DictModel {
            housenumber_letters: Some(housenumber_letters),
            ..old(config).model()
        }),
{
    config.dict.housenumber_letters = Some(housenumber_letters);
}

/// Replaces the street-level settings.
pub fn set_config_filters(config: &mut RelationConfig, filters: &Vec<StreetFilter>)
    ensures
        final(config).model() == (DictModel {
            filters: Some(filters_view(filters@)),
            ..old(config).model()
        }),
{
    config.dict.filters = Some(copy_filters(filters));
}

} // verus!
