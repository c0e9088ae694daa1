//! The registry of all relations: which exist, which are active, their
//! aliases, and the display names of reference areas.

use vstd::prelude::*;
use crate::config::{or_empty, or_text, DictModel, RelationConfig, RelationDict};
use crate::relation::{Relation, RelationError};
use crate::text::{str_eq, views};

verus! {

/// All relations: those listed (with the area-level layer of each), the
/// relations' own layers, those materialized so far, and the names of
/// reference counties and settlements.
#[derive(Debug)]
pub struct Relations {
    pub dicts: Vec<(String, RelationDict)>,
    pub own: Vec<(String, RelationDict)>,
    pub relations: Vec<Relation>,
    pub refcounty_names: Vec<(String, String)>,
    pub refsettlement_names: Vec<(String, Vec<(String, String)>)>,
    pub activate_all: bool,
}

/// The index of the first entry named `name`.
pub open spec fn find_dict(v: Seq<(String, RelationDict)>, name: Seq<char>) -> Option<int>
    decreases v.len(),
{
    if v.len() == 0 {
        None
    } else if v[0].0@ == name {
        Some(0)
    } else {
        match find_dict(v.drop_first(), name) {
            Some(i) => Some(i + 1),
            None => None,
        }
    }
}

pub open spec fn find_relation(v: Seq<Relation>, name: Seq<char>) -> Option<int>
    decreases v.len(),
{
    if v.len() == 0 {
        None
    } else if v[0].name@ == name {
        Some(0)
    } else {
        match find_relation(v.drop_first(), name) {
            Some(i) => Some(i + 1),
            None => None,
        }
    }
}

pub open spec fn empty_model() -> DictModel {
    DictModel {
        osmrelation: None,
        refcounty: None,
        refsettlement: None,
        filters: None,
        refstreets: None,
        street_filters: None,
        osm_street_filters: None,
        housenumber_letters: None,
        letter_suffix_style: None,
        missing_streets: None,
        inactive: None,
        alias: None,
    }
}

impl Relations {
    pub open spec fn listed(&self, name: Seq<char>) -> bool {
        find_dict(self.dicts@, name) is Some
    }

    /// Whether a relation of this name can be had: listed, or with a layer
    /// of its own.
    pub open spec fn known(&self, name: Seq<char>) -> bool {
        self.listed(name) || find_dict(self.own@, name) is Some || find_relation(self.relations@, name) is Some
    }

    /// The settings a relation of this name has when it is first had.
    pub open spec fn fresh_model(&self, name: Seq<char>) -> DictModel {
        let parent = match find_dict(self.dicts@, name) {
            Some(i) => self.dicts@[i].1@,
            None => empty_model(),
        };
        let own = match find_dict(self.own@, name) {
            Some(i) => self.own@[i].1@,
            None => empty_model(),
        };
        let m = own.layered(parent);
        if self.activate_all {
            DictModel { inactive: Some(false), ..m }
        } else {
            m
        }
    }

    /// The settings of the relation `name`: as materialized, else fresh.
    pub open spec fn config_of(&self, name: Seq<char>) -> DictModel {
        match find_relation(self.relations@, name) {
            Some(i) => self.relations@[i].config.model(),
            None => self.fresh_model(name),
        }
    }

    pub open spec fn names(&self) -> Seq<Seq<char>> {
        dict_names(self.dicts@)
    }

    pub open spec fn is_active(&self, name: Seq<char>) -> bool {
        self.config_of(name).active()
    }

    pub open spec fn wf(&self) -> bool {
        forall|i: int| 0 <= i < self.relations@.len() ==> find_relation(self.relations@, #[trigger] self.relations@[i].name@) == Some(i)
    }

    /// Nothing that decides a relation's settings changed between `self` and
    /// `o`.
    pub open spec fn same_configs(&self, o: &Relations) -> bool {
        &&& forall|name: Seq<char>| #[trigger] o.config_of(name) == self.config_of(name)
        &&& forall|name: Seq<char>| #[trigger] o.known(name) == self.known(name)
        &&& o.dicts@ == self.dicts@
        &&& o.own@ == self.own@
        &&& o.activate_all == self.activate_all
        &&& o.refcounty_names@ == self.refcounty_names@
        &&& o.refsettlement_names@ == self.refsettlement_names@
    }

    /// A registry from the listed relations (`dicts`, with the area-level
    /// layer of each), the relations' own layers, and the names of reference
    /// counties and (by county) settlements.
    pub fn new(
        dicts: Vec<(String, RelationDict)>,
        own: Vec<(String, RelationDict)>,
        refcounty_names: Vec<(String, String)>,
        refsettlement_names: Vec<(String, Vec<(String, String)>)>,
    ) -> (r: Relations)
        ensures
            r.dicts@ == dicts@,
            r.own@ == own@,
            r.relations@.len() == 0,
            !r.activate_all,
            r.wf(),
            r.refcounty_names@ == refcounty_names@,
            r.refsettlement_names@ == refsettlement_names@,
    {
        Relations { dicts, own, relations: Vec::new(), refcounty_names, refsettlement_names, activate_all: false }
    }

    fn find_in(v: &Vec<(String, RelationDict)>, name: &str) -> (r: Option<usize>)
        ensures
            match r {
                Some(i) => find_dict(v@, name@) == Some(i as int) && i < v@.len(),
                None => find_dict(v@, name@) is None,
            },
    {
        proof {
            lemma_find_dict_bound(v@, name@);
        }
        let mut i: usize = 0;
        assert(v@.skip(0) =~= v@);
        while i < v.len()
            invariant
                i <= v@.len(),
                find_dict(v@, name@) == match find_dict(v@.skip(i as int), name@) {
                    Some(k) => Some(k + i),
                    None => None,
                },
            decreases v@.len() - i,
        {
            assert(v@.skip(i as int).drop_first() =~= v@.skip(i + 1));
            assert(v@.skip(i as int)[0] == v@[i as int]);
            if str_eq(v[i].0.as_str(), name) {
                return Some(i);
            }
            i = i + 1;
        }
        None
    }

    fn find_cached(&self, name: &str) -> (r: Option<usize>)
        ensures
            match r {
                Some(i) => find_relation(self.relations@, name@) == Some(i as int) && i < self.relations@.len(),
                None => find_relation(self.relations@, name@) is None,
            },
    {
        let v = &self.relations;
        let mut i: usize = 0;
        assert(v@.skip(0) =~= v@);
        while i < v.len()
            invariant
                i <= v@.len(),
                v == &self.relations,
                find_relation(v@, name@) == match find_relation(v@.skip(i as int), name@) {
                    Some(k) => Some(k + i),
                    None => None,
                },
            decreases v@.len() - i,
        {
            assert(v@.skip(i as int).drop_first() =~= v@.skip(i + 1));
            assert(v@.skip(i as int)[0] == v@[i as int]);
            if str_eq(v[i].name.as_str(), name) {
                return Some(i);
            }
            i = i + 1;
        }
        None
    }

    /// The relation `name`, materialized on first use: listed ones, and those
    /// that only have a layer of their own. Fails for any other name.
    pub fn get_relation(&mut self, name: &str) -> (r: Result<Relation, RelationError>)
        requires
            old(self).wf(),
        ensures
            final(self).wf(),
            old(self).same_configs(final(self)),
            r is Ok <==> old(self).known(name@),
            r is Ok ==> r->Ok_0.name@ == name@ && r->Ok_0.config.model() == old(self).config_of(name@),
            r is Ok ==> find_relation(final(self).relations@, name@) is Some,
            r is Err ==> r->Err_0 == RelationError::UnknownRelation,
            forall|n: Seq<char>| #[trigger] find_relation(old(self).relations@, n) is Some ==> find_relation(final(self).relations@, n) is Some,
    {
        proof {
            lemma_find_relation_bound(self.relations@, name@);
        }
        match self.find_cached(name) {
            Some(i) => {
                return Ok(self.relations[i].duplicate());
            },
            None => {},
        }
        let parent = Self::find_in(&self.dicts, name);
        let own = Self::find_in(&self.own, name);
        if parent.is_none() && own.is_none() {
            return Err(RelationError::UnknownRelation);
        }
        let empty = RelationDict::empty();
        let p = match parent {
            Some(i) => &self.dicts[i].1,
            None => &empty,
        };
        let o = match own {
            Some(i) => &self.own[i].1,
            None => &empty,
        };
        let mut config = RelationConfig::new(p, o);
        if self.activate_all {
            config.set_active(true);
        }
        let relation = Relation::new(name, &config);
        let ghost old_self = *self;
        let ghost rel = relation;
        self.relations.push(relation);
        proof {
            lemma_find_relation_push(old_self.relations@, rel);
            assert forall|i: int| 0 <= i < self.relations@.len() implies find_relation(self.relations@, #[trigger] self.relations@[i].name@) == Some(i) by {
                if i < old_self.relations@.len() {
                    assert(self.relations@[i] == old_self.relations@[i]);
                }
            }
            assert forall|n: Seq<char>| #[trigger] self.config_of(n) == old_self.config_of(n) by {
                if n != name@ {
                    assert(find_relation(self.relations@, n) == find_relation(old_self.relations@, n));
                    lemma_find_relation_bound(old_self.relations@, n);
                    if let Some(k) = find_relation(old_self.relations@, n) {
                        assert(self.relations@[k] == old_self.relations@[k]);
                    }
                }
            }
            assert forall|n: Seq<char>| #[trigger] self.known(n) == old_self.known(n) by {
                if n == name@ {
                    assert(old_self.known(n));
                }
            }
        }
        let r = self.relations[self.relations.len() - 1].duplicate();
        Ok(r)
    }

    /// The listed relation names, in the order they are listed.
    pub fn get_names(&self) -> (r: Vec<String>)
        ensures
            views(r@) == self.names(),
    {
        let mut r: Vec<String> = Vec::new();
        let mut i: usize = 0;
        while i < self.dicts.len()
            invariant
                i <= self.dicts@.len(),
                views(r@) == self.names().take(i as int),
            decreases self.dicts@.len() - i,
        {
            assert(self.names()[i as int] == self.dicts@[i as int].0@);
            let ghost b = r@;
            r.push(self.dicts[i].0.clone());
            assert(views(r@) =~= views(b).push(self.dicts@[i as int].0@));
            i = i + 1;
            assert(views(r@) =~= self.names().take(i as int));
        }
        assert(self.names().take(self.dicts@.len() as int) =~= self.names());
        r
    }

    /// The listed relations whose settings say they are active.
    pub fn get_active_names(&mut self) -> (r: Result<Vec<String>, RelationError>)
        requires
            old(self).wf(),
        ensures
            final(self).wf(),
            old(self).same_configs(final(self)),
            r is Ok,
            views(r->Ok_0@) == active_of(old(self).names(), |n: Seq<char>| old(self).is_active(n)),
    {
        let names = self.get_names();
        let ghost start = *self;
        let ghost act = |n: Seq<char>| start.is_active(n);
        let mut r: Vec<String> = Vec::new();
        let mut i: usize = 0;
        assert(views(names@).len() == names@.len());
        assert(start.names().take(0) =~= Seq::<Seq<char>>::empty());
        while i < names.len()
            invariant
                i <= names@.len(),
                views(names@) == start.names(),
                names@.len() == start.dicts@.len(),
                self.wf(),
                start.same_configs(self),
                act == (|n: Seq<char>| start.is_active(n)),
                views(r@) == active_of(start.names().take(i as int), act),
            decreases names@.len() - i,
        {
            assert(start.names().take(i + 1).drop_last() =~= start.names().take(i as int));
            assert(start.names()[i as int] == names@[i as int]@);
            assert(start.listed(names@[i as int]@)) by {
                assert(views(names@)[i as int] == start.dicts@[i as int].0@);
                lemma_listed_name(start.dicts@, i as int);
            }
            let ghost before = *self;
            let relation = self.get_relation(names[i].as_str());
            match relation {
                Ok(rel) => {
                    if rel.config.is_active() {
                        let ghost b = r@;
                        r.push(names[i].clone());
                        assert(views(r@) =~= views(b).push(names@[i as int]@));
                    }
                },
                Err(_) => {},
            }
            i = i + 1;
        }
        assert(start.names().take(names@.len() as int) =~= start.names());
        Ok(r)
    }

    /// Makes every relation active (or leaves each as its settings say).
    pub fn activate_all(&mut self, flag: bool)
        requires
            old(self).wf(),
        ensures
            final(self).wf(),
            final(self).activate_all == flag,
            final(self).dicts@ == old(self).dicts@,
            final(self).own@ == old(self).own@,
            forall|n: Seq<char>| #[trigger] final(self).known(n) == old(self).known(n),
            flag ==> forall|n: Seq<char>| old(self).known(n) ==> #[trigger] final(self).is_active(n),
            !flag ==> final(self).relations@ == old(self).relations@,
    {
        self.activate_all = flag;
        if !flag {
            return;
        }
        let mut i: usize = 0;
        let ghost start = *self;
        while i < self.relations.len()
            invariant
                i <= self.relations@.len(),
                self.relations@.len() == start.relations@.len(),
                self.dicts@ == start.dicts@,
                self.own@ == start.own@,
                self.activate_all == flag,
                flag,
                forall|k: int| 0 <= k < self.relations@.len() ==> #[trigger] self.relations@[k].name@ == start.relations@[k].name@,
                forall|k: int| 0 <= k < i ==> (#[trigger] self.relations@[k]).config.model().active(),
                start.wf(),
            decreases self.relations@.len() - i,
        {
            let mut rel = self.relations[i].duplicate();
            rel.config.set_active(true);
            self.relations.set(i, rel);
            i = i + 1;
        }
        proof {
            lemma_same_names_find(start.relations@, self.relations@);
            assert forall|i: int| 0 <= i < self.relations@.len() implies find_relation(self.relations@, #[trigger] self.relations@[i].name@) == Some(i) by {
                assert(find_relation(start.relations@, start.relations@[i].name@) == Some(i));
            }
            assert forall|n: Seq<char>| #[trigger] self.known(n) == start.known(n) by {
                assert(find_relation(self.relations@, n) == find_relation(start.relations@, n));
            }
            assert forall|n: Seq<char>| start.known(n) implies #[trigger] self.is_active(n) by {
                match find_relation(self.relations@, n) {
                    Some(k) => {
                        lemma_find_relation_bound(self.relations@, n);
                        assert(self.relations@[k].config.model().active());
                    },
                    None => {},
                }
            }
        }
    }
}

pub open spec fn dict_names(v: Seq<(String, RelationDict)>) -> Seq<Seq<char>> {
    v.map_values(|d: (String, RelationDict)| d.0@)
}

proof fn lemma_find_dict_bound(v: Seq<(String, RelationDict)>, n: Seq<char>)
    ensures
        find_dict(v, n) matches Some(k) ==> 0 <= k < v.len() && v[k].0@ == n,
    decreases v.len(),
{
    if v.len() > 0 && v[0].0@ != n {
        lemma_find_dict_bound(v.drop_first(), n);
    }
}

/// `after` is `before` with the listed relations that `keep` refuses made
/// inactive; nothing else changed.
pub open spec fn limited(before: Relations, after: Relations, keep: spec_fn(DictModel) -> bool) -> bool {
    &&& after.wf()
    &&& after.dicts@ == before.dicts@
    &&& after.own@ == before.own@
    &&& after.activate_all == before.activate_all
    &&& after.refcounty_names@ == before.refcounty_names@
    &&& after.refsettlement_names@ == before.refsettlement_names@
    &&& forall|n: Seq<char>| #[trigger] after.known(n) == before.known(n)
    &&& forall|n: Seq<char>|
        #[trigger] after.config_of(n) == if before.listed(n) && !keep(before.config_of(n)) {
            DictModel { inactive: Some(true), ..before.config_of(n) }
        } else {
            before.config_of(n)
        }
}

/// Limiting relations to a reference county or settlement can only make
/// fewer of them active, never more.
pub proof fn lemma_limit_only_shrinks(before: Relations, after: Relations, keep: spec_fn(DictModel) -> bool)
    requires
        limited(before, after, keep),
    ensures
        forall|n: Seq<char>| #[trigger] after.is_active(n) ==> before.is_active(n),
{
    assert forall|n: Seq<char>| #[trigger] after.is_active(n) implies before.is_active(n) by {
        assert(after.config_of(n) == if before.listed(n) && !keep(before.config_of(n)) {
            DictModel { inactive: Some(true), ..before.config_of(n) }
        } else {
            before.config_of(n)
        });
    }
}

pub open spec fn in_county(code: Seq<char>) -> spec_fn(DictModel) -> bool {
    |m: DictModel| or_text(m.refcounty, Seq::empty()) == code
}

pub open spec fn in_settlement(code: Seq<char>) -> spec_fn(DictModel) -> bool {
    |m: DictModel| or_text(m.refsettlement, Seq::empty()) == code
}

impl Relations {
    /// Makes the materialized relation `k` inactive.
    fn deactivate(&mut self, k: usize)
        requires
            old(self).wf(),
            k < old(self).relations@.len(),
        ensures
            final(self).wf(),
            final(self).dicts@ == old(self).dicts@,
            final(self).own@ == old(self).own@,
            final(self).activate_all == old(self).activate_all,
            final(self).refcounty_names@ == old(self).refcounty_names@,
            final(self).refsettlement_names@ == old(self).refsettlement_names@,
            final(self).relations@.len() == old(self).relations@.len(),
            forall|n: Seq<char>| #[trigger] find_relation(final(self).relations@, n) == find_relation(old(self).relations@, n),
            forall|n: Seq<char>| #[trigger] final(self).config_of(n) == if n == old(self).relations@[k as int].name@ {
                DictModel { inactive: Some(true), ..old(self).config_of(n) }
            } else {
                old(self).config_of(n)
            },
    {
        let ghost start = *self;
        let mut rel = self.relations[k].duplicate();
        rel.config.set_active(false);
        self.relations.set(k, rel);
        proof {
            assert forall|j: int| 0 <= j < self.relations@.len() implies #[trigger] self.relations@[j].name@ == start.relations@[j].name@ by {}
            lemma_same_names_find(start.relations@, self.relations@);
            assert forall|i: int| 0 <= i < self.relations@.len() implies find_relation(self.relations@, #[trigger] self.relations@[i].name@) == Some(i) by {
                assert(find_relation(start.relations@, start.relations@[i].name@) == Some(i));
            }
            assert forall|n: Seq<char>| #[trigger] self.config_of(n) == if n == start.relations@[k as int].name@ {
                DictModel { inactive: Some(true), ..start.config_of(n) }
            } else {
                start.config_of(n)
            } by {
                lemma_find_relation_bound(start.relations@, n);
                if n == start.relations@[k as int].name@ {
                    assert(find_relation(start.relations@, n) == Some(k as int));
                }
            }
        }
    }

    /// Keeps active only the listed relations that `keep` accepts.
    fn limit(&mut self, keep_county: bool, code: &String) -> (r: Result<(), RelationError>)
        requires
            old(self).wf(),
        ensures
            r is Ok,
            limited(*old(self), *final(self), if keep_county { in_county(code@) } else { in_settlement(code@) }),
    {
        let ghost keep = if keep_county { in_county(code@) } else { in_settlement(code@) };
        let ghost start = *self;
        let names = self.get_names();
        let mut i: usize = 0;
        assert(views(names@).len() == names@.len());
        while i < names.len()
            invariant
                i <= names@.len(),
                views(names@) == start.names(),
                names@.len() == start.dicts@.len(),
                keep == if keep_county { in_county(code@) } else { in_settlement(code@) },
                self.wf(),
                self.dicts@ == start.dicts@,
                self.own@ == start.own@,
                self.activate_all == start.activate_all,
                self.refcounty_names@ == start.refcounty_names@,
                self.refsettlement_names@ == start.refsettlement_names@,
                forall|n: Seq<char>| #[trigger] self.known(n) == start.known(n),
                forall|n: Seq<char>|
                    #[trigger] self.config_of(n) == if views(names@).take(i as int).contains(n) && !keep(start.config_of(n)) {
                        DictModel { inactive: Some(true), ..start.config_of(n) }
                    } else {
                        start.config_of(n)
                    },
            decreases names@.len() - i,
        {
            let ghost before = *self;
            let ghost n = names@[i as int]@;
            assert(views(names@)[i as int] == n);
            assert(start.listed(n)) by {
                assert(views(names@)[i as int] == start.dicts@[i as int].0@);
                lemma_listed_name(start.dicts@, i as int);
            }
            let rel = self.get_relation(names[i].as_str());
            let ok = match rel {
                Ok(rel) => {
                    let value = if keep_county {
                        rel.config.get_refcounty()
                    } else {
                        rel.config.get_refsettlement()
                    };
                    value == *code
                },
                Err(_) => true,
            };
            let ghost mid = *self;
            assert(views(names@).take(i + 1) =~= views(names@).take(i as int).push(n));
            proof {
                crate::streets::lemma_push_contains(views(names@).take(i as int), n);
            }
            if !ok {
                let k = self.find_cached(names[i].as_str());
                match k {
                    Some(k) => {
                        proof {
                            lemma_find_relation_bound(self.relations@, n);
                        }
                        self.deactivate(k);
                        assert forall|m: Seq<char>| #[trigger] self.known(m) == mid.known(m) by {
                            assert(find_relation(self.relations@, m) == find_relation(mid.relations@, m));
                        }
                    },
                    None => {},
                }
            }
            assert forall|m: Seq<char>|
                #[trigger] self.config_of(m) == if views(names@).take(i + 1).contains(m) && !keep(start.config_of(m)) {
                    DictModel { inactive: Some(true), ..start.config_of(m) }
                } else {
                    start.config_of(m)
                } by {
                assert(mid.config_of(m) == before.config_of(m));
                if m == n {
                    assert(ok == keep(start.config_of(n)));
                }
            }
            i = i + 1;
        }
        proof {
            assert forall|n: Seq<char>| #[trigger] start.listed(n) == views(names@).contains(n) by {
                lemma_listed_names(start.dicts@, n);
            }
            assert(views(names@).take(names@.len() as int) =~= views(names@));
        }
        Ok(())
    }

    /// Keeps active only the relations in the reference county `refcounty`;
    /// `None` changes nothing.
    pub fn limit_to_refcounty(&mut self, refcounty: &Option<String>) -> (r: Result<(), RelationError>)
        requires
            old(self).wf(),
        ensures
            r is Ok,
            match refcounty {
                Some(c) => limited(*old(self), *final(self), in_county(c@)),
                None => *final(self) == *old(self),
            },
    {
        match refcounty {
            Some(c) => self.limit(true, c),
            None => Ok(()),
        }
    }

    /// Keeps active only the relations in the reference settlement
    /// `refsettlement`; `None` changes nothing.
    pub fn limit_to_refsettlement(&mut self, refsettlement: &Option<String>) -> (r: Result<(), RelationError>)
        requires
            old(self).wf(),
        ensures
            r is Ok,
            match refsettlement {
                Some(c) => limited(*old(self), *final(self), in_settlement(c@)),
                None => *final(self) == *old(self),
            },
    {
        match refsettlement {
            Some(c) => self.limit(false, c),
            None => Ok(()),
        }
    }
}

/// (alias, `n`) for each of `aliases`.
pub open spec fn pair_with(aliases: Seq<Seq<char>>, n: Seq<char>) -> Seq<(Seq<char>, Seq<char>)> {
    aliases.map_values(|a: Seq<char>| (a, n))
}

pub open spec fn firsts(ps: Seq<(Seq<char>, Seq<char>)>) -> Seq<Seq<char>> {
    ps.map_values(|p: (Seq<char>, Seq<char>)| p.0)
}

/// (alias, name) for each alias of each of `names`, in order.
pub open spec fn alias_pairs(names: Seq<Seq<char>>, cfg_of: spec_fn(Seq<char>) -> DictModel) -> Seq<(Seq<char>, Seq<char>)>
    decreases names.len(),
{
    if names.len() == 0 {
        Seq::empty()
    } else {
        let n = names.last();
        alias_pairs(names.drop_last(), cfg_of) + pair_with(or_empty(cfg_of(n).alias), n)
    }
}

impl Relations {
    /// Every alias of every listed relation, paired with the relation's name.
    pub fn get_aliases(&mut self) -> (r: Result<Vec<(String, String)>, RelationError>)
        requires
            old(self).wf(),
        ensures
            final(self).wf(),
            old(self).same_configs(final(self)),
            r is Ok,
            crate::config::pairs_view(r->Ok_0@) == alias_pairs(old(self).names(), |n: Seq<char>| old(self).config_of(n)),
    {
        let names = self.get_names();
        let ghost start = *self;
        let ghost cfg_of = |n: Seq<char>| start.config_of(n);
        let mut r: Vec<(String, String)> = Vec::new();
        let mut i: usize = 0;
        assert(views(names@).len() == names@.len());
        assert(start.names().take(0) =~= Seq::<Seq<char>>::empty());
        while i < names.len()
            invariant
                i <= names@.len(),
                views(names@) == start.names(),
                names@.len() == start.dicts@.len(),
                self.wf(),
                start.same_configs(self),
                cfg_of == (|n: Seq<char>| start.config_of(n)),
                crate::config::pairs_view(r@) == alias_pairs(start.names().take(i as int), cfg_of),
            decreases names@.len() - i,
        {
            let ghost n = names@[i as int]@;
            assert(start.names().take(i + 1).drop_last() =~= start.names().take(i as int));
            assert(start.names()[i as int] == n);
            assert(start.listed(n)) by {
                assert(views(names@)[i as int] == start.dicts@[i as int].0@);
                lemma_listed_name(start.dicts@, i as int);
            }
            match self.get_relation(names[i].as_str()) {
                Ok(rel) => {
                    let aliases = rel.config.get_alias();
                    let ghost before = crate::config::pairs_view(r@);
                    let ghost al = or_empty(start.config_of(n).alias);
                    let mut k: usize = 0;
                    while k < aliases.len()
                        invariant
                            k <= aliases@.len(),
                            views(aliases@) == al,
                            crate::config::pairs_view(r@) == before + pair_with(al.take(k as int), n),
                            names@[i as int]@ == n,
                            i < names@.len(),
                        decreases aliases@.len() - k,
                    {
                        let ghost b = r@;
                        r.push((aliases[k].clone(), names[i].clone()));
                        assert(crate::config::pairs_view(r@) =~= crate::config::pairs_view(b).push((al[k as int], n)));
                        assert(pair_with(al.take(k + 1), n) =~= pair_with(al.take(k as int), n).push((al[k as int], n)));
                        k = k + 1;
                        assert(crate::config::pairs_view(r@) =~= before + pair_with(al.take(k as int), n));
                    }
                    assert(al.take(aliases@.len() as int) =~= al);
                },
                Err(_) => {},
            }
            i = i + 1;
        }
        assert(start.names().take(names@.len() as int) =~= start.names());
        Ok(r)
    }

    /// Every listed relation, materialized.
    pub fn get_relations(&mut self) -> (r: Result<Vec<Relation>, RelationError>)
        requires
            old(self).wf(),
        ensures
            final(self).wf(),
            old(self).same_configs(final(self)),
            r is Ok,
            r->Ok_0@.len() == old(self).names().len(),
            forall|i: int| 0 <= i < r->Ok_0@.len() ==> (#[trigger] r->Ok_0@[i]).name@ == old(self).names()[i]
                && r->Ok_0@[i].config.model() == old(self).config_of(old(self).names()[i]),
    {
        let names = self.get_names();
        let ghost start = *self;
        let mut r: Vec<Relation> = Vec::new();
        let mut i: usize = 0;
        assert(views(names@).len() == names@.len());
        while i < names.len()
            invariant
                i <= names@.len(),
                views(names@) == start.names(),
                names@.len() == start.dicts@.len(),
                self.wf(),
                start.same_configs(self),
                r@.len() == i,
                forall|k: int| 0 <= k < i ==> (#[trigger] r@[k]).name@ == start.names()[k]
                    && r@[k].config.model() == start.config_of(start.names()[k]),
            decreases names@.len() - i,
        {
            assert(views(names@)[i as int] == names@[i as int]@);
            assert(start.listed(names@[i as int]@)) by {
                assert(views(names@)[i as int] == start.dicts@[i as int].0@);
                lemma_listed_name(start.dicts@, i as int);
            }
            match self.get_relation(names[i].as_str()) {
                Ok(rel) => {
                    r.push(rel);
                },
                Err(_) => {},
            }
            i = i + 1;
        }
        Ok(r)
    }

    /// The display name of the reference county `code`; empty if unknown.
    pub fn refcounty_get_name(&self, code: &str) -> (r: String)
        ensures
            r@ == or_text(lookup(crate::config::pairs_view(self.refcounty_names@), code@), Seq::empty()),
    {
        lookup_name(&self.refcounty_names, code)
    }

    /// The settlement codes known in the reference county `code`, in order.
    pub fn refcounty_get_refsettlement_ids(&self, code: &str) -> (r: Vec<String>)
        ensures
            views(r@) == match find_county(self.refsettlement_names@, code@) {
                Some(k) => firsts(crate::config::pairs_view(self.refsettlement_names@[k].1@)),
                None => Seq::empty(),
            },
    {
        proof {
            lemma_find_county_bound(self.refsettlement_names@, code@);
        }
        match county_index(&self.refsettlement_names, code) {
            Some(k) => {
                let v = &self.refsettlement_names[k].1;
                let ghost want = firsts(crate::config::pairs_view(v@));
                let mut r: Vec<String> = Vec::new();
                let mut i: usize = 0;
                while i < v.len()
                    invariant
                        i <= v@.len(),
                        want == firsts(crate::config::pairs_view(v@)),
                        views(r@) == want.take(i as int),
                    decreases v@.len() - i,
                {
                    let ghost b = r@;
                    r.push(v[i].0.clone());
                    assert(want[i as int] == v@[i as int].0@);
                    assert(views(r@) =~= views(b).push(v@[i as int].0@));
                    i = i + 1;
                    assert(views(r@) =~= want.take(i as int));
                }
                assert(want.take(v@.len() as int) =~= want);
                r
            },
            None => Vec::new(),
        }
    }

    /// The display name of the settlement `settlement` of the reference
    /// county `county`; empty if unknown.
    pub fn refsettlement_get_name(&self, county: &str, settlement: &str) -> (r: String)
        ensures
            r@ == match find_county(self.refsettlement_names@, county@) {
                Some(k) => or_text(lookup(crate::config::pairs_view(self.refsettlement_names@[k].1@), settlement@), Seq::empty()),
                None => Seq::empty(),
            },
    {
        proof {
            lemma_find_county_bound(self.refsettlement_names@, county@);
        }
        match county_index(&self.refsettlement_names, county) {
            Some(k) => lookup_name(&self.refsettlement_names[k].1, settlement),
            None => String::new(),
        }
    }
}

/// The value paired with `key`, first pair first.
pub open spec fn lookup(ps: Seq<(Seq<char>, Seq<char>)>, key: Seq<char>) -> Option<Seq<char>> {
    crate::config::find_value(ps, key)
}

fn lookup_name(v: &Vec<(String, String)>, key: &str) -> (r: String)
    ensures
        r@ == or_text(lookup(crate::config::pairs_view(v@), key@), Seq::empty()),
{
    let ghost m = crate::config::pairs_view(v@);
    let mut i: usize = 0;
    assert(m.skip(0) =~= m);
    while i < v.len()
        invariant
            i <= v@.len(),
            m == crate::config::pairs_view(v@),
            crate::config::find_value(m, key@) == crate::config::find_value(m.skip(i as int), key@),
        decreases v@.len() - i,
    {
        assert(m.skip(i as int).drop_first() =~= m.skip(i + 1));
        assert(m[i as int] == (v@[i as int].0@, v@[i as int].1@));
        assert(m.skip(i as int)[0] == m[i as int]);
        if str_eq(v[i].0.as_str(), key) {
            return v[i].1.clone();
        }
        i = i + 1;
    }
    String::new()
}

pub open spec fn find_county(v: Seq<(String, Vec<(String, String)>)>, code: Seq<char>) -> Option<int>
    decreases v.len(),
{
    if v.len() == 0 {
        None
    } else if v[0].0@ == code {
        Some(0)
    } else {
        match find_county(v.drop_first(), code) {
            Some(i) => Some(i + 1),
            None => None,
        }
    }
}

proof fn lemma_find_county_bound(v: Seq<(String, Vec<(String, String)>)>, code: Seq<char>)
    ensures
        find_county(v, code) matches Some(k) ==> 0 <= k < v.len(),
    decreases v.len(),
{
    if v.len() > 0 && v[0].0@ != code {
        lemma_find_county_bound(v.drop_first(), code);
    }
}

fn county_index(v: &Vec<(String, Vec<(String, String)>)>, code: &str) -> (r: Option<usize>)
    ensures
        match r {
            Some(i) => find_county(v@, code@) == Some(i as int),
            None => find_county(v@, code@) is None,
        },
{
    let mut i: usize = 0;
    assert(v@.skip(0) =~= v@);
    while i < v.len()
        invariant
            i <= v@.len(),
            find_county(v@, code@) == match find_county(v@.skip(i as int), code@) {
                Some(k) => Some(k + i),
                None => None,
            },
        decreases v@.len() - i,
    {
        assert(v@.skip(i as int).drop_first() =~= v@.skip(i + 1));
        assert(v@.skip(i as int)[0] == v@[i as int]);
        if str_eq(v[i].0.as_str(), code) {
            return Some(i);
        }
        i = i + 1;
    }
    None
}

proof fn lemma_listed_names(v: Seq<(String, RelationDict)>, n: Seq<char>)
    ensures
        (find_dict(v, n) is Some) == dict_names(v).contains(n),
    decreases v.len(),
{
    if v.len() > 0 {
        lemma_listed_names(v.drop_first(), n);
        assert(dict_names(v.drop_first()) =~= dict_names(v).drop_first());
        if dict_names(v).contains(n) && v[0].0@ != n {
            let k = choose|k: int| 0 <= k < dict_names(v).len() && dict_names(v)[k] == n;
            assert(k > 0);
            assert(dict_names(v.drop_first())[k - 1] == n);
        }
        if find_dict(v, n) is Some {
            if v[0].0@ == n {
                assert(dict_names(v)[0] == n);
            } else {
                let k = choose|k: int| 0 <= k < dict_names(v.drop_first()).len() && dict_names(v.drop_first())[k] == n;
                assert(dict_names(v)[k + 1] == n);
            }
        }
    }
}

/// The names of `names` that `act` holds, in order.
pub open spec fn active_of(names: Seq<Seq<char>>, act: spec_fn(Seq<char>) -> bool) -> Seq<Seq<char>>
    decreases names.len(),
{
    if names.len() == 0 {
        Seq::empty()
    } else if act(names.last()) {
        active_of(names.drop_last(), act).push(names.last())
    } else {
        active_of(names.drop_last(), act)
    }
}

proof fn lemma_listed_name(v: Seq<(String, RelationDict)>, i: int)
    requires
        0 <= i < v.len(),
    ensures
        find_dict(v, v[i].0@) is Some,
    decreases i,
{
    if i > 0 && v[0].0@ != v[i].0@ {
        lemma_listed_name(v.drop_first(), i - 1);
        assert(v.drop_first()[i - 1] == v[i]);
    }
}

proof fn lemma_find_relation_push(v: Seq<Relation>, r: Relation)
    requires
        find_relation(v, r.name@) is None,
    ensures
        find_relation(v.push(r), r.name@) == Some(v.len() as int),
        forall|n: Seq<char>| n != r.name@ ==> #[trigger] find_relation(v.push(r), n) == find_relation(v, n),
    decreases v.len(),
{
    if v.len() > 0 {
        lemma_find_relation_push(v.drop_first(), r);
        assert(v.push(r).drop_first() =~= v.drop_first().push(r));
        assert forall|n: Seq<char>| n != r.name@ implies #[trigger] find_relation(v.push(r), n) == find_relation(v, n) by {
            assert(v.push(r)[0] == v[0]);
            if v[0].name@ != n {
                assert(find_relation(v.drop_first().push(r), n) == find_relation(v.drop_first(), n));
            }
        }
    } else {
        assert(v.push(r)[0] == r);
        assert forall|n: Seq<char>| n != r.name@ implies #[trigger] find_relation(v.push(r), n) == find_relation(v, n) by {
            assert(v.push(r)[0] == r);
            assert(v.push(r).drop_first() =~= Seq::<Relation>::empty());
            assert(find_relation(Seq::<Relation>::empty(), n) is None);
            assert(find_relation(v.push(r).drop_first(), n) is None);
        }
    }
}

proof fn lemma_find_relation_bound(v: Seq<Relation>, n: Seq<char>)
    ensures
        find_relation(v, n) matches Some(k) ==> 0 <= k < v.len() && v[k].name@ == n,
    decreases v.len(),
{
    if v.len() > 0 && v[0].name@ != n {
        lemma_find_relation_bound(v.drop_first(), n);
    }
}

proof fn lemma_same_names_find(a: Seq<Relation>, b: Seq<Relation>)
    requires
        a.len() == b.len(),
        forall|k: int| 0 <= k < a.len() ==> #[trigger] b[k].name@ == a[k].name@,
    ensures
        forall|n: Seq<char>| #[trigger] find_relation(b, n) == find_relation(a, n),
    decreases a.len(),
{
    if a.len() > 0 {
        assert forall|k: int| 0 <= k < a.drop_first().len() implies #[trigger] b.drop_first()[k].name@ == a.drop_first()[k].name@ by {
            assert(b.drop_first()[k] == b[k + 1]);
            assert(a.drop_first()[k] == a[k + 1]);
        }
        lemma_same_names_find(a.drop_first(), b.drop_first());
        assert(b[0].name@ == a[0].name@);
        assert forall|n: Seq<char>| #[trigger] find_relation(b, n) == find_relation(a, n) by {
            assert(find_relation(b.drop_first(), n) == find_relation(a.drop_first(), n));
        }
    } else {
        assert forall|n: Seq<char>| #[trigger] find_relation(b, n) == find_relation(a, n) by {}
    }
}

} // verus!
