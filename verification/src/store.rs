//! The knowledge store: every known object with the time it was last seen, the
//! expiry queue it stands in, and the indexes by which objects are found.
//!
//! The store is described by its [`KnowledgeView`]. The expiry queues and the
//! second name index hold nothing that the view does not: they are kept in
//! step with it by every operation.

use vstd::prelude::*;
use vstd::hash_map::StringHashMap;
use std::collections::HashMap;
use crate::error::{bare_error, Error, ErrorKind};
use crate::expiry::{tier_index, tier_of, Tiers, Timestamp, TIERS};
use crate::names::NameIndex;
use crate::object::Object;
use crate::oids::{distinct, OidList};
use crate::store_model::{
    lemma_consider_consistent, lemma_evict_consistent, listed, relisted, unlisted, KnowledgeView,
    ObKnowView,
};
use crate::OID;

verus! {

/// The priority of an object that was never given one.
pub const DEFAULT_PRIORITY: i8 = 0;

/// The high-water mark of a new store: the first identifier handed out is the
/// next one.
pub const FIRST_KNOWN_ID: OID = 1;

/// What the store knows of one object.
#[derive(Debug, PartialEq, Eq)]
pub struct ObKnow {
    /// When the object was last seen.
    pub date_seen: Timestamp,
    pub ob: Object,
    /// Where the object stands among the expiry queues: the number of the
    /// queue that holds it. The queue gives its items no place that could be
    /// kept here: it finds them by their identifier.
    pub queue_place: u32,
    /// Lower priority gets expired more often.
    pub priority: i8,
}

impl View for ObKnow {
    type V = ObKnowView;

    open spec fn view(&self) -> ObKnowView {
        ObKnowView {
            date_seen: self.date_seen,
            ob: self.ob@,
            queue_place: self.queue_place,
            priority: self.priority,
        }
    }
}

/// Whether the second name index holds what the first holds.
spec fn mirrors(mirror: Map<Seq<char>, Vec<OID>>, names: Map<Seq<char>, Seq<OID>>) -> bool {
    &&& forall|name: Seq<char>| #[trigger] mirror.contains_key(name) <==> names.contains_key(name)
    &&& forall|name: Seq<char>| #[trigger] names.contains_key(name) ==> mirror[name]@ == names[name]
}

/// Lists `id` under `name` in both indexes.
fn list_name(index: &mut NameIndex, mirror: &mut StringHashMap<Vec<OID>>, name: &str, id: OID)
    requires
        old(index).wf(),
        mirrors(old(mirror)@, old(index)@),
    ensures
        final(index).wf(),
        final(index)@ == listed(old(index)@, name@, id),
        mirrors(final(mirror)@, final(index)@),
{
    let mut oids = match index.get(name) {
        Some(present) => {
            if present.contains(id) {
                return ;
            }
            present.duplicate()
        },
        None => OidList::new(),
    };
    oids.push(id);
    let copy = oids.to_vec();
    index.put(name, oids);
    mirror.insert(name.to_owned(), copy);
}

/// Takes `id` from under `name` in both indexes.
fn unlist_name(index: &mut NameIndex, mirror: &mut StringHashMap<Vec<OID>>, name: &str, id: OID)
    requires
        old(index).wf(),
        mirrors(old(mirror)@, old(index)@),
    ensures
        final(index).wf(),
        final(index)@ == unlisted(old(index)@, name@, id),
        mirrors(final(mirror)@, final(index)@),
{
    let rest = match index.get(name) {
        Some(present) => present.without(id),
        None => {
            return ;
        },
    };
    if rest.len() == 0 {
        index.remove(name);
        mirror.remove(name);
    } else {
        let copy = rest.to_vec();
        index.put(name, rest);
        mirror.insert(name.to_owned(), copy);
    }
}

/// An owned copy of a name, where there is one.
fn owned_name(name: Option<&str>) -> (copy: Option<String>)
    ensures
        match name {
            Some(text) => copy matches Some(owned) && owned@ == text@,
            None => copy is None,
        },
{
    match name {
        Some(text) => Some(text.to_owned()),
        None => None,
    }
}

/// The knowledge store.
pub struct Knowledge {
    ob_cache: HashMap<OID, ObKnow>,
    expiry_queues: Tiers,
    names_to_oids: NameIndex,
    oids_to_names: StringHashMap<Vec<OID>>,
    user_short_names: HashMap<OID, String>,
    max_known_id: OID,
}

impl View for Knowledge {
    type V = KnowledgeView;

    closed spec fn view(&self) -> KnowledgeView {
        KnowledgeView {
            objects: Map::new(
                |id: OID| self.ob_cache@.contains_key(id),
                |id: OID| self.ob_cache@[id]@,
            ),
            names: self.names_to_oids@,
            short_names: Map::new(
                |id: OID| self.user_short_names@.contains_key(id),
                |id: OID| self.user_short_names@[id]@,
            ),
            max_known_id: self.max_known_id,
        }
    }
}

impl Knowledge {
    /// Whether the store is in order: its view is consistent, every object
    /// stands in the expiry queue of its priority, keyed by the time it was
    /// last seen, nothing else stands in a queue, and the two name indexes
    /// agree.
    pub closed spec fn wf(&self) -> bool {
        &&& self@.consistent()
        &&& self.expiry_queues.wf()
        &&& self.names_to_oids.wf()
        &&& mirrors(self.oids_to_names@, self.names_to_oids@)
        &&& forall|tier: int, id: OID|
            0 <= tier < TIERS ==> (#[trigger] self.expiry_queues.entries(tier).contains_key(id)
                <==> (self.ob_cache@.contains_key(id) && tier_of(self.ob_cache@[id].priority)
                == tier))
        &&& forall|tier: int, id: OID|
            0 <= tier < TIERS && #[trigger] self.expiry_queues.entries(tier).contains_key(id)
                ==> self.expiry_queues.entries(tier)[id] == self.ob_cache@[id].date_seen
    }

    /// What the expiry queue of tier `tier` holds: identifiers, each with the
    /// time it is keyed by.
    pub closed spec fn queued(&self, tier: int) -> Map<OID, Timestamp> {
        self.expiry_queues.entries(tier)
    }

    /// What the second name index holds.
    pub closed spec fn names_mirror(&self) -> Map<Seq<char>, Seq<OID>> {
        Map::new(
            |name: Seq<char>| self.oids_to_names@.contains_key(name),
            |name: Seq<char>| self.oids_to_names@[name]@,
        )
    }

    /// What it means for a store to be in order. Its view is consistent. The
    /// expiry queue of each tier holds exactly the objects whose priority is of
    /// that tier, each keyed by the time it was last seen. The second name index
    /// holds what the first holds. So no index and no queue holds an identifier
    /// that is not the identifier of an object in the store.
    pub proof fn lemma_wf(&self)
        requires
            self.wf(),
        ensures
            self@.consistent(),
            forall|tier: int, id: OID|
                0 <= tier < TIERS ==> (#[trigger] self.queued(tier).contains_key(id) <==> (
                self@.objects.contains_key(id) && tier_of(self@.objects[id].priority) == tier)),
            forall|tier: int, id: OID|
                0 <= tier < TIERS && #[trigger] self.queued(tier).contains_key(id) ==> self.queued(
                    tier,
                )[id] == self@.objects[id].date_seen,
            self.names_mirror() == self@.names,
    {
        assert(self.names_mirror() =~= self@.names);
    }

    /// A store that knows nothing.
    pub fn new() -> (store: Knowledge)
        ensures
            store.wf(),
            store@ == KnowledgeView::empty(),
    {
        broadcast use vstd::std_specs::hash::group_hash_axioms;

        let store = Knowledge {
            ob_cache: HashMap::new(),
            expiry_queues: Tiers::new(),
            names_to_oids: NameIndex::new(),
            oids_to_names: StringHashMap::new(),
            user_short_names: HashMap::new(),
            max_known_id: FIRST_KNOWN_ID,
        };
        assert(store@.objects =~= Map::<OID, ObKnowView>::empty());
        assert(store@.short_names =~= Map::<OID, Seq<char>>::empty());
        store
    }

    /// The highest identifier known to be in use or handed out.
    pub fn max_known_id(&self) -> (id: OID)
        ensures
            id == self@.max_known_id,
    {
        self.max_known_id
    }

    /// Hands out a new identifier: the next above the high-water mark, which
    /// no object of the store has.
    pub fn gen_id(&mut self) -> (id: OID)
        requires
            old(self).wf(),
            old(self)@.max_known_id < u128::MAX,
        ensures
            final(self).wf(),
            id == old(self)@.max_known_id + 1,
            final(self)@ == (KnowledgeView { max_known_id: id, ..old(self)@ }),
            !old(self)@.objects.contains_key(id),
    {
        self.max_known_id += 1;
        proof {
            assert(self@.objects =~= old(self)@.objects);
            assert(self@.short_names =~= old(self)@.short_names);
            assert(self@ == (KnowledgeView { max_known_id: self.max_known_id, ..old(self)@ }));
            assert forall|id: OID, name: Seq<char>| #[trigger] self@.named(id, name) implies old(
                self,
            )@.named(id, name) by {}
        }
        self.max_known_id
    }

    /// Raises the high-water mark to `id` where it is below, so that no
    /// identifier handed out later is `id` or less.
    pub fn observe_id(&mut self, id: OID)
        requires
            old(self).wf(),
        ensures
            final(self).wf(),
            final(self)@ == old(self)@.observe(id),
    {
        if self.max_known_id < id {
            self.max_known_id = id;
        }
        proof {
            assert(self@.objects =~= old(self)@.objects);
            assert(self@.short_names =~= old(self)@.short_names);
            assert(self@ == old(self)@.observe(id));
            assert forall|x: OID, name: Seq<char>| #[trigger] self@.named(x, name) implies old(
                self,
            )@.named(x, name) by {}
        }
    }

    /// What the store knows of the object `id`.
    pub fn known(&self, id: OID) -> (r: Option<&ObKnow>)
        ensures
            match r {
                Some(known) => self@.objects.contains_key(id) && known@ == self@.objects[id],
                None => !self@.objects.contains_key(id),
            },
    {
        broadcast use vstd::std_specs::hash::group_hash_axioms;

        self.ob_cache.get(&id)
    }

    /// The object `id`, if the store knows it.
    pub fn lookup(&self, id: OID) -> (r: Option<&Object>)
        ensures
            match r {
                Some(ob) => self@.objects.contains_key(id) && ob@ == self@.objects[id].ob,
                None => !self@.objects.contains_key(id),
            },
    {
        match self.known(id) {
            Some(known) => Some(&known.ob),
            None => None,
        }
    }

    /// The identifiers of the objects that bear `name`, each once, in the
    /// order in which they came to bear it.
    pub fn lookup_by_name(&self, name: &str) -> (ids: Vec<OID>)
        requires
            self.wf(),
        ensures
            ids@ == (if self@.names.contains_key(name@) {
                self@.names[name@]
            } else {
                Seq::empty()
            }),
            distinct(ids@),
            forall|k: int| 0 <= k < ids@.len() ==> self@.named(#[trigger] ids@[k], name@),
    {
        let mut ids: Vec<OID> = Vec::new();
        match self.oids_to_names.get(name) {
            Some(listed) => {
                let mut i: usize = 0;
                while i < listed.len()
                    invariant
                        i <= listed@.len(),
                        ids@ == listed@.take(i as int),
                    decreases listed@.len() - i,
                {
                    ids.push(listed[i]);
                    assert(listed@.take(i + 1) =~= listed@.take(i as int).push(listed@[i as int]));
                    i += 1;
                }
                assert(listed@.take(i as int) =~= listed@);
            },
            None => {},
        }
        proof {
            if self@.names.contains_key(name@) {
                let listed = self@.names[name@];
                assert(ids@ == listed);
                assert(distinct(listed));
                assert forall|k: int| 0 <= k < listed.len() implies self@.named(
                    #[trigger] listed[k],
                    name@,
                ) by {
                    assert(self@.named(self@.names[name@][k], name@));
                }
            }
        }
        ids
    }

    /// The key under which `id` stands in the expiry queue of its priority:
    /// the time at which the object was last seen.
    pub fn expiry_key(&self, id: OID) -> (key: Option<Timestamp>)
        requires
            self.wf(),
        ensures
            key == (if self@.objects.contains_key(id) {
                Some(self@.objects[id].date_seen)
            } else {
                None
            }),
    {
        broadcast use vstd::std_specs::hash::group_hash_axioms;

        match self.ob_cache.get(&id) {
            Some(known) => {
                let tier = tier_index(known.priority);
                self.expiry_queues.key(tier, id)
            },
            None => None,
        }
    }

    /// The key under which `id` stands in the expiry queue of `priority`. An
    /// object stands in the queue of its own priority and in no other.
    pub fn queued_under(&self, priority: i8, id: OID) -> (key: Option<Timestamp>)
        requires
            self.wf(),
        ensures
            key == (if self@.objects.contains_key(id) && self@.objects[id].priority == priority {
                Some(self@.objects[id].date_seen)
            } else {
                None
            }),
    {
        self.expiry_queues.key(tier_index(priority), id)
    }

    /// Takes note of the object `ob` under `id`, seen at `now`: inserts it, or
    /// puts it in the place of what was known under `id`. Its expiry queue and
    /// both name indexes follow in the same step. The object is kept under
    /// `id`, whatever identifier it states itself.
    pub fn consider(&mut self, id: OID, ob: Object, now: Timestamp)
        requires
            old(self).wf(),
        ensures
            final(self).wf(),
            final(self)@ == old(self)@.consider(id, ob@, now),
            final(self)@.consistent(),
            final(self).queued(tier_of(old(self)@.priority_of(id))).contains_key(id),
            final(self).queued(tier_of(old(self)@.priority_of(id)))[id] == now,
    {
        broadcast use vstd::std_specs::hash::group_hash_axioms;

        proof {
            lemma_consider_consistent(self@, id, ob@, now);
        }
        let (priority, before) = match self.ob_cache.get(&id) {
            Some(known) => (known.priority, owned_name(known.ob.name())),
            None => (DEFAULT_PRIORITY, None),
        };
        let after = owned_name(ob.name());
        let ghost before_view = old(self)@.name_of(id);
        assert(match before {
            Some(text) => before_view == Some(text@),
            None => before_view is None,
        });
        match &before {
            Some(name) => {
                let same = match &after {
                    Some(other) => crate::text::text_eq(name.as_str(), other.as_str()),
                    None => false,
                };
                if !same {
                    unlist_name(
                        &mut self.names_to_oids,
                        &mut self.oids_to_names,
                        name.as_str(),
                        id,
                    );
                }
            },
            None => {},
        }
        match &after {
            Some(name) => {
                list_name(&mut self.names_to_oids, &mut self.oids_to_names, name.as_str(), id);
            },
            None => {},
        }
        assert(self.names_to_oids@ == relisted(old(self)@.names, before_view, ob@.name(), id));
        let tier = tier_index(priority);
        self.expiry_queues.push(tier, id, now);
        let known = ObKnow { date_seen: now, ob, queue_place: tier as u32, priority };
        self.ob_cache.insert(id, known);
        if self.max_known_id < id {
            self.max_known_id = id;
        }
        assert(self@.objects =~= old(self)@.consider(id, ob@, now).objects);
        assert(self@.short_names =~= old(self)@.short_names);
    }

    /// Gives the object `id` the priority `priority`. The object leaves the
    /// expiry queue it stood in and enters the queue of its new priority, keyed
    /// as before, in the same step.
    pub fn set_priority(&mut self, id: OID, priority: i8) -> (r: Result<(), Error>)
        requires
            old(self).wf(),
        ensures
            final(self).wf(),
            match r {
                Ok(_) => {
                    &&& old(self)@.objects.contains_key(id)
                    &&& final(self)@ == old(self)@.with_priority(id, priority)
                    &&& final(self).queued(tier_of(priority)).contains_key(id)
                    &&& final(self).queued(tier_of(priority))[id] == old(
                        self,
                    )@.objects[id].date_seen
                    &&& tier_of(old(self)@.objects[id].priority) != tier_of(priority)
                        ==> !final(self).queued(
                        tier_of(old(self)@.objects[id].priority),
                    ).contains_key(id)
                },
                Err(e) => !old(self)@.objects.contains_key(id) && final(self)@ == old(self)@
                    && e@ == bare_error(ErrorKind::NotFound(id)),
            },
    {
        broadcast use vstd::std_specs::hash::group_hash_axioms;

        let (from, seen) = match self.ob_cache.get(&id) {
            Some(known) => (tier_index(known.priority), known.date_seen),
            None => {
                return Err(Error::bare(ErrorKind::NotFound(id)));
            },
        };
        let to = tier_index(priority);
        match self.ob_cache.remove(&id) {
            Some(known) => {
                self.expiry_queues.remove(from, id);
                self.expiry_queues.push(to, id, seen);
                self.ob_cache.insert(
                    id,
                    ObKnow {
                        date_seen: known.date_seen,
                        ob: known.ob,
                        queue_place: to as u32,
                        priority,
                    },
                );
            },
            None => {},
        }
        proof {
            let want = old(self)@.with_priority(id, priority);
            assert(self@.objects =~= want.objects);
            assert(self@.short_names =~= want.short_names);
            assert(self@ == want);
            assert forall|x: OID, name: Seq<char>| #[trigger] self@.named(x, name) implies old(
                self,
            )@.named(x, name) by {}
            assert forall|name: Seq<char>, k: int|
                self@.names.contains_key(name) && 0 <= k < self@.names[name].len() implies self@.named(
                #[trigger] self@.names[name][k],
                name,
            ) by {
                assert(old(self)@.named(old(self)@.names[name][k], name));
            }
        }
        Ok(())
    }

    /// Records the short name that the user gave to the object `id`.
    pub fn set_short_name(&mut self, id: OID, name: &str) -> (r: Result<(), Error>)
        requires
            old(self).wf(),
        ensures
            final(self).wf(),
            match r {
                Ok(_) => old(self)@.objects.contains_key(id) && final(self)@ == old(
                    self,
                )@.with_short_name(id, name@),
                Err(e) => !old(self)@.objects.contains_key(id) && final(self)@ == old(self)@
                    && e@ == bare_error(ErrorKind::NotFound(id)),
            },
    {
        broadcast use vstd::std_specs::hash::group_hash_axioms;

        if !self.ob_cache.contains_key(&id) {
            return Err(Error::bare(ErrorKind::NotFound(id)));
        }
        self.user_short_names.insert(id, name.to_owned());
        proof {
            let want = old(self)@.with_short_name(id, name@);
            assert(self@.objects =~= want.objects);
            assert(self@.short_names =~= want.short_names);
            assert forall|x: OID, other: Seq<char>| #[trigger] self@.named(x, other) implies old(
                self,
            )@.named(x, other) by {}
        }
        Ok(())
    }

    /// The short name that the user gave to the object `id`.
    pub fn short_name(&self, id: OID) -> (r: Option<&str>)
        ensures
            match r {
                Some(name) => self@.short_names.contains_key(id) && name@
                    == self@.short_names[id],
                None => !self@.short_names.contains_key(id),
            },
    {
        broadcast use vstd::std_specs::hash::group_hash_axioms;

        match self.user_short_names.get(&id) {
            Some(name) => Some(name.as_str()),
            None => None,
        }
    }

    /// The object `id`; an error of kind `NotFound` where the store does not
    /// know it. What an object refers to need not be known.
    pub fn find(&self, id: OID) -> (r: Result<&Object, Error>)
        ensures
            match r {
                Ok(ob) => self@.objects.contains_key(id) && ob@ == self@.objects[id].ob,
                Err(e) => !self@.objects.contains_key(id) && e@ == bare_error(
                    ErrorKind::NotFound(id),
                ),
            },
    {
        match self.lookup(id) {
            Some(ob) => Ok(ob),
            None => Err(Error::bare(ErrorKind::NotFound(id))),
        }
    }

    /// The object that begins the branch of the object `id`. The error names
    /// the identifier that the store does not know: `id` itself, or the branch
    /// root that the object states.
    pub fn branch_root_of(&self, id: OID) -> (r: Result<&Object, Error>)
        ensures
            match r {
                Ok(root) => {
                    &&& self@.objects.contains_key(id)
                    &&& self@.objects.contains_key(self@.objects[id].ob.lineage().branch_root)
                    &&& root@ == self@.objects[self@.objects[id].ob.lineage().branch_root].ob
                },
                Err(e) => if self@.objects.contains_key(id) {
                    &&& !self@.objects.contains_key(self@.objects[id].ob.lineage().branch_root)
                    &&& e@ == bare_error(
                        ErrorKind::NotFound(self@.objects[id].ob.lineage().branch_root),
                    )
                } else {
                    e@ == bare_error(ErrorKind::NotFound(id))
                },
            },
    {
        match self.find(id) {
            Ok(ob) => self.find(ob.branch_root()),
            Err(e) => Err(e),
        }
    }

    /// The names that objects of the store bear, each once, in the order of
    /// `str`.
    pub fn names_in_order(&self) -> (names: Vec<String>)
        requires
            self.wf(),
        ensures
            forall|i: int, j: int|
                0 <= i < j < names@.len() ==> crate::text::text_lt(
                    (#[trigger] names@[i])@,
                    (#[trigger] names@[j])@,
                ),
            forall|i: int| 0 <= i < names@.len() ==> self@.names.contains_key((#[trigger] names@[i])@),
            forall|name: Seq<char>|
                self@.names.contains_key(name) ==> exists|i: int|
                    0 <= i < names@.len() && (#[trigger] names@[i])@ == name,
    {
        let count = self.names_to_oids.len();
        let mut names: Vec<String> = Vec::new();
        let mut i: usize = 0;
        while i < count
            invariant
                count == self.names_to_oids.names().len(),
                i <= count,
                names@.len() == i,
                forall|k: int| 0 <= k < i ==> (#[trigger] names@[k])@ == self.names_to_oids.names()[k],
            decreases count - i,
        {
            names.push(self.names_to_oids.name_at(i).to_owned());
            i += 1;
        }
        proof {
            self.names_to_oids.lemma_names();
            let ordered = self.names_to_oids.names();
            assert forall|name: Seq<char>| self@.names.contains_key(name) implies exists|i: int|
                0 <= i < names@.len() && (#[trigger] names@[i])@ == name by {
                assert(ordered.contains(name));
                let k = choose|k: int| 0 <= k < ordered.len() && ordered[k] == name;
                assert(names@[k]@ == name);
            }
            assert forall|i: int, j: int| 0 <= i < j < names@.len() implies crate::text::text_lt(
                (#[trigger] names@[i])@,
                (#[trigger] names@[j])@,
            ) by {
                assert(crate::text::text_lt(ordered[i], ordered[j]));
            }
            assert forall|i: int| 0 <= i < names@.len() implies self@.names.contains_key(
                (#[trigger] names@[i])@,
            ) by {
                assert(self@.names.contains_key(ordered[i]));
            }
        }
        names
    }

    /// Evicts the object `id`: takes it out of the store, out of its expiry
    /// queue, out of both name indexes and out of the short names, in one step.
    /// Which object is to go, and when, is for the caller to decide.
    pub fn evict(&mut self, id: OID) -> (r: Option<Object>)
        requires
            old(self).wf(),
        ensures
            final(self).wf(),
            final(self)@ == old(self)@.evict(id),
            forall|tier: int| 0 <= tier < TIERS ==> !(#[trigger] final(self).queued(tier)).contains_key(id),
            match r {
                Some(ob) => old(self)@.objects.contains_key(id) && ob@ == old(self)@.objects[id].ob,
                None => !old(self)@.objects.contains_key(id) && final(self)@ == old(self)@,
            },
    {
        broadcast use vstd::std_specs::hash::group_hash_axioms;

        proof {
            lemma_evict_consistent(self@, id);
        }
        let known = match self.ob_cache.remove(&id) {
            Some(known) => known,
            None => {
                proof {
                    assert(self@.objects =~= old(self)@.objects);
                    assert(self@.short_names =~= old(self)@.short_names);
                    assert(old(self)@.objects.remove(id) =~= old(self)@.objects);
                    assert(old(self)@.short_names.remove(id) =~= old(self)@.short_names);
                    assert(self@ == old(self)@);
                    assert(self@ == old(self)@.evict(id));
                }
                return None;
            },
        };
        let tier = tier_index(known.priority);
        self.expiry_queues.remove(tier, id);
        match known.ob.name() {
            Some(name) => {
                unlist_name(&mut self.names_to_oids, &mut self.oids_to_names, name, id);
            },
            None => {},
        }
        self.user_short_names.remove(&id);
        proof {
            let want = old(self)@.evict(id);
            assert(self@.objects =~= want.objects);
            assert(self@.short_names =~= want.short_names);
            assert(self@.names == want.names);
        }
        Some(known.ob)
    }
}

} // verus!
