//! The mathematical value of the store, and what holds of it.
//!
//! A [`KnowledgeView`] holds the objects by identifier, the identifiers by
//! name, the short names and the high-water mark of identifiers. The
//! operations of the store are defined here as functions on views, and proved
//! to keep a view consistent.

use vstd::prelude::*;
use crate::expiry::{tier_of, Timestamp};
use crate::object::ObjectView;
use crate::oids::{distinct, lemma_without_push, without};
use crate::store::{DEFAULT_PRIORITY, FIRST_KNOWN_ID};
use crate::OID;

verus! {

/// The mathematical value of what the store knows of one object.
pub struct ObKnowView {
    pub date_seen: Timestamp,
    pub ob: ObjectView,
    pub queue_place: u32,
    pub priority: i8,
}

/// The mathematical value of a [`Knowledge`].
pub struct KnowledgeView {
    /// The objects, by identifier.
    pub objects: Map<OID, ObKnowView>,
    /// For each name, the identifiers of the objects that bear it.
    pub names: Map<Seq<char>, Seq<OID>>,
    /// The short names that the user gave.
    pub short_names: Map<OID, Seq<char>>,
    /// No identifier above this one is in use.
    pub max_known_id: OID,
}

/// `names` with `id` listed under `name`, once.
pub open spec fn listed(names: Map<Seq<char>, Seq<OID>>, name: Seq<char>, id: OID) -> Map<
    Seq<char>,
    Seq<OID>,
> {
    if !names.contains_key(name) {
        names.insert(name, seq![id])
    } else if names[name].contains(id) {
        names
    } else {
        names.insert(name, names[name].push(id))
    }
}

/// `names` with `id` no longer listed under `name`; a name under which nothing
/// is left is dropped.
pub open spec fn unlisted(names: Map<Seq<char>, Seq<OID>>, name: Seq<char>, id: OID) -> Map<
    Seq<char>,
    Seq<OID>,
> {
    if !names.contains_key(name) {
        names
    } else if without(names[name], id).len() == 0 {
        names.remove(name)
    } else {
        names.insert(name, without(names[name], id))
    }
}

/// `names` after the object `id` changed its name from `before` to `after`.
pub open spec fn relisted(
    names: Map<Seq<char>, Seq<OID>>,
    before: Option<Seq<char>>,
    after: Option<Seq<char>>,
    id: OID,
) -> Map<Seq<char>, Seq<OID>> {
    let cleared = match before {
        Some(name) if before != after => unlisted(names, name, id),
        _ => names,
    };
    match after {
        Some(name) => listed(cleared, name, id),
        None => cleared,
    }
}

impl KnowledgeView {
    /// The view of a new store.
    pub open spec fn empty() -> KnowledgeView {
        KnowledgeView {
            objects: Map::empty(),
            names: Map::empty(),
            short_names: Map::empty(),
            max_known_id: FIRST_KNOWN_ID,
        }
    }

    /// Whether the store holds an object `id` that bears `name`.
    pub open spec fn named(self, id: OID, name: Seq<char>) -> bool {
        self.objects.contains_key(id) && self.objects[id].ob.name() == Some(name)
    }

    /// The name of the object `id`, where the store holds it and it has one.
    pub open spec fn name_of(self, id: OID) -> Option<Seq<char>> {
        if self.objects.contains_key(id) {
            self.objects[id].ob.name()
        } else {
            None
        }
    }

    /// The priority of the object `id`; the default where the store does not
    /// hold it.
    pub open spec fn priority_of(self, id: OID) -> i8 {
        if self.objects.contains_key(id) {
            self.objects[id].priority
        } else {
            DEFAULT_PRIORITY
        }
    }

    /// What holds of every store: no identifier in use lies above the
    /// high-water mark; every object stands in the queue of its priority; the
    /// name index lists exactly the named objects, each once under its name;
    /// and only known objects have short names.
    pub open spec fn consistent(self) -> bool {
        &&& forall|id: OID| #[trigger] self.objects.contains_key(id) ==> id <= self.max_known_id
        &&& forall|id: OID| #[trigger]
            self.objects.contains_key(id) ==> self.objects[id].queue_place == tier_of(
                self.objects[id].priority,
            )
        &&& forall|name: Seq<char>| #[trigger]
            self.names.contains_key(name) ==> self.names[name].len() > 0 && distinct(
                self.names[name],
            )
        &&& forall|name: Seq<char>, k: int|
            self.names.contains_key(name) && 0 <= k < self.names[name].len() ==> self.named(
                #[trigger] self.names[name][k],
                name,
            )
        &&& forall|id: OID, name: Seq<char>| #[trigger]
            self.named(id, name) ==> self.names.contains_key(name) && self.names[name].contains(
                id,
            )
        &&& forall|id: OID| #[trigger]
            self.short_names.contains_key(id) ==> self.objects.contains_key(id)
    }

    /// The store after `ob` was seen at `now` under `id`. A new object gets the
    /// default priority, a known one keeps its own; the name index follows the
    /// object's name; the high-water mark rises to `id` where it was below.
    pub open spec fn consider(self, id: OID, ob: ObjectView, now: Timestamp) -> KnowledgeView {
        let priority = self.priority_of(id);
        let known = ObKnowView {
            date_seen: now,
            ob,
            queue_place: tier_of(priority) as u32,
            priority,
        };
        KnowledgeView {
            objects: self.objects.insert(id, known),
            names: relisted(self.names, self.name_of(id), ob.name(), id),
            short_names: self.short_names,
            max_known_id: if self.max_known_id < id {
                id
            } else {
                self.max_known_id
            },
        }
    }

    /// The store after the object `id` was given the priority `priority`.
    pub open spec fn with_priority(self, id: OID, priority: i8) -> KnowledgeView {
        KnowledgeView {
            objects: self.objects.insert(
                id,
                ObKnowView {
                    queue_place: tier_of(priority) as u32,
                    priority,
                    ..self.objects[id]
                },
            ),
            ..self
        }
    }

    /// The store after the user gave the object `id` the short name `name`.
    pub open spec fn with_short_name(self, id: OID, name: Seq<char>) -> KnowledgeView {
        KnowledgeView { short_names: self.short_names.insert(id, name), ..self }
    }

    /// The store after the object `id` was evicted: it is gone from the
    /// objects, from the name index and from the short names. The high-water
    /// mark stays, so that its identifier is not handed out again.
    pub open spec fn evict(self, id: OID) -> KnowledgeView {
        KnowledgeView {
            objects: self.objects.remove(id),
            names: match self.name_of(id) {
                Some(name) => unlisted(self.names, name, id),
                None => self.names,
            },
            short_names: self.short_names.remove(id),
            max_known_id: self.max_known_id,
        }
    }

    /// The store after the high-water mark was raised to at least `id`.
    pub open spec fn observe(self, id: OID) -> KnowledgeView {
        KnowledgeView {
            max_known_id: if self.max_known_id < id {
                id
            } else {
                self.max_known_id
            },
            ..self
        }
    }
}

/// What `without` keeps: the items other than `id`, each as often as before.
pub proof fn lemma_without(ids: Seq<OID>, id: OID)
    ensures
        forall|x: OID| #[trigger] without(ids, id).contains(x) <==> (ids.contains(x) && x != id),
        distinct(ids) ==> distinct(without(ids, id)),
        !ids.contains(id) ==> without(ids, id) == ids,
    decreases ids.len(),
{
    if ids.len() == 0 {
        lemma_without_push(Seq::<OID>::empty(), id, id);
        assert(ids =~= Seq::<OID>::empty());
        assert forall|x: OID| #[trigger] without(ids, id).contains(x) <==> (ids.contains(x) && x
            != id) by {
            if without(ids, id).contains(x) {
                let k = choose|k: int| 0 <= k < without(ids, id).len() && without(ids, id)[k] == x;
            }
        }
    } else {
        let front = ids.drop_last();
        let last = ids.last();
        assert(front.push(last) =~= ids);
        lemma_without(front, id);
        lemma_without_push(front, last, id);
        let kept = without(front, id);
        assert forall|x: OID| #[trigger] without(ids, id).contains(x) <==> (ids.contains(x) && x
            != id) by {
            if without(ids, id).contains(x) {
                let k = choose|k: int| 0 <= k < without(ids, id).len() && without(ids, id)[k] == x;
                if last != id && k == kept.len() {
                    assert(ids[ids.len() - 1] == x);
                } else {
                    assert(kept[k] == x);
                    assert(kept.contains(x));
                    let j = choose|j: int| 0 <= j < front.len() && front[j] == x;
                    assert(ids[j] == x);
                }
            }
            if ids.contains(x) && x != id {
                let j = choose|j: int| 0 <= j < ids.len() && ids[j] == x;
                if j == ids.len() - 1 {
                    assert(without(ids, id)[kept.len() as int] == x);
                } else {
                    assert(front[j] == x);
                    assert(front.contains(x));
                    assert(without(front, id).contains(x));
                    let k = choose|k: int| 0 <= k < kept.len() && kept[k] == x;
                    assert(without(ids, id)[k] == x);
                }
            }
        }
        if distinct(ids) {
            assert(distinct(front));
            if last != id {
                assert forall|i: int, j: int| 0 <= i < j < without(ids, id).len() implies without(
                    ids,
                    id,
                )[i] != without(ids, id)[j] by {
                    if j == kept.len() {
                        assert(kept.contains(kept[i]));
                        let m = choose|m: int| 0 <= m < front.len() && front[m] == kept[i];
                        assert(ids[m] != ids[ids.len() - 1]);
                    }
                }
            }
        }
        if !ids.contains(id) {
            assert(!front.contains(id)) by {
                if front.contains(id) {
                    let j = choose|j: int| 0 <= j < front.len() && front[j] == id;
                    assert(ids[j] == id);
                }
            }
            assert(last != id) by {
                assert(ids[ids.len() - 1] == last);
            }
        }
    }
}

/// What `listed` holds: `id` under `name` besides what was there, and every
/// other name as before.
pub proof fn lemma_listed(names: Map<Seq<char>, Seq<OID>>, name: Seq<char>, id: OID)
    ensures
        listed(names, name, id).contains_key(name),
        listed(names, name, id)[name].contains(id),
        forall|x: OID|
            #[trigger] listed(names, name, id)[name].contains(x) <==> (x == id || (
            names.contains_key(name) && names[name].contains(x))),
        names.contains_key(name) && distinct(names[name]) ==> distinct(
            listed(names, name, id)[name],
        ),
        !names.contains_key(name) ==> distinct(listed(names, name, id)[name]),
        forall|other: Seq<char>|
            other != name ==> (#[trigger] listed(names, name, id).contains_key(other)
                <==> names.contains_key(other)),
        forall|other: Seq<char>|
            other != name && names.contains_key(other) ==> #[trigger] listed(
                names,
                name,
                id,
            )[other] == names[other],
{
    let after = listed(names, name, id)[name];
    if !names.contains_key(name) {
        assert(after[0] == id);
        assert forall|x: OID| #[trigger] after.contains(x) implies x == id by {
            let k = choose|k: int| 0 <= k < after.len() && after[k] == x;
        }
    } else if !names[name].contains(id) {
        let before = names[name];
        assert(after[before.len() as int] == id);
        assert forall|x: OID| #[trigger] after.contains(x) <==> (x == id || before.contains(
            x,
        )) by {
            if after.contains(x) {
                let k = choose|k: int| 0 <= k < after.len() && after[k] == x;
                if k < before.len() {
                    assert(before[k] == x);
                }
            }
            if before.contains(x) {
                let k = choose|k: int| 0 <= k < before.len() && before[k] == x;
                assert(after[k] == x);
            }
        }
        if distinct(before) {
            assert forall|i: int, j: int| 0 <= i < j < after.len() implies after[i]
                != after[j] by {
                if j == before.len() {
                    assert(before.contains(before[i]));
                }
            }
        }
    }
}

/// What `unlisted` holds: under `name` what was there but `id`, the name gone
/// where that is nothing, and every other name as before.
pub proof fn lemma_unlisted(names: Map<Seq<char>, Seq<OID>>, name: Seq<char>, id: OID)
    ensures
        unlisted(names, name, id).contains_key(name) <==> (names.contains_key(name) && without(
            names[name],
            id,
        ).len() > 0),
        unlisted(names, name, id).contains_key(name) ==> unlisted(names, name, id)[name]
            == without(names[name], id),
        forall|other: Seq<char>|
            other != name ==> (#[trigger] unlisted(names, name, id).contains_key(other)
                <==> names.contains_key(other)),
        forall|other: Seq<char>|
            other != name && names.contains_key(other) ==> #[trigger] unlisted(
                names,
                name,
                id,
            )[other] == names[other],
{
}

/// A list in which something is found is not empty.
pub proof fn lemma_contains_nonempty(ids: Seq<OID>, x: OID)
    requires
        ids.contains(x),
    ensures
        ids.len() > 0,
{
    let k = choose|k: int| 0 <= k < ids.len() && ids[k] == x;
}

/// Seeing an object keeps the store consistent.
pub proof fn lemma_consider_consistent(v: KnowledgeView, id: OID, ob: ObjectView, now: Timestamp)
    requires
        v.consistent(),
    ensures
        v.consider(id, ob, now).consistent(),
{
    let w = v.consider(id, ob, now);
    let before = v.name_of(id);
    let after = ob.name();
    let cleared = match before {
        Some(name) if before != after => unlisted(v.names, name, id),
        _ => v.names,
    };
    assert(w.names == relisted(v.names, before, after, id));
    match before {
        Some(name) => {
            lemma_unlisted(v.names, name, id);
            if v.names.contains_key(name) {
                lemma_without(v.names[name], id);
            }
        },
        None => {},
    }
    match after {
        Some(name) => {
            lemma_listed(cleared, name, id);
        },
        None => {},
    }
    assert forall|x: OID, name: Seq<char>| w.named(x, name) <==> (if x == id {
        after == Some(name)
    } else {
        v.named(x, name)
    }) by {}
    // What each name lists afterwards.
    assert forall|name: Seq<char>, x: OID|
        #![trigger w.names[name].contains(x)]
        w.names.contains_key(name) && w.names[name].contains(x) implies w.named(x, name) by {
        if after == Some(name) {
            if x != id {
                assert(cleared.contains_key(name) && cleared[name].contains(x));
                let k = choose|k: int| 0 <= k < v.names[name].len() && v.names[name][k] == x;
                assert(v.named(v.names[name][k], name));
            }
        } else {
            assert(cleared.contains_key(name) && cleared[name] == w.names[name]);
            if before == Some(name) {
                assert(x != id);
                assert(v.names[name].contains(x));
            }
            let k = choose|k: int| 0 <= k < v.names[name].len() && v.names[name][k] == x;
            assert(v.named(v.names[name][k], name));
            if x == id {
                assert(v.named(id, name));
            }
        }
    }
    assert forall|name: Seq<char>, k: int|
        w.names.contains_key(name) && 0 <= k < w.names[name].len() implies w.named(
        #[trigger] w.names[name][k],
        name,
    ) by {
        assert(w.names[name].contains(w.names[name][k]));
    }
    assert forall|x: OID, name: Seq<char>| #[trigger] w.named(x, name) implies w.names.contains_key(
        name,
    ) && w.names[name].contains(x) by {
        if x != id {
            assert(v.named(x, name));
            assert(v.names[name].contains(x));
            if before == Some(name) && before != after {
                assert(without(v.names[name], id).contains(x));
                lemma_contains_nonempty(without(v.names[name], id), x);
            }
            assert(cleared.contains_key(name) && cleared[name].contains(x));
        }
    }
    assert forall|name: Seq<char>| #[trigger] w.names.contains_key(name) implies w.names[name].len()
        > 0 && distinct(w.names[name]) by {
        if after == Some(name) {
            lemma_contains_nonempty(w.names[name], id);
            if cleared.contains_key(name) {
                assert(v.names.contains_key(name));
            }
        } else {
            assert(cleared.contains_key(name) && cleared[name] == w.names[name]);
        }
    }
    assert forall|x: OID| #[trigger] w.objects.contains_key(x) implies w.objects[x].queue_place
        == tier_of(w.objects[x].priority) by {
        if x == id {
            assert(0 <= tier_of(v.priority_of(id)) < 256);
        }
    }
}

/// Seeing the same object twice at the same time is seeing it once: nothing
/// is listed or held twice.
pub proof fn lemma_consider_idempotent(v: KnowledgeView, id: OID, ob: ObjectView, now: Timestamp)
    ensures
        v.consider(id, ob, now).consider(id, ob, now) == v.consider(id, ob, now),
{
    let w = v.consider(id, ob, now);
    let x = w.consider(id, ob, now);
    assert(w.name_of(id) == ob.name());
    match ob.name() {
        Some(name) => {
            let cleared = match v.name_of(id) {
                Some(old) if v.name_of(id) != ob.name() => unlisted(v.names, old, id),
                _ => v.names,
            };
            lemma_listed(cleared, name, id);
            assert(x.names == w.names);
        },
        None => {},
    }
    assert(0 <= tier_of(v.priority_of(id)) < 256);
    assert(x.objects =~= w.objects);
}

/// Seeing an object again later changes the time it was seen and nothing
/// else: the same objects are held and the same names list the same
/// identifiers.
pub proof fn lemma_consider_again(
    v: KnowledgeView,
    id: OID,
    ob: ObjectView,
    first: Timestamp,
    second: Timestamp,
)
    ensures
        v.consider(id, ob, first).consider(id, ob, second) == v.consider(id, ob, second),
        v.consider(id, ob, first).consider(id, ob, second).names == v.consider(
            id,
            ob,
            first,
        ).names,
        v.consider(id, ob, first).consider(id, ob, second).objects.dom() == v.consider(
            id,
            ob,
            first,
        ).objects.dom(),
{
    let w = v.consider(id, ob, first);
    let x = w.consider(id, ob, second);
    let y = v.consider(id, ob, second);
    assert(w.name_of(id) == ob.name());
    match ob.name() {
        Some(name) => {
            let cleared = match v.name_of(id) {
                Some(old) if v.name_of(id) != ob.name() => unlisted(v.names, old, id),
                _ => v.names,
            };
            lemma_listed(cleared, name, id);
            assert(x.names == w.names);
        },
        None => {},
    }
    assert(0 <= tier_of(v.priority_of(id)) < 256);
    assert(x.objects =~= y.objects);
    assert(x.objects.dom() =~= w.objects.dom());
}

/// Evicting an object keeps the store consistent.
pub proof fn lemma_evict_consistent(v: KnowledgeView, id: OID)
    requires
        v.consistent(),
    ensures
        v.evict(id).consistent(),
        !v.evict(id).objects.contains_key(id),
        forall|name: Seq<char>|
            v.evict(id).names.contains_key(name) ==> !(#[trigger] v.evict(id).names[name]).contains(
                id,
            ),
{
    let w = v.evict(id);
    match v.name_of(id) {
        Some(name) => {
            lemma_unlisted(v.names, name, id);
            assert(v.named(id, name));
            lemma_without(v.names[name], id);
        },
        None => {},
    }
    assert forall|x: OID, name: Seq<char>| w.named(x, name) <==> (x != id && v.named(x, name)) by {}
    assert forall|name: Seq<char>, x: OID|
        #![trigger w.names[name].contains(x)]
        w.names.contains_key(name) && w.names[name].contains(x) implies w.named(x, name) by {
        assert(v.names.contains_key(name));
        if v.name_of(id) == Some(name) {
            assert(v.names[name].contains(x) && x != id);
        } else {
            assert(w.names[name] == v.names[name]);
        }
        let k = choose|k: int| 0 <= k < v.names[name].len() && v.names[name][k] == x;
        assert(v.named(v.names[name][k], name));
    }
    assert forall|name: Seq<char>, k: int|
        w.names.contains_key(name) && 0 <= k < w.names[name].len() implies w.named(
        #[trigger] w.names[name][k],
        name,
    ) by {
        assert(w.names[name].contains(w.names[name][k]));
    }
    assert forall|x: OID, name: Seq<char>| #[trigger] w.named(x, name) implies w.names.contains_key(
        name,
    ) && w.names[name].contains(x) by {
        assert(v.named(x, name));
        assert(v.names[name].contains(x));
        if v.name_of(id) == Some(name) {
            assert(without(v.names[name], id).contains(x));
            lemma_contains_nonempty(without(v.names[name], id), x);
        }
    }
    assert forall|name: Seq<char>| #[trigger] w.names.contains_key(name) implies w.names[name].len()
        > 0 && distinct(w.names[name]) by {
        assert(v.names.contains_key(name));
    }
    assert forall|name: Seq<char>| w.names.contains_key(name) implies !(#[trigger] w.names[name]).contains(
        id,
    ) by {
        if w.names[name].contains(id) {
            assert(w.named(id, name));
        }
    }
}

} // verus!
