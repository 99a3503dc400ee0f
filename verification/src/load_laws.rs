//! What holds of every load: laws of the two passes, proved from their
//! definition in [`crate::loader`].
//!
//! The identifiers: a generated identifier lies above every identifier that the
//! input states, whether or not the record that states it could be read; the
//! high-water mark bounds every identifier in the store, and names the
//! greatest of them where the records are well formed; every object stands
//! under the identifier it states; and a load succeeds exactly where the
//! identifiers do not run out. The unknown: a record under a type tag without
//! provider draws a warning and is no object of the store, though the
//! identifier it states is observed; a directive other than `insert` draws a
//! notice and changes nothing else.

use vstd::prelude::*;
use crate::error::{bare_error, unknown_type_error, ErrorKind, ErrorView};
use crate::expiry::Timestamp;
use crate::loader::{
    is_reporting, stated_id, word_insert, word_make_reply_tree, DeferredView, LoadView,
    NoticeView,
};
use crate::object::{decoded, lemma_decoded_error, lemma_decoded_id, Kind};
use crate::store::FIRST_KNOWN_ID;
use crate::store_model::{lemma_consider_consistent, KnowledgeView};
use crate::tree::Tree;
use crate::OID;

verus! {

impl LoadView {
    /// What holds of a load at every step: the store is consistent; the
    /// high-water mark is the floor, an identifier that the input states or one
    /// that was generated, and none of those lies above it; every object of the
    /// store stands under an identifier that was generated or under which a
    /// record was read, and states that identifier; the identifiers under which
    /// records were read are among those that the input states; the generated
    /// identifiers increase, and each lies above the floor and above every
    /// identifier that the input states.
    pub open spec fn sound(self) -> bool {
        &&& self.store.consistent()
        &&& forall|id: OID| #[trigger]
            self.store.objects.contains_key(id) ==> self.store.objects[id].ob.id() == id
        &&& FIRST_KNOWN_ID <= self.store.max_known_id
        &&& (self.store.max_known_id == FIRST_KNOWN_ID || self.explicit.contains(
            self.store.max_known_id,
        ) || self.generated.contains(self.store.max_known_id))
        &&& forall|i: int| 0 <= i < self.explicit.len() ==> #[trigger] self.explicit[i]
            <= self.store.max_known_id
        &&& forall|i: int| 0 <= i < self.generated.len() ==> #[trigger] self.generated[i]
            <= self.store.max_known_id
        &&& forall|id: OID| #[trigger] self.store.objects.contains_key(id) ==> (
        self.read.contains(id) || self.generated.contains(id))
        &&& forall|i: int| 0 <= i < self.read.len() ==> self.explicit.contains(
            #[trigger] self.read[i],
        )
        &&& forall|i: int, j: int| 0 <= i < j < self.generated.len() ==> self.generated[i]
            < self.generated[j]
        &&& forall|i: int| 0 <= i < self.generated.len() ==> FIRST_KNOWN_ID
            < #[trigger] self.generated[i]
        &&& forall|i: int, j: int|
            0 <= i < self.explicit.len() && 0 <= j < self.generated.len() ==> #[trigger] self.explicit[i]
                < #[trigger] self.generated[j]
    }

    /// Whether two loads differ in their notices at most.
    pub open spec fn same_but_notices(self, other: LoadView) -> bool {
        &&& self.store == other.store
        &&& self.deferred == other.deferred
        &&& self.explicit == other.explicit
        &&& self.read == other.read
        &&& self.generated == other.generated
    }

    /// Whether two loads hold the same objects, names and records set aside,
    /// and have read and generated under the same identifiers, while this one
    /// may have observed more identifiers than the other: its high-water mark
    /// is no lower.
    pub open spec fn same_but_observed(self, other: LoadView) -> bool {
        &&& self.store.objects == other.store.objects
        &&& self.store.names == other.store.names
        &&& self.store.short_names == other.store.short_names
        &&& other.store.max_known_id <= self.store.max_known_id
        &&& self.deferred == other.deferred
        &&& self.read == other.read
        &&& self.generated == other.generated
    }
}

/// Reading a record under a resolved identifier keeps the load sound.
pub proof fn lemma_insert_record_sound(
    s: LoadView,
    kind: Kind,
    record: Tree,
    id: OID,
    reporting: bool,
    now: Timestamp,
)
    requires
        s.sound(),
        id <= s.store.max_known_id,
        s.read.contains(id) || s.generated.contains(id),
    ensures
        s.insert_record(kind, record, id, reporting, now).sound(),
        s.insert_record(kind, record, id, reporting, now).explicit == s.explicit,
        s.insert_record(kind, record, id, reporting, now).read == s.read,
        s.insert_record(kind, record, id, reporting, now).generated == s.generated,
        s.insert_record(kind, record, id, reporting, now).deferred == s.deferred,
        s.insert_record(kind, record, id, reporting, now).store.max_known_id
            == s.store.max_known_id,
{
    match decoded(kind, record, id) {
        Ok(ob) => {
            lemma_consider_consistent(s.store, id, ob, now);
            lemma_decoded_id(kind, record, id);
        },
        Err(_) => {},
    }
}

/// A new item at the end of a list is found in it, and so is what was found
/// before.
pub proof fn lemma_push_contains(ids: Seq<OID>, id: OID)
    ensures
        ids.push(id).contains(id),
        forall|x: OID| ids.contains(x) ==> #[trigger] ids.push(id).contains(x),
{
    assert(ids.push(id)[ids.len() as int] == id);
    assert forall|x: OID| ids.contains(x) implies #[trigger] ids.push(id).contains(x) by {
        let k = choose|k: int| 0 <= k < ids.len() && ids[k] == x;
        assert(ids.push(id)[k] == x);
    }
}

/// Observing what a record says of its identifier keeps the load sound and
/// changes no object.
pub proof fn lemma_observe_sound(s: LoadView, stated: Option<Result<OID, ErrorView>>)
    requires
        s.sound(),
        s.generated.len() == 0,
    ensures
        s.observe_stated(stated).sound(),
        s.observe_stated(stated).same_but_observed(s),
        stated matches Some(Ok(id)) ==> s.observe_stated(stated).explicit.contains(id) && id
            <= s.observe_stated(stated).store.max_known_id,
{
    match stated {
        Some(Ok(id)) => {
            let seen = s.observe_stated(stated);
            lemma_push_contains(s.explicit, id);
            assert forall|x: OID, name: Seq<char>| #[trigger] seen.store.named(x, name) implies s.store.named(
                x,
                name,
            ) by {}
            assert forall|name: Seq<char>, k: int|
                seen.store.names.contains_key(name) && 0 <= k
                    < seen.store.names[name].len() implies seen.store.named(
                #[trigger] seen.store.names[name][k],
                name,
            ) by {
                assert(s.store.named(s.store.names[name][k], name));
            }
            assert forall|i: int| 0 <= i < seen.read.len() implies seen.explicit.contains(
                #[trigger] seen.read[i],
            ) by {
                assert(s.explicit.contains(s.read[i]));
            }
        },
        _ => {},
    }
}

/// The first pass keeps the load sound and generates nothing.
pub proof fn lemma_read_record_sound(
    s: LoadView,
    providers: Map<Seq<char>, Kind>,
    record: Tree,
    reporting: bool,
    now: Timestamp,
)
    requires
        s.sound(),
        s.generated.len() == 0,
    ensures
        s.read_record(providers, record, reporting, now).sound(),
        s.read_record(providers, record, reporting, now).generated.len() == 0,
{
    let tag = record.initial_str();
    let stated = stated_id(record);
    let seen = s.observe_stated(stated);
    lemma_observe_sound(s, stated);
    if providers.contains_key(tag) {
        match stated {
            Some(Ok(id)) => {
                let told = LoadView { read: seen.read.push(id), ..seen };
                lemma_push_contains(seen.read, id);
                assert(told.sound()) by {
                    assert forall|i: int| 0 <= i < told.read.len() implies told.explicit.contains(
                        #[trigger] told.read[i],
                    ) by {
                        if i < seen.read.len() {
                            assert(seen.explicit.contains(seen.read[i]));
                        }
                    }
                }
                lemma_insert_record_sound(told, providers[tag], record, id, reporting, now);
            },
            _ => {},
        }
    }
}

pub proof fn lemma_read_records_sound(
    s: LoadView,
    providers: Map<Seq<char>, Kind>,
    records: Seq<Tree>,
    reporting: bool,
    now: Timestamp,
)
    requires
        s.sound(),
        s.generated.len() == 0,
    ensures
        s.read_records(providers, records, reporting, now).sound(),
        s.read_records(providers, records, reporting, now).generated.len() == 0,
    decreases records.len(),
{
    if records.len() > 0 {
        lemma_read_records_sound(s, providers, records.drop_last(), reporting, now);
        lemma_read_record_sound(
            s.read_records(providers, records.drop_last(), reporting, now),
            providers,
            records.last(),
            reporting,
            now,
        );
    }
}

pub proof fn lemma_read_directives_sound(
    s: LoadView,
    providers: Map<Seq<char>, Kind>,
    directives: Seq<Tree>,
    now: Timestamp,
)
    requires
        s.sound(),
        s.generated.len() == 0,
    ensures
        s.read_directives(providers, directives, now).sound(),
        s.read_directives(providers, directives, now).generated.len() == 0,
    decreases directives.len(),
{
    if directives.len() > 0 {
        lemma_read_directives_sound(s, providers, directives.drop_last(), now);
        let so_far = s.read_directives(providers, directives.drop_last(), now);
        let directive = directives.last();
        if directive.initial_str() == word_insert() {
            lemma_read_records_sound(
                so_far,
                providers,
                directive.tail(),
                is_reporting(directive),
                now,
            );
        }
    }
}

/// The second pass keeps the load sound. Each identifier it makes is the next
/// above the high-water mark, which then is that identifier.
pub proof fn lemma_generate_sound(s: LoadView, pending: DeferredView, now: Timestamp)
    requires
        s.sound(),
        s.generate(pending, now) is Ok,
    ensures
        s.generate(pending, now)->Ok_0.sound(),
        s.generate(pending, now)->Ok_0.explicit == s.explicit,
        s.generate(pending, now)->Ok_0.read == s.read,
        s.generate(pending, now)->Ok_0.generated == s.generated.push(
            (s.store.max_known_id + 1) as OID,
        ),
        s.generate(pending, now)->Ok_0.store.max_known_id == s.store.max_known_id + 1,
        !s.store.objects.contains_key((s.store.max_known_id + 1) as OID),
        decoded(pending.kind, pending.record, (s.store.max_known_id + 1) as OID) is Ok
            ==> s.generate(pending, now)->Ok_0.store.objects.contains_key(
            (s.store.max_known_id + 1) as OID,
        ),
{
    let id = (s.store.max_known_id + 1) as OID;
    let made = LoadView {
        store: KnowledgeView { max_known_id: id, ..s.store },
        generated: s.generated.push(id),
        ..s
    };
    lemma_push_contains(s.generated, id);
    assert(made.sound()) by {
        assert forall|x: OID, name: Seq<char>| #[trigger] made.store.named(x, name) implies s.store.named(
            x,
            name,
        ) by {}
        assert forall|name: Seq<char>, k: int|
            made.store.names.contains_key(name) && 0 <= k
                < made.store.names[name].len() implies made.store.named(
            #[trigger] made.store.names[name][k],
            name,
        ) by {
            assert(s.store.named(s.store.names[name][k], name));
        }
        assert forall|i: int, j: int| 0 <= i < j < made.generated.len() implies made.generated[i]
            < made.generated[j] by {
            if j == s.generated.len() {
                assert(s.generated[i] <= s.store.max_known_id);
            }
        }
        assert forall|i: int, j: int|
            0 <= i < made.explicit.len() && 0 <= j < made.generated.len() implies #[trigger] made.explicit[i]
            < #[trigger] made.generated[j] by {
            if j == s.generated.len() {
                assert(s.explicit[i] <= s.store.max_known_id);
            }
        }
        assert forall|x: OID| #[trigger] made.store.objects.contains_key(x) implies (
        made.read.contains(x) || made.generated.contains(x)) by {
            assert(s.store.objects.contains_key(x));
        }
    }
    lemma_insert_record_sound(made, pending.kind, pending.record, id, pending.reporting, now);
}

/// The second pass as a whole keeps the load sound, and makes one identifier
/// for each record that was set aside: the identifiers that follow the
/// high-water mark of the first pass.
pub proof fn lemma_generate_all_sound(s: LoadView, pending: Seq<DeferredView>, now: Timestamp)
    requires
        s.sound(),
        s.generate_all(pending, now) is Ok,
    ensures
        s.generate_all(pending, now)->Ok_0.sound(),
        s.generate_all(pending, now)->Ok_0.explicit == s.explicit,
        s.generate_all(pending, now)->Ok_0.read == s.read,
        s.generate_all(pending, now)->Ok_0.generated.len() == s.generated.len() + pending.len(),
        s.generate_all(pending, now)->Ok_0.store.max_known_id == s.store.max_known_id
            + pending.len(),
        forall|k: int|
            0 <= k < pending.len() ==> #[trigger] s.generate_all(
                pending,
                now,
            )->Ok_0.generated[s.generated.len() + k] == s.store.max_known_id + 1 + k,
    decreases pending.len(),
{
    if pending.len() > 0 {
        let front = pending.drop_last();
        lemma_generate_all_sound(s, front, now);
        let so_far = s.generate_all(front, now)->Ok_0;
        lemma_generate_sound(so_far, pending.last(), now);
        let done = s.generate_all(pending, now)->Ok_0;
        assert forall|k: int| 0 <= k < pending.len() implies #[trigger] done.generated[s.generated.len()
            + k] == s.store.max_known_id + 1 + k by {
            if k < front.len() {
                assert(so_far.generated[s.generated.len() + k] == s.store.max_known_id + 1 + k);
            }
        }
    }
}

/// The identifiers of a load. Whatever the input: every generated identifier
/// is strictly greater than the floor and than every identifier that the input
/// states, be it in a record that was read, in one that was malformed or in
/// one under an unknown type tag; the generated identifiers are the successors
/// of the high-water mark that the first pass reached, one for each record set
/// aside, so no two are equal; no object of the store stands under an
/// identifier above the high-water mark, and each stands under an identifier
/// that was generated or under which a record was read; and the high-water
/// mark is the greatest of the floor, the stated and the generated
/// identifiers. A load fails only for want of an identifier.
pub proof fn lemma_load_identifiers(tree: Tree, providers: Map<Seq<char>, Kind>, now: Timestamp)
    ensures
        match LoadView::load(tree, providers, now) {
            Ok(out) => {
                let first = LoadView::first_pass(tree, providers, now);
                &&& out.sound()
                &&& out.explicit == first.explicit
                &&& out.read == first.read
                &&& out.generated.len() == first.deferred.len()
                &&& forall|k: int|
                    0 <= k < out.generated.len() ==> #[trigger] out.generated[k]
                        == first.store.max_known_id + 1 + k
                &&& out.store.max_known_id == first.store.max_known_id + first.deferred.len()
            },
            Err(e) => e == bare_error(ErrorKind::IdCollision(u128::MAX)),
        },
{
    let first = LoadView::first_pass(tree, providers, now);
    assert(LoadView::start().sound());
    lemma_read_directives_sound(LoadView::start(), providers, tree.contents(), now);
    if first.generate_all(first.deferred, now) is Ok {
        lemma_generate_all_sound(first, first.deferred, now);
        let done = first.generate_all(first.deferred, now)->Ok_0;
        let out = LoadView::load(tree, providers, now)->Ok_0;
        assert(out == LoadView { deferred: Seq::empty(), ..done });
        assert(out.store == done.store);
        assert(out.generated == done.generated);
        assert(out.explicit == done.explicit);
        assert(out.read == done.read);
        assert(done.sound());
        assert(out.sound());
        assert forall|k: int| 0 <= k < out.generated.len() implies #[trigger] out.generated[k]
            == first.store.max_known_id + 1 + k by {
            assert(done.generated[first.generated.len() + k] == first.store.max_known_id + 1 + k);
        }
    } else {
        lemma_generate_all_error(first, first.deferred, now);
    }
}

/// The second pass fails only for want of an identifier.
pub proof fn lemma_generate_all_error(s: LoadView, pending: Seq<DeferredView>, now: Timestamp)
    requires
        s.generate_all(pending, now) is Err,
    ensures
        s.generate_all(pending, now)->Err_0 == bare_error(ErrorKind::IdCollision(u128::MAX)),
    decreases pending.len(),
{
    if pending.len() > 0 {
        if s.generate_all(pending.drop_last(), now) is Err {
            lemma_generate_all_error(s, pending.drop_last(), now);
        }
    }
}

/// Where the record that is read last in the second pass is well formed, the
/// high-water mark of the loaded store is the identifier of an object in it:
/// the greatest identifier in the store.
pub proof fn lemma_high_water_mark_in_store(
    tree: Tree,
    providers: Map<Seq<char>, Kind>,
    now: Timestamp,
)
    requires
        LoadView::load(tree, providers, now) is Ok,
        LoadView::first_pass(tree, providers, now).deferred.len() > 0,
        ({
            let last = LoadView::first_pass(tree, providers, now).deferred.last();
            let out = LoadView::load(tree, providers, now)->Ok_0;
            decoded(last.kind, last.record, out.store.max_known_id) is Ok
        }),
    ensures
        ({
            let out = LoadView::load(tree, providers, now)->Ok_0;
            &&& out.store.objects.contains_key(out.store.max_known_id)
            &&& forall|id: OID| #[trigger]
                out.store.objects.contains_key(id) ==> id <= out.store.max_known_id
        }),
{
    let first = LoadView::first_pass(tree, providers, now);
    lemma_load_identifiers(tree, providers, now);
    lemma_read_directives_sound(LoadView::start(), providers, tree.contents(), now);
    let front = first.deferred.drop_last();
    lemma_generate_all_sound(first, front, now);
    let so_far = first.generate_all(front, now)->Ok_0;
    lemma_generate_sound(so_far, first.deferred.last(), now);
}

/// A notice that was given stays given when another follows.
pub proof fn lemma_note_kept(notices: Seq<NoticeView>, next: NoticeView)
    ensures
        notices.push(next).contains(next),
        forall|n: NoticeView| notices.contains(n) ==> #[trigger] notices.push(next).contains(n),
{
    assert(notices.push(next)[notices.len() as int] == next);
    assert forall|n: NoticeView| notices.contains(n) implies #[trigger] notices.push(
        next,
    ).contains(n) by {
        let k = choose|k: int| 0 <= k < notices.len() && notices[k] == n;
        assert(notices.push(next)[k] == n);
    }
}

/// What the first pass does with a record to the objects, the names, the
/// records set aside and the identifiers under which it reads does not depend
/// on the notices given so far, nor on how many identifiers were observed; and
/// no notice given so far is lost. Loads that differ in their notices only
/// still differ in their notices only.
pub proof fn lemma_read_record_apart(
    a: LoadView,
    b: LoadView,
    providers: Map<Seq<char>, Kind>,
    record: Tree,
    reporting: bool,
    now: Timestamp,
)
    requires
        a.same_but_observed(b),
    ensures
        a.read_record(providers, record, reporting, now).same_but_observed(
            b.read_record(providers, record, reporting, now),
        ),
        a.same_but_notices(b) ==> a.read_record(providers, record, reporting, now).same_but_notices(
            b.read_record(providers, record, reporting, now),
        ),
        forall|n: NoticeView|
            a.notices.contains(n) ==> #[trigger] a.read_record(
                providers,
                record,
                reporting,
                now,
            ).notices.contains(n),
{
    let tag = record.initial_str();
    let stated = stated_id(record);
    let seen = a.observe_stated(stated);
    let after = a.read_record(providers, record, reporting, now);
    assert(seen.notices == a.notices);
    assert forall|n: NoticeView| a.notices.contains(n) implies #[trigger] after.notices.contains(
        n,
    ) by {
        if !providers.contains_key(tag) {
            lemma_note_kept(seen.notices, NoticeView::Skipped(unknown_type_error(tag, record)));
        } else {
            match stated {
                None => {},
                Some(Err(e)) => {
                    lemma_note_kept(seen.notices, NoticeView::Skipped(e));
                },
                Some(Ok(id)) => {
                    let resolved = NoticeView::Resolved { id, tag };
                    let told = if reporting {
                        seen.notices.push(resolved)
                    } else {
                        seen.notices
                    };
                    if reporting {
                        lemma_note_kept(seen.notices, resolved);
                    }
                    match decoded(providers[tag], record, id) {
                        Ok(_) => {},
                        Err(e) => {
                            lemma_note_kept(told, NoticeView::Skipped(e));
                        },
                    }
                },
            }
        }
    }
}

pub proof fn lemma_read_records_apart(
    a: LoadView,
    b: LoadView,
    providers: Map<Seq<char>, Kind>,
    records: Seq<Tree>,
    reporting: bool,
    now: Timestamp,
)
    requires
        a.same_but_observed(b),
    ensures
        a.read_records(providers, records, reporting, now).same_but_observed(
            b.read_records(providers, records, reporting, now),
        ),
        a.same_but_notices(b) ==> a.read_records(
            providers,
            records,
            reporting,
            now,
        ).same_but_notices(b.read_records(providers, records, reporting, now)),
        forall|n: NoticeView|
            a.notices.contains(n) ==> #[trigger] a.read_records(
                providers,
                records,
                reporting,
                now,
            ).notices.contains(n),
    decreases records.len(),
{
    if records.len() > 0 {
        let front = records.drop_last();
        lemma_read_records_apart(a, b, providers, front, reporting, now);
        let x = a.read_records(providers, front, reporting, now);
        let y = b.read_records(providers, front, reporting, now);
        lemma_read_record_apart(x, y, providers, records.last(), reporting, now);
        let after = a.read_records(providers, records, reporting, now);
        assert forall|n: NoticeView| a.notices.contains(n) implies #[trigger] after.notices.contains(
            n,
        ) by {
            assert(x.notices.contains(n));
        }
    }
}

pub proof fn lemma_read_directive_apart(
    a: LoadView,
    b: LoadView,
    providers: Map<Seq<char>, Kind>,
    directive: Tree,
    now: Timestamp,
)
    requires
        a.same_but_observed(b),
    ensures
        a.read_directive(providers, directive, now).same_but_observed(
            b.read_directive(providers, directive, now),
        ),
        a.same_but_notices(b) ==> a.read_directive(providers, directive, now).same_but_notices(
            b.read_directive(providers, directive, now),
        ),
        forall|n: NoticeView|
            a.notices.contains(n) ==> #[trigger] a.read_directive(
                providers,
                directive,
                now,
            ).notices.contains(n),
{
    let word = directive.initial_str();
    if word == word_insert() {
        lemma_read_records_apart(
            a,
            b,
            providers,
            directive.tail(),
            is_reporting(directive),
            now,
        );
    } else if word == word_make_reply_tree() {
        lemma_note_kept(a.notices, NoticeView::NotReady);
    } else {
        lemma_note_kept(a.notices, NoticeView::Skipped(unknown_type_error(word, directive)));
    }
}

pub proof fn lemma_read_directives_apart(
    a: LoadView,
    b: LoadView,
    providers: Map<Seq<char>, Kind>,
    directives: Seq<Tree>,
    now: Timestamp,
)
    requires
        a.same_but_observed(b),
    ensures
        a.read_directives(providers, directives, now).same_but_observed(
            b.read_directives(providers, directives, now),
        ),
        a.same_but_notices(b) ==> a.read_directives(providers, directives, now).same_but_notices(
            b.read_directives(providers, directives, now),
        ),
        forall|n: NoticeView|
            a.notices.contains(n) ==> #[trigger] a.read_directives(
                providers,
                directives,
                now,
            ).notices.contains(n),
    decreases directives.len(),
{
    if directives.len() > 0 {
        let front = directives.drop_last();
        lemma_read_directives_apart(a, b, providers, front, now);
        let x = a.read_directives(providers, front, now);
        let y = b.read_directives(providers, front, now);
        lemma_read_directive_apart(x, y, providers, directives.last(), now);
        let after = a.read_directives(providers, directives, now);
        assert forall|n: NoticeView| a.notices.contains(n) implies #[trigger] after.notices.contains(
            n,
        ) by {
            assert(x.notices.contains(n));
        }
    }
}

/// What the second pass does to the store and the identifiers does not depend
/// on the notices given so far, and no notice given so far is lost.
pub proof fn lemma_generate_all_apart(
    a: LoadView,
    b: LoadView,
    pending: Seq<DeferredView>,
    now: Timestamp,
)
    requires
        a.same_but_notices(b),
    ensures
        a.generate_all(pending, now) is Ok <==> b.generate_all(pending, now) is Ok,
        a.generate_all(pending, now) is Ok ==> a.generate_all(pending, now)->Ok_0.same_but_notices(
            b.generate_all(pending, now)->Ok_0,
        ),
        a.generate_all(pending, now) is Ok ==> forall|n: NoticeView|
            a.notices.contains(n) ==> #[trigger] a.generate_all(
                pending,
                now,
            )->Ok_0.notices.contains(n),
    decreases pending.len(),
{
    if pending.len() > 0 {
        let front = pending.drop_last();
        lemma_generate_all_apart(a, b, front, now);
        if a.generate_all(front, now) is Ok {
            let x = a.generate_all(front, now)->Ok_0;
            let y = b.generate_all(front, now)->Ok_0;
            let last = pending.last();
            if x.generate(last, now) is Ok {
                let id = (x.store.max_known_id + 1) as OID;
                let made = LoadView {
                    store: KnowledgeView { max_known_id: id, ..x.store },
                    generated: x.generated.push(id),
                    ..x
                };
                let resolved = NoticeView::Resolved { id, tag: last.record.initial_str() };
                let told = if last.reporting {
                    made.notices.push(resolved)
                } else {
                    made.notices
                };
                let after = x.generate(last, now)->Ok_0;
                assert forall|n: NoticeView| a.notices.contains(n) implies #[trigger] after.notices.contains(
                    n,
                ) by {
                    assert(x.notices.contains(n));
                    lemma_note_kept(made.notices, resolved);
                    match decoded(last.kind, last.record, id) {
                        Ok(_) => {},
                        Err(e) => {
                            lemma_note_kept(told, NoticeView::Skipped(e));
                        },
                    }
                }
            }
        }
    }
}

/// A directive without record `i` of its tail.
pub open spec fn without_record(directive: Tree, i: int) -> Tree {
    match directive {
        Tree::Branch(items) => Tree::Branch(items.remove(i + 1)),
        Tree::Leaf(_) => directive,
    }
}

/// The warning that a record under a type tag without provider draws.
pub open spec fn unknown_record_warning(record: Tree) -> NoticeView {
    NoticeView::Skipped(unknown_type_error(record.initial_str(), record))
}

/// Whether a record states an identifier that its `id` field decodes to.
pub open spec fn states_identifier(record: Tree) -> bool {
    stated_id(record) matches Some(Ok(_))
}

/// A record under a type tag that has no provider is skipped with a warning.
/// It becomes no object, it is not set aside, and nothing is read under its
/// identifier; the other records of its directive are read as if it were not
/// there, but that the identifier it states has been observed. A record that
/// states none leaves no trace but the warning.
pub proof fn lemma_unknown_record_skipped(
    s: LoadView,
    providers: Map<Seq<char>, Kind>,
    records: Seq<Tree>,
    i: int,
    reporting: bool,
    now: Timestamp,
)
    requires
        0 <= i < records.len(),
        !providers.contains_key(records[i].initial_str()),
    ensures
        s.read_records(providers, records, reporting, now).same_but_observed(
            s.read_records(providers, records.remove(i), reporting, now),
        ),
        !states_identifier(records[i]) ==> s.read_records(
            providers,
            records,
            reporting,
            now,
        ).same_but_notices(s.read_records(providers, records.remove(i), reporting, now)),
        s.read_records(providers, records, reporting, now).notices.contains(
            unknown_record_warning(records[i]),
        ),
    decreases records.len(),
{
    let warning = unknown_record_warning(records[i]);
    let front = records.drop_last();
    let so_far = s.read_records(providers, front, reporting, now);
    if i == records.len() - 1 {
        assert(records.remove(i) =~= front);
        let seen = so_far.observe_stated(stated_id(records[i]));
        lemma_note_kept(seen.notices, warning);
    } else {
        let others = records.remove(i);
        assert(others.drop_last() =~= front.remove(i));
        assert(others.last() == records.last());
        assert(front[i] == records[i]);
        lemma_unknown_record_skipped(s, providers, front, i, reporting, now);
        lemma_read_record_apart(
            so_far,
            s.read_records(providers, front.remove(i), reporting, now),
            providers,
            records.last(),
            reporting,
            now,
        );
    }
}

/// The first pass over directives of which one holds a record under a type tag
/// without provider comes to the same as the first pass over the directives
/// without that record, but for the warning and for the identifier that the
/// record states, which has been observed.
pub proof fn lemma_unknown_record_in_directives(
    s: LoadView,
    providers: Map<Seq<char>, Kind>,
    directives: Seq<Tree>,
    d: int,
    i: int,
    now: Timestamp,
)
    requires
        0 <= d < directives.len(),
        directives[d] is Branch,
        directives[d].initial_str() == word_insert(),
        0 <= i < directives[d].tail().len(),
        !providers.contains_key(directives[d].tail()[i].initial_str()),
    ensures
        s.read_directives(providers, directives, now).same_but_observed(
            s.read_directives(
                providers,
                directives.update(d, without_record(directives[d], i)),
                now,
            ),
        ),
        !states_identifier(directives[d].tail()[i]) ==> s.read_directives(
            providers,
            directives,
            now,
        ).same_but_notices(
            s.read_directives(
                providers,
                directives.update(d, without_record(directives[d], i)),
                now,
            ),
        ),
        s.read_directives(providers, directives, now).notices.contains(
            unknown_record_warning(directives[d].tail()[i]),
        ),
    decreases directives.len(),
{
    let directive = directives[d];
    let lighter = without_record(directive, i);
    let others = directives.update(d, lighter);
    let front = directives.drop_last();
    if d == directives.len() - 1 {
        assert(others.drop_last() =~= front);
        let so_far = s.read_directives(providers, front, now);
        assert(lighter.tail() =~= directive.tail().remove(i));
        assert(lighter.initial_str() == directive.initial_str());
        assert(is_reporting(lighter) == is_reporting(directive)) by {
            assert(lighter.contents()[0] == directive.contents()[0]);
        }
        lemma_unknown_record_skipped(
            so_far,
            providers,
            directive.tail(),
            i,
            is_reporting(directive),
            now,
        );
    } else {
        assert(others.drop_last() =~= front.update(d, lighter));
        assert(others.last() == directives.last());
        assert(front[d] == directive);
        lemma_unknown_record_in_directives(s, providers, front, d, i, now);
        lemma_read_directive_apart(
            s.read_directives(providers, front, now),
            s.read_directives(providers, front.update(d, lighter), now),
            providers,
            directives.last(),
            now,
        );
    }
}

/// An identifier that the input states, but under which no record was read, is
/// the identifier of no object in the loaded store: no name lists it and it
/// has no short name. So it is with the identifier of a record under an unknown
/// type tag, unless a record that was read states the same.
pub proof fn lemma_unread_identifier_absent(
    tree: Tree,
    providers: Map<Seq<char>, Kind>,
    x: OID,
    now: Timestamp,
)
    requires
        LoadView::load(tree, providers, now) is Ok,
        LoadView::load(tree, providers, now)->Ok_0.explicit.contains(x),
        !LoadView::load(tree, providers, now)->Ok_0.read.contains(x),
    ensures
        ({
            let out = LoadView::load(tree, providers, now)->Ok_0;
            &&& !out.store.objects.contains_key(x)
            &&& !out.store.short_names.contains_key(x)
            &&& !out.generated.contains(x)
            &&& x <= out.store.max_known_id
            &&& forall|name: Seq<char>| #[trigger]
                out.store.names.contains_key(name) ==> !out.store.names[name].contains(x)
        }),
{
    lemma_load_identifiers(tree, providers, now);
    let out = LoadView::load(tree, providers, now)->Ok_0;
    let i = choose|i: int| 0 <= i < out.explicit.len() && out.explicit[i] == x;
    assert(out.explicit[i] <= out.store.max_known_id);
    if out.generated.contains(x) {
        let j = choose|j: int| 0 <= j < out.generated.len() && out.generated[j] == x;
        assert(out.explicit[i] < out.generated[j]);
    }
    assert forall|name: Seq<char>| #[trigger] out.store.names.contains_key(name) implies !out.store.names[name].contains(
        x,
    ) by {
        if out.store.names[name].contains(x) {
            let k = choose|k: int| 0 <= k < out.store.names[name].len() && out.store.names[name][k]
                == x;
            assert(out.store.named(out.store.names[name][k], name));
        }
    }
}

/// A record under a type tag that has no provider draws a warning and is no
/// object of the loaded store. The load without it does not fail where the load
/// with it succeeds; both read under the same stated identifiers and generate
/// as many. The identifier that the record states is observed: it is among
/// the stated identifiers, no generated identifier is that or less, and it is
/// the identifier of no object unless a record that was read states the same.
/// A record that states no identifier leaves no trace but the warning.
pub proof fn lemma_unknown_record_in_load(
    providers: Map<Seq<char>, Kind>,
    directives: Seq<Tree>,
    d: int,
    i: int,
    now: Timestamp,
)
    requires
        0 <= d < directives.len(),
        directives[d] is Branch,
        directives[d].initial_str() == word_insert(),
        0 <= i < directives[d].tail().len(),
        !providers.contains_key(directives[d].tail()[i].initial_str()),
    ensures
        ({
            let record = directives[d].tail()[i];
            let with = LoadView::load(Tree::Branch(directives), providers, now);
            let without = LoadView::load(
                Tree::Branch(directives.update(d, without_record(directives[d], i))),
                providers,
                now,
            );
            &&& with is Ok ==> without is Ok
            &&& with is Ok ==> {
                &&& with->Ok_0.read == without->Ok_0.read
                &&& with->Ok_0.generated.len() == without->Ok_0.generated.len()
                &&& with->Ok_0.notices.contains(unknown_record_warning(record))
            }
            &&& with is Ok ==> (stated_id(record) matches Some(Ok(x)) ==> {
                &&& with->Ok_0.explicit.contains(x)
                &&& x <= with->Ok_0.store.max_known_id
                &&& !with->Ok_0.generated.contains(x)
                &&& !with->Ok_0.read.contains(x) ==> !with->Ok_0.store.objects.contains_key(x)
            })
            &&& !states_identifier(record) ==> {
                &&& with is Ok <==> without is Ok
                &&& with is Ok ==> with->Ok_0.same_but_notices(without->Ok_0)
            }
        }),
{
    let record = directives[d].tail()[i];
    let start = LoadView::start();
    let others = directives.update(d, without_record(directives[d], i));
    let tree = Tree::Branch(directives);
    lemma_unknown_record_in_directives(start, providers, directives, d, i, now);
    lemma_stated_is_explicit(start, providers, directives, d, i, now);
    let a = start.read_directives(providers, directives, now);
    let b = start.read_directives(providers, others, now);
    assert(a == LoadView::first_pass(tree, providers, now));
    assert(b == LoadView::first_pass(Tree::Branch(others), providers, now));
    lemma_generate_all_succeeds(a, a.deferred, now);
    lemma_generate_all_succeeds(b, b.deferred, now);
    lemma_generate_all_apart(a, a, a.deferred, now);
    lemma_load_identifiers(tree, providers, now);
    lemma_load_identifiers(Tree::Branch(others), providers, now);
    if !states_identifier(record) {
        lemma_generate_all_apart(a, b, a.deferred, now);
    }
    if LoadView::load(tree, providers, now) is Ok {
        let out = LoadView::load(tree, providers, now)->Ok_0;
        match stated_id(record) {
            Some(Ok(x)) => {
                assert(out.explicit.contains(x));
                if !out.read.contains(x) {
                    lemma_unread_identifier_absent(tree, providers, x, now);
                }
                let k = choose|k: int| 0 <= k < out.explicit.len() && out.explicit[k] == x;
                assert(out.explicit[k] <= out.store.max_known_id);
                if out.generated.contains(x) {
                    let j = choose|j: int| 0 <= j < out.generated.len() && out.generated[j] == x;
                    assert(out.explicit[k] < out.generated[j]);
                }
            },
            _ => {},
        }
    }
}

/// The first pass keeps every identifier it has taken for stated.
pub proof fn lemma_read_record_keeps_explicit(
    s: LoadView,
    providers: Map<Seq<char>, Kind>,
    record: Tree,
    reporting: bool,
    now: Timestamp,
)
    ensures
        forall|x: OID|
            s.explicit.contains(x) ==> #[trigger] s.read_record(
                providers,
                record,
                reporting,
                now,
            ).explicit.contains(x),
        stated_id(record) matches Some(Ok(x)) ==> s.read_record(
            providers,
            record,
            reporting,
            now,
        ).explicit.contains(x),
{
    match stated_id(record) {
        Some(Ok(id)) => {
            lemma_push_contains(s.explicit, id);
        },
        _ => {},
    }
}

pub proof fn lemma_read_records_keep_explicit(
    s: LoadView,
    providers: Map<Seq<char>, Kind>,
    records: Seq<Tree>,
    reporting: bool,
    now: Timestamp,
)
    ensures
        forall|x: OID|
            s.explicit.contains(x) ==> #[trigger] s.read_records(
                providers,
                records,
                reporting,
                now,
            ).explicit.contains(x),
        forall|i: int|
            0 <= i < records.len() && (stated_id(#[trigger] records[i]) matches Some(Ok(_)))
                ==> s.read_records(providers, records, reporting, now).explicit.contains(
                stated_id(records[i])->Some_0->Ok_0,
            ),
    decreases records.len(),
{
    if records.len() > 0 {
        let front = records.drop_last();
        lemma_read_records_keep_explicit(s, providers, front, reporting, now);
        let so_far = s.read_records(providers, front, reporting, now);
        lemma_read_record_keeps_explicit(so_far, providers, records.last(), reporting, now);
        let after = s.read_records(providers, records, reporting, now);
        assert forall|x: OID| s.explicit.contains(x) implies #[trigger] after.explicit.contains(
            x,
        ) by {
            assert(so_far.explicit.contains(x));
        }
        assert forall|i: int|
            0 <= i < records.len() && (stated_id(#[trigger] records[i]) matches Some(
                Ok(_),
            )) implies after.explicit.contains(stated_id(records[i])->Some_0->Ok_0) by {
            if i < front.len() {
                assert(front[i] == records[i]);
                assert(so_far.explicit.contains(stated_id(front[i])->Some_0->Ok_0));
            }
        }
    }
}

pub proof fn lemma_read_directives_keep_explicit(
    s: LoadView,
    providers: Map<Seq<char>, Kind>,
    directives: Seq<Tree>,
    now: Timestamp,
)
    ensures
        forall|x: OID|
            s.explicit.contains(x) ==> #[trigger] s.read_directives(
                providers,
                directives,
                now,
            ).explicit.contains(x),
        forall|d: int, i: int|
            0 <= d < directives.len() && directives[d].initial_str() == word_insert() && 0 <= i
                < directives[d].tail().len() && (stated_id(
                #[trigger] directives[d].tail()[i],
            ) matches Some(Ok(_))) ==> s.read_directives(providers, directives, now).explicit.contains(
                stated_id(directives[d].tail()[i])->Some_0->Ok_0,
            ),
    decreases directives.len(),
{
    if directives.len() > 0 {
        let front = directives.drop_last();
        let last = directives.last();
        lemma_read_directives_keep_explicit(s, providers, front, now);
        let so_far = s.read_directives(providers, front, now);
        if last.initial_str() == word_insert() {
            lemma_read_records_keep_explicit(
                so_far,
                providers,
                last.tail(),
                is_reporting(last),
                now,
            );
        }
        let after = s.read_directives(providers, directives, now);
        assert forall|x: OID| s.explicit.contains(x) implies #[trigger] after.explicit.contains(
            x,
        ) by {
            assert(so_far.explicit.contains(x));
        }
        assert forall|d: int, i: int|
            0 <= d < directives.len() && directives[d].initial_str() == word_insert() && 0 <= i
                < directives[d].tail().len() && (stated_id(
                #[trigger] directives[d].tail()[i],
            ) matches Some(Ok(_))) implies after.explicit.contains(
            stated_id(directives[d].tail()[i])->Some_0->Ok_0,
        ) by {
            if d < front.len() {
                assert(front[d] == directives[d]);
                assert(so_far.explicit.contains(stated_id(front[d].tail()[i])->Some_0->Ok_0));
            }
        }
    }
}

/// Every identifier that a record of an `insert` directive states is among the
/// stated identifiers of the first pass, whatever the record's type tag.
pub proof fn lemma_stated_is_explicit(
    s: LoadView,
    providers: Map<Seq<char>, Kind>,
    directives: Seq<Tree>,
    d: int,
    i: int,
    now: Timestamp,
)
    requires
        0 <= d < directives.len(),
        directives[d].initial_str() == word_insert(),
        0 <= i < directives[d].tail().len(),
    ensures
        stated_id(directives[d].tail()[i]) matches Some(Ok(x)) ==> s.read_directives(
            providers,
            directives,
            now,
        ).explicit.contains(x),
{
    lemma_read_directives_keep_explicit(s, providers, directives, now);
    if stated_id(directives[d].tail()[i]) matches Some(Ok(x)) {
        assert(s.read_directives(providers, directives, now).explicit.contains(
            stated_id(directives[d].tail()[i])->Some_0->Ok_0,
        ));
    }
}

/// Whether a notice says that a record was malformed.
pub open spec fn is_malformed(notice: NoticeView) -> bool {
    notice matches NoticeView::Skipped(e) && e.kind != ErrorKind::UnknownType
}

/// Whether no record was found malformed.
pub open spec fn none_malformed(notices: Seq<NoticeView>) -> bool {
    forall|k: int| 0 <= k < notices.len() ==> !is_malformed(#[trigger] notices[k])
}

impl LoadView {
    /// Whether every identifier under which a record was read or which was
    /// generated, `spare` left aside, is the identifier of an object in the
    /// store.
    pub open spec fn all_inserted_but(self, spare: Option<OID>) -> bool {
        &&& forall|i: int|
            0 <= i < self.read.len() && Some(#[trigger] self.read[i]) != spare
                ==> self.store.objects.contains_key(self.read[i])
        &&& forall|i: int|
            0 <= i < self.generated.len() && Some(#[trigger] self.generated[i]) != spare
                ==> self.store.objects.contains_key(self.generated[i])
    }

    /// Whether every identifier under which a record was read or which was
    /// generated is the identifier of an object in the store.
    pub open spec fn all_inserted(self) -> bool {
        self.all_inserted_but(None)
    }
}

/// Where no notice so far tells of a malformed record, no notice before the
/// last did.
pub proof fn lemma_none_malformed_before(notices: Seq<NoticeView>, next: NoticeView)
    ensures
        none_malformed(notices.push(next)) <==> (none_malformed(notices) && !is_malformed(next)),
{
    let after = notices.push(next);
    if none_malformed(after) {
        assert(after[notices.len() as int] == next);
        assert forall|k: int| 0 <= k < notices.len() implies !is_malformed(
            #[trigger] notices[k],
        ) by {
            assert(after[k] == notices[k]);
        }
    }
    if none_malformed(notices) && !is_malformed(next) {
        assert forall|k: int| 0 <= k < after.len() implies !is_malformed(#[trigger] after[k]) by {
            if k < notices.len() {
                assert(after[k] == notices[k]);
            }
        }
    }
}

pub proof fn lemma_insert_record_complete(
    s: LoadView,
    kind: Kind,
    record: Tree,
    id: OID,
    reporting: bool,
    now: Timestamp,
)
    requires
        none_malformed(s.notices) ==> s.all_inserted_but(Some(id)),
    ensures
        none_malformed(s.insert_record(kind, record, id, reporting, now).notices) ==> s.insert_record(
            kind,
            record,
            id,
            reporting,
            now,
        ).all_inserted(),
{
    let resolved = NoticeView::Resolved { id, tag: record.initial_str() };
    let told = if reporting {
        s.note(resolved)
    } else {
        s
    };
    lemma_none_malformed_before(s.notices, resolved);
    match decoded(kind, record, id) {
        Ok(ob) => {},
        Err(e) => {
            lemma_decoded_error(kind, record, id);
            lemma_none_malformed_before(told.notices, NoticeView::Skipped(e));
        },
    }
}

pub proof fn lemma_read_record_complete(
    s: LoadView,
    providers: Map<Seq<char>, Kind>,
    record: Tree,
    reporting: bool,
    now: Timestamp,
)
    requires
        none_malformed(s.notices) ==> s.all_inserted(),
    ensures
        none_malformed(s.read_record(providers, record, reporting, now).notices) ==> s.read_record(
            providers,
            record,
            reporting,
            now,
        ).all_inserted(),
{
    let tag = record.initial_str();
    let stated = stated_id(record);
    let seen = s.observe_stated(stated);
    assert(seen.notices == s.notices && seen.read == s.read && seen.generated == s.generated
        && seen.store.objects == s.store.objects);
    if !providers.contains_key(tag) {
        lemma_none_malformed_before(
            seen.notices,
            NoticeView::Skipped(unknown_type_error(tag, record)),
        );
    } else {
        match stated {
            None => {},
            Some(Err(e)) => {
                lemma_none_malformed_before(seen.notices, NoticeView::Skipped(e));
            },
            Some(Ok(id)) => {
                let told = LoadView { read: seen.read.push(id), ..seen };
                assert(none_malformed(told.notices) ==> told.all_inserted_but(Some(id))) by {
                    if none_malformed(told.notices) {
                        assert forall|i: int|
                            0 <= i < told.read.len() && Some(#[trigger] told.read[i]) != Some(
                                id,
                            ) implies told.store.objects.contains_key(told.read[i]) by {
                            assert(told.read[i] == s.read[i]);
                        }
                    }
                }
                lemma_insert_record_complete(told, providers[tag], record, id, reporting, now);
            },
        }
    }
}

pub proof fn lemma_read_records_complete(
    s: LoadView,
    providers: Map<Seq<char>, Kind>,
    records: Seq<Tree>,
    reporting: bool,
    now: Timestamp,
)
    requires
        none_malformed(s.notices) ==> s.all_inserted(),
    ensures
        none_malformed(s.read_records(providers, records, reporting, now).notices)
            ==> s.read_records(providers, records, reporting, now).all_inserted(),
    decreases records.len(),
{
    if records.len() > 0 {
        lemma_read_records_complete(s, providers, records.drop_last(), reporting, now);
        lemma_read_record_complete(
            s.read_records(providers, records.drop_last(), reporting, now),
            providers,
            records.last(),
            reporting,
            now,
        );
    }
}

pub proof fn lemma_read_directives_complete(
    s: LoadView,
    providers: Map<Seq<char>, Kind>,
    directives: Seq<Tree>,
    now: Timestamp,
)
    requires
        none_malformed(s.notices) ==> s.all_inserted(),
    ensures
        none_malformed(s.read_directives(providers, directives, now).notices)
            ==> s.read_directives(providers, directives, now).all_inserted(),
    decreases directives.len(),
{
    if directives.len() > 0 {
        lemma_read_directives_complete(s, providers, directives.drop_last(), now);
        let so_far = s.read_directives(providers, directives.drop_last(), now);
        let directive = directives.last();
        let word = directive.initial_str();
        if word == word_insert() {
            lemma_read_records_complete(
                so_far,
                providers,
                directive.tail(),
                is_reporting(directive),
                now,
            );
        } else if word == word_make_reply_tree() {
            lemma_none_malformed_before(so_far.notices, NoticeView::NotReady);
        } else {
            lemma_none_malformed_before(
                so_far.notices,
                NoticeView::Skipped(unknown_type_error(word, directive)),
            );
        }
    }
}

pub proof fn lemma_generate_all_complete(s: LoadView, pending: Seq<DeferredView>, now: Timestamp)
    requires
        none_malformed(s.notices) ==> s.all_inserted(),
        s.generate_all(pending, now) is Ok,
    ensures
        none_malformed(s.generate_all(pending, now)->Ok_0.notices) ==> s.generate_all(
            pending,
            now,
        )->Ok_0.all_inserted(),
    decreases pending.len(),
{
    if pending.len() > 0 {
        lemma_generate_all_complete(s, pending.drop_last(), now);
        let so_far = s.generate_all(pending.drop_last(), now)->Ok_0;
        let last = pending.last();
        let id = (so_far.store.max_known_id + 1) as OID;
        let made = LoadView {
            store: KnowledgeView { max_known_id: id, ..so_far.store },
            generated: so_far.generated.push(id),
            ..so_far
        };
        assert(none_malformed(made.notices) ==> made.all_inserted_but(Some(id))) by {
            if none_malformed(made.notices) {
                assert forall|i: int|
                    0 <= i < made.generated.len() && Some(#[trigger] made.generated[i]) != Some(
                        id,
                    ) implies made.store.objects.contains_key(made.generated[i]) by {
                    assert(made.generated[i] == so_far.generated[i]);
                }
            }
        }
        lemma_insert_record_complete(made, last.kind, last.record, id, last.reporting, now);
    }
}

/// Where no record of the input is malformed, every identifier under which a
/// record was read and every identifier that was generated is the identifier
/// of an object in the loaded store. The high-water mark is then the greatest
/// identifier in the store as soon as an identifier was generated, or a record
/// was read under the high-water mark. It is not where the floor, or an
/// identifier that only a skipped record states, lies above all of them.
pub proof fn lemma_load_complete(tree: Tree, providers: Map<Seq<char>, Kind>, now: Timestamp)
    requires
        LoadView::load(tree, providers, now) is Ok,
        none_malformed(LoadView::load(tree, providers, now)->Ok_0.notices),
    ensures
        ({
            let out = LoadView::load(tree, providers, now)->Ok_0;
            &&& out.all_inserted()
            &&& forall|id: OID| #[trigger]
                out.store.objects.contains_key(id) ==> id <= out.store.max_known_id
            &&& (out.generated.len() > 0 || out.read.contains(out.store.max_known_id))
                ==> out.store.objects.contains_key(out.store.max_known_id)
        }),
{
    let first = LoadView::first_pass(tree, providers, now);
    let start = LoadView::start();
    assert(start.all_inserted());
    lemma_read_directives_complete(start, providers, tree.contents(), now);
    lemma_generate_all_complete(first, first.deferred, now);
    lemma_load_identifiers(tree, providers, now);
    let done = first.generate_all(first.deferred, now)->Ok_0;
    let out = LoadView::load(tree, providers, now)->Ok_0;
    assert(out.notices == done.notices);
    assert(out.store == done.store);
    assert(out.read == done.read);
    assert(out.generated == done.generated);
    assert(done.all_inserted());
    assert(out.all_inserted());
    let top = out.store.max_known_id;
    if out.read.contains(top) {
        let i = choose|i: int| 0 <= i < out.read.len() && out.read[i] == top;
        assert(out.store.objects.contains_key(out.read[i]));
    }
    if out.generated.len() > 0 {
        let last = out.generated.len() - 1;
        assert(out.generated[last] == first.store.max_known_id + 1 + last);
        assert(out.store.objects.contains_key(out.generated[last]));
    }
}

/// Every object of a loaded store states the identifier it is kept under.
pub proof fn lemma_load_own_identifiers(
    tree: Tree,
    providers: Map<Seq<char>, Kind>,
    now: Timestamp,
)
    requires
        LoadView::load(tree, providers, now) is Ok,
    ensures
        ({
            let out = LoadView::load(tree, providers, now)->Ok_0;
            forall|id: OID| #[trigger]
                out.store.objects.contains_key(id) ==> out.store.objects[id].ob.id() == id
        }),
{
    lemma_load_identifiers(tree, providers, now);
}

/// The second pass succeeds exactly where the identifiers do not run out:
/// where as many identifiers as records are pending lie above the high-water
/// mark. Each record, well formed or not, takes one.
pub proof fn lemma_generate_all_succeeds(s: LoadView, pending: Seq<DeferredView>, now: Timestamp)
    ensures
        s.generate_all(pending, now) is Ok <==> s.store.max_known_id + pending.len()
            <= u128::MAX,
        s.generate_all(pending, now) is Ok ==> s.generate_all(
            pending,
            now,
        )->Ok_0.store.max_known_id == s.store.max_known_id + pending.len(),
    decreases pending.len(),
{
    if pending.len() > 0 {
        lemma_generate_all_succeeds(s, pending.drop_last(), now);
    }
}

/// A load succeeds exactly where the identifiers do not run out: where as many
/// identifiers as records were set aside lie above the high-water mark that
/// the first pass reached.
pub proof fn lemma_load_succeeds(tree: Tree, providers: Map<Seq<char>, Kind>, now: Timestamp)
    ensures
        ({
            let first = LoadView::first_pass(tree, providers, now);
            LoadView::load(tree, providers, now) is Ok <==> first.store.max_known_id
                + first.deferred.len() <= u128::MAX
        }),
{
    let first = LoadView::first_pass(tree, providers, now);
    lemma_generate_all_succeeds(first, first.deferred, now);
}

/// The notice that a directive other than `insert` draws: that it is not
/// carried out yet, or that it is unknown.
pub open spec fn directive_notice(directive: Tree) -> NoticeView {
    if directive.initial_str() == word_make_reply_tree() {
        NoticeView::NotReady
    } else {
        NoticeView::Skipped(unknown_type_error(directive.initial_str(), directive))
    }
}

/// The first pass over directives of which one is not `insert` comes to the
/// same as the first pass over the directives without that one, but for its
/// notice.
pub proof fn lemma_other_directive_in_directives(
    s: LoadView,
    providers: Map<Seq<char>, Kind>,
    directives: Seq<Tree>,
    d: int,
    now: Timestamp,
)
    requires
        0 <= d < directives.len(),
        directives[d].initial_str() != word_insert(),
    ensures
        s.read_directives(providers, directives, now).same_but_notices(
            s.read_directives(providers, directives.remove(d), now),
        ),
        s.read_directives(providers, directives, now).notices.contains(
            directive_notice(directives[d]),
        ),
    decreases directives.len(),
{
    let notice = directive_notice(directives[d]);
    let others = directives.remove(d);
    let front = directives.drop_last();
    if d == directives.len() - 1 {
        assert(others =~= front);
        let so_far = s.read_directives(providers, front, now);
        lemma_note_kept(so_far.notices, notice);
    } else {
        assert(others.drop_last() =~= front.remove(d));
        assert(others.last() == directives.last());
        assert(front[d] == directives[d]);
        lemma_other_directive_in_directives(s, providers, front, d, now);
        lemma_read_directive_apart(
            s.read_directives(providers, front, now),
            s.read_directives(providers, front.remove(d), now),
            providers,
            directives.last(),
            now,
        );
    }
}

/// A directive whose word is not `insert` draws its notice and changes neither
/// the store nor the identifiers: every record of the input is read, and given
/// its identifier, as if that directive were not there.
pub proof fn lemma_other_directive_in_load(
    providers: Map<Seq<char>, Kind>,
    directives: Seq<Tree>,
    d: int,
    now: Timestamp,
)
    requires
        0 <= d < directives.len(),
        directives[d].initial_str() != word_insert(),
    ensures
        ({
            let with = LoadView::load(Tree::Branch(directives), providers, now);
            let without = LoadView::load(Tree::Branch(directives.remove(d)), providers, now);
            &&& with is Ok <==> without is Ok
            &&& with is Ok ==> {
                &&& with->Ok_0.same_but_notices(without->Ok_0)
                &&& with->Ok_0.notices.contains(directive_notice(directives[d]))
            }
        }),
{
    let start = LoadView::start();
    lemma_other_directive_in_directives(start, providers, directives, d, now);
    let a = start.read_directives(providers, directives, now);
    let b = start.read_directives(providers, directives.remove(d), now);
    assert(a == LoadView::first_pass(Tree::Branch(directives), providers, now));
    assert(b == LoadView::first_pass(Tree::Branch(directives.remove(d)), providers, now));
    lemma_generate_all_apart(a, b, a.deferred, now);
}

} // verus!
