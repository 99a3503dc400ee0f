//! The bulk loader: reads a tree of directives into a store.
//!
//! Identifiers are resolved in two passes. The first pass goes through the
//! records in the order of the input. It looks for the identifier that a record
//! states before anything else: the high-water mark of the store rises to that
//! identifier, whatever becomes of the record. A record that states its
//! identifier is then read at once; a record that states none is set aside.
//! The second pass hands each record that was set aside the next identifier
//! above the high-water mark, in the order in which they were set aside. So no
//! generated identifier can meet one that the input states, wherever in the
//! input it stands and whether or not its record could be read.
//!
//! A directive or a type tag that is not known is skipped with a warning. A
//! record that is malformed is skipped with its error, and the records after it
//! are read all the same.

use vstd::prelude::*;
use crate::codec::{token_id, Base64Bi};
use crate::error::{
    bare_error, token_error, unknown_type_error, Error, ErrorKind, ErrorView,
};
use crate::expiry::Timestamp;
use crate::object::{decoded, key_id, yields, Kind, Object};
use crate::registry::Registry;
use crate::store::Knowledge;
use crate::store_model::KnowledgeView;
use crate::tree::{Node, Tree};
use crate::OID;

verus! {

/// What the loader has to say about its input.
#[derive(Debug, PartialEq, Eq)]
pub enum Notice {
    /// A directive or record was skipped, for the reason given. An error of
    /// kind `UnknownType` is a warning.
    Skipped(Error),
    /// A directive that is accepted but not carried out yet.
    NotReady,
    /// The identifier under which a record is read, for a record of a
    /// directive that asks for its identifiers.
    Resolved { id: OID, tag: String },
}

pub enum NoticeView {
    Skipped(ErrorView),
    NotReady,
    Resolved { id: OID, tag: Seq<char> },
}

impl View for Notice {
    type V = NoticeView;

    open spec fn view(&self) -> NoticeView {
        match self {
            Notice::Skipped(e) => NoticeView::Skipped(e@),
            Notice::NotReady => NoticeView::NotReady,
            Notice::Resolved { id, tag } => NoticeView::Resolved { id: *id, tag: tag@ },
        }
    }
}

/// A record that waits for an identifier.
struct Deferred<'a> {
    kind: Kind,
    record: &'a Node,
    reporting: bool,
}

/// A record that waits for an identifier: the kind it is to be read as, the
/// record, and whether its identifier is to be reported.
pub struct DeferredView {
    pub kind: Kind,
    pub record: Tree,
    pub reporting: bool,
}

impl<'a> View for Deferred<'a> {
    type V = DeferredView;

    closed spec fn view(&self) -> DeferredView {
        DeferredView { kind: self.kind, record: self.record@, reporting: self.reporting }
    }
}

/// A load in progress, or its outcome.
pub struct LoadView {
    pub store: KnowledgeView,
    /// The records set aside, in the order of the input.
    pub deferred: Seq<DeferredView>,
    pub notices: Seq<NoticeView>,
    /// Every identifier that a record of the input states, in the order of the
    /// input, whether or not the record could be read.
    pub explicit: Seq<OID>,
    /// Those of the stated identifiers under which a record was read: the
    /// record's type tag has a provider.
    pub read: Seq<OID>,
    /// The identifiers that were generated, in the order of their making.
    pub generated: Seq<OID>,
}

/// What a record says of its own identifier: nothing, an identifier, or a
/// token that stands for none.
pub open spec fn stated_id(record: Tree) -> Option<Result<OID, ErrorView>> {
    match record.seek_val(key_id()) {
        None => None,
        Some(token) => match token_id(token.initial_str()) {
            Ok(id) => Some(Ok(id)),
            Err((fault, cause)) => Some(Err(token_error(fault, cause, token))),
        },
    }
}

pub open spec fn word_insert() -> Seq<char> {
    "insert"@
}

pub open spec fn word_make_reply_tree() -> Seq<char> {
    "make_reply_tree"@
}

pub open spec fn word_report_ids() -> Seq<char> {
    "report_ids"@
}

/// Whether a directive asks that the identifiers of its records be reported:
/// its first item holds the flag `report_ids`.
pub open spec fn is_reporting(directive: Tree) -> bool {
    directive.contents().len() > 0 && directive.contents()[0].seek(word_report_ids()) is Some
}

impl LoadView {
    /// A load that has read nothing, into a store that knows nothing.
    pub open spec fn start() -> LoadView {
        LoadView {
            store: KnowledgeView::empty(),
            deferred: Seq::empty(),
            notices: Seq::empty(),
            explicit: Seq::empty(),
            read: Seq::empty(),
            generated: Seq::empty(),
        }
    }

    /// Takes note of what a record says of its identifier: a stated identifier
    /// is kept, and the high-water mark rises to it.
    pub open spec fn observe_stated(self, stated: Option<Result<OID, ErrorView>>) -> LoadView {
        match stated {
            Some(Ok(id)) => LoadView {
                store: self.store.observe(id),
                explicit: self.explicit.push(id),
                ..self
            },
            _ => self,
        }
    }

    pub open spec fn note(self, notice: NoticeView) -> LoadView {
        LoadView { notices: self.notices.push(notice), ..self }
    }

    /// Reads `record` as an object of kind `kind` under the identifier `id`,
    /// which is reported first where that is asked for. A record that is
    /// malformed leaves the store as it is.
    pub open spec fn insert_record(
        self,
        kind: Kind,
        record: Tree,
        id: OID,
        reporting: bool,
        now: Timestamp,
    ) -> LoadView {
        let told = if reporting {
            self.note(NoticeView::Resolved { id, tag: record.initial_str() })
        } else {
            self
        };
        match decoded(kind, record, id) {
            Ok(ob) => LoadView { store: told.store.consider(id, ob, now), ..told },
            Err(e) => told.note(NoticeView::Skipped(e)),
        }
    }

    /// The first pass on one record. The identifier that the record states is
    /// observed first. Then a record under a type tag without provider is
    /// skipped with a warning; a record whose `id` is no token is skipped with
    /// that error; a record without `id` is set aside; and a record with its
    /// identifier is read under it.
    pub open spec fn read_record(
        self,
        providers: Map<Seq<char>, Kind>,
        record: Tree,
        reporting: bool,
        now: Timestamp,
    ) -> LoadView {
        let tag = record.initial_str();
        let seen = self.observe_stated(stated_id(record));
        if !providers.contains_key(tag) {
            seen.note(NoticeView::Skipped(unknown_type_error(tag, record)))
        } else {
            match stated_id(record) {
                None => LoadView {
                    deferred: seen.deferred.push(
                        DeferredView { kind: providers[tag], record, reporting },
                    ),
                    ..seen
                },
                Some(Err(e)) => seen.note(NoticeView::Skipped(e)),
                Some(Ok(id)) => LoadView { read: seen.read.push(id), ..seen }.insert_record(
                    providers[tag],
                    record,
                    id,
                    reporting,
                    now,
                ),
            }
        }
    }

    /// The first pass on the records of one directive.
    pub open spec fn read_records(
        self,
        providers: Map<Seq<char>, Kind>,
        records: Seq<Tree>,
        reporting: bool,
        now: Timestamp,
    ) -> LoadView
        decreases records.len(),
    {
        if records.len() == 0 {
            self
        } else {
            self.read_records(providers, records.drop_last(), reporting, now).read_record(
                providers,
                records.last(),
                reporting,
                now,
            )
        }
    }

    /// The first pass on one directive.
    pub open spec fn read_directive(
        self,
        providers: Map<Seq<char>, Kind>,
        directive: Tree,
        now: Timestamp,
    ) -> LoadView {
        let word = directive.initial_str();
        if word == word_insert() {
            self.read_records(providers, directive.tail(), is_reporting(directive), now)
        } else if word == word_make_reply_tree() {
            self.note(NoticeView::NotReady)
        } else {
            self.note(NoticeView::Skipped(unknown_type_error(word, directive)))
        }
    }

    /// The first pass.
    pub open spec fn read_directives(
        self,
        providers: Map<Seq<char>, Kind>,
        directives: Seq<Tree>,
        now: Timestamp,
    ) -> LoadView
        decreases directives.len(),
    {
        if directives.len() == 0 {
            self
        } else {
            self.read_directives(providers, directives.drop_last(), now).read_directive(
                providers,
                directives.last(),
                now,
            )
        }
    }

    /// The second pass on one record: it is read under the identifier next
    /// above the high-water mark. Where there is none, the load fails.
    pub open spec fn generate(self, pending: DeferredView, now: Timestamp) -> Result<
        LoadView,
        ErrorView,
    > {
        if self.store.max_known_id == u128::MAX {
            Err(bare_error(ErrorKind::IdCollision(self.store.max_known_id)))
        } else {
            let id = (self.store.max_known_id + 1) as OID;
            Ok(
                LoadView {
                    store: KnowledgeView { max_known_id: id, ..self.store },
                    generated: self.generated.push(id),
                    ..self
                }.insert_record(pending.kind, pending.record, id, pending.reporting, now),
            )
        }
    }

    /// The second pass on the records `pending`.
    pub open spec fn generate_all(self, pending: Seq<DeferredView>, now: Timestamp) -> Result<
        LoadView,
        ErrorView,
    >
        decreases pending.len(),
    {
        if pending.len() == 0 {
            Ok(self)
        } else {
            match self.generate_all(pending.drop_last(), now) {
                Err(e) => Err(e),
                Ok(so_far) => so_far.generate(pending.last(), now),
            }
        }
    }

    /// The state after the first pass over `tree`.
    pub open spec fn first_pass(tree: Tree, providers: Map<Seq<char>, Kind>, now: Timestamp) -> LoadView {
        LoadView::start().read_directives(providers, tree.contents(), now)
    }

    /// The outcome of loading `tree`.
    pub open spec fn load(tree: Tree, providers: Map<Seq<char>, Kind>, now: Timestamp) -> Result<
        LoadView,
        ErrorView,
    > {
        let first = LoadView::first_pass(tree, providers, now);
        match first.generate_all(first.deferred, now) {
            Ok(done) => Ok(LoadView { deferred: Seq::empty(), ..done }),
            Err(e) => Err(e),
        }
    }
}

/// The object that `node` states under `id`, for the provider registered under
/// `tag`; without one, the error says that the type is unknown.
pub open spec fn dispatched(providers: Map<Seq<char>, Kind>, tag: Seq<char>, node: Tree, id: OID) -> Result<
    crate::object::ObjectView,
    ErrorView,
> {
    if providers.contains_key(tag) {
        decoded(providers[tag], node, id)
    } else {
        Err(unknown_type_error(tag, node))
    }
}

/// Reads `node` as an object of kind `kind` under the identifier `id` and has
/// the store take note of it. On a malformed record the store stays as it is.
pub fn insert(kind: Kind, node: &Node, id: OID, store: &mut Knowledge, now: Timestamp) -> (r:
    Result<(), Error>)
    requires
        old(store).wf(),
    ensures
        final(store).wf(),
        match decoded(kind, node@, id) {
            Ok(ob) => r is Ok && final(store)@ == old(store)@.consider(id, ob, now),
            Err(e) => r matches Err(x) && x@ == e && final(store)@ == old(store)@,
        },
{
    match Object::dewoodify_with_id(kind, node, id) {
        Ok(ob) => {
            store.consider(id, ob, now);
            Ok(())
        },
        Err(e) => Err(e),
    }
}

/// Hands `node` to the provider registered under `tag`, which reads it under
/// the identifier `id` into the store. Without such a provider the store stays
/// as it is and the error is of kind `UnknownType`, which a caller may take as
/// a warning.
pub fn dispatch(
    providers: &Registry,
    tag: &str,
    node: &Node,
    id: OID,
    store: &mut Knowledge,
    now: Timestamp,
) -> (r: Result<(), Error>)
    requires
        old(store).wf(),
    ensures
        final(store).wf(),
        match dispatched(providers@, tag@, node@, id) {
            Ok(ob) => r is Ok && final(store)@ == old(store)@.consider(id, ob, now),
            Err(e) => r matches Err(x) && x@ == e && final(store)@ == old(store)@,
        },
{
    match providers.provider(tag) {
        Some(kind) => insert(kind, node, id, store, now),
        None => Err(Error::unknown_type(tag, node)),
    }
}

pub open spec fn notice_views(notices: Seq<Notice>) -> Seq<NoticeView> {
    notices.map_values(|n: Notice| n@)
}

spec fn deferred_views<'a>(deferred: Seq<Deferred<'a>>) -> Seq<DeferredView> {
    deferred.map_values(|d: Deferred<'a>| d@)
}

/// A load in progress.
struct Loading<'a> {
    store: Knowledge,
    deferred: Vec<Deferred<'a>>,
    notices: Vec<Notice>,
    explicit: Vec<OID>,
    read: Vec<OID>,
    generated: Vec<OID>,
}

impl<'a> View for Loading<'a> {
    type V = LoadView;

    closed spec fn view(&self) -> LoadView {
        LoadView {
            store: self.store@,
            deferred: deferred_views(self.deferred@),
            notices: notice_views(self.notices@),
            explicit: self.explicit@,
            read: self.read@,
            generated: self.generated@,
        }
    }
}

impl<'a> Loading<'a> {
    closed spec fn wf(&self) -> bool {
        self.store.wf()
    }

    fn start() -> (state: Loading<'a>)
        ensures
            state.wf(),
            state@ == LoadView::start(),
    {
        let state = Loading {
            store: Knowledge::new(),
            deferred: Vec::new(),
            notices: Vec::new(),
            explicit: Vec::new(),
            read: Vec::new(),
            generated: Vec::new(),
        };
        assert(state@.deferred =~= Seq::<DeferredView>::empty());
        assert(state@.notices =~= Seq::<NoticeView>::empty());
        state
    }

    fn note(&mut self, notice: Notice)
        requires
            old(self).wf(),
        ensures
            final(self).wf(),
            final(self)@ == old(self)@.note(notice@),
    {
        self.notices.push(notice);
        assert(notice_views(self.notices@) =~= notice_views(old(self).notices@).push(notice@));
    }

    fn insert_record(&mut self, kind: Kind, record: &Node, id: OID, reporting: bool, now: Timestamp)
        requires
            old(self).wf(),
        ensures
            final(self).wf(),
            final(self)@ == old(self)@.insert_record(kind, record@, id, reporting, now),
    {
        if reporting {
            self.note(Notice::Resolved { id, tag: record.initial_str().to_owned() });
        }
        match insert(kind, record, id, &mut self.store, now) {
            Ok(_) => {},
            Err(e) => {
                self.note(Notice::Skipped(e));
            },
        }
    }

    /// What `record` says of its own identifier.
    fn stated_id(record: &Node) -> (stated: Option<Result<OID, Error>>)
        ensures
            match stated_id(record@) {
                None => stated is None,
                Some(expected) => stated matches Some(r) && yields(r, expected),
            },
    {
        match record.seek_val("id") {
            None => None,
            Some(token) => Some(Base64Bi.dewoodify(token)),
        }
    }

    fn read_record(&mut self, providers: &Registry, record: &'a Node, reporting: bool, now: Timestamp)
        requires
            old(self).wf(),
        ensures
            final(self).wf(),
            final(self)@ == old(self)@.read_record(providers@, record@, reporting, now),
    {
        let tag = record.initial_str();
        let stated = Self::stated_id(record);
        match &stated {
            Some(Ok(id)) => {
                self.store.observe_id(*id);
                self.explicit.push(*id);
            },
            _ => {},
        }
        assert(self@ == old(self)@.observe_stated(stated_id(record@)));
        let kind = match providers.provider(tag) {
            Some(kind) => kind,
            None => {
                self.note(Notice::Skipped(Error::unknown_type(tag, record)));
                return ;
            },
        };
        match stated {
            None => {
                let ghost before = self.deferred@;
                self.deferred.push(Deferred { kind, record, reporting });
                assert(deferred_views(self.deferred@) =~= deferred_views(before).push(
                    DeferredView { kind, record: record@, reporting },
                ));
            },
            Some(Err(e)) => {
                self.note(Notice::Skipped(e));
            },
            Some(Ok(id)) => {
                self.read.push(id);
                self.insert_record(kind, record, id, reporting, now);
            },
        }
    }

    fn read_records(&mut self, providers: &Registry, directive: &'a Node, reporting: bool, now: Timestamp)
        requires
            old(self).wf(),
        ensures
            final(self).wf(),
            final(self)@ == old(self)@.read_records(providers@, directive@.tail(), reporting, now),
    {
        let count = directive.tail_len();
        let mut i: usize = 0;
        assert(directive@.tail().take(0) =~= Seq::<Tree>::empty());
        while i < count
            invariant
                count == directive@.tail().len(),
                i <= count,
                self.wf(),
                self@ == old(self)@.read_records(
                    providers@,
                    directive@.tail().take(i as int),
                    reporting,
                    now,
                ),
            decreases count - i,
        {
            proof {
                let records = directive@.tail();
                assert(records.take(i + 1).drop_last() =~= records.take(i as int));
                assert(records.take(i + 1).last() == records[i as int]);
            }
            self.read_record(providers, directive.tail_item(i), reporting, now);
            i += 1;
        }
        assert(directive@.tail().take(count as int) =~= directive@.tail());
    }

    fn read_directive(&mut self, providers: &Registry, directive: &'a Node, now: Timestamp)
        requires
            old(self).wf(),
        ensures
            final(self).wf(),
            final(self)@ == old(self)@.read_directive(providers@, directive@, now),
    {
        let word = directive.initial_str();
        if crate::text::text_eq(word, "insert") {
            let reporting = directive.contents_len() > 0 && directive.content(0).seek(
                "report_ids",
            ).is_some();
            self.read_records(providers, directive, reporting, now);
        } else if crate::text::text_eq(word, "make_reply_tree") {
            self.note(Notice::NotReady);
        } else {
            self.note(Notice::Skipped(Error::unknown_type(word, directive)));
        }
    }

    fn read_directives(&mut self, providers: &Registry, tree: &'a Node, now: Timestamp)
        requires
            old(self).wf(),
        ensures
            final(self).wf(),
            final(self)@ == old(self)@.read_directives(providers@, tree@.contents(), now),
    {
        let count = tree.contents_len();
        let mut i: usize = 0;
        assert(tree@.contents().take(0) =~= Seq::<Tree>::empty());
        while i < count
            invariant
                count == tree@.contents().len(),
                i <= count,
                self.wf(),
                self@ == old(self)@.read_directives(
                    providers@,
                    tree@.contents().take(i as int),
                    now,
                ),
            decreases count - i,
        {
            proof {
                let directives = tree@.contents();
                assert(directives.take(i + 1).drop_last() =~= directives.take(i as int));
                assert(directives.take(i + 1).last() == directives[i as int]);
            }
            self.read_directive(providers, tree.content(i), now);
            i += 1;
        }
        assert(tree@.contents().take(count as int) =~= tree@.contents());
    }

    fn generate(&mut self, kind: Kind, record: &Node, reporting: bool, now: Timestamp) -> (r:
        Result<(), Error>)
        requires
            old(self).wf(),
        ensures
            final(self).wf(),
            match old(self)@.generate(DeferredView { kind, record: record@, reporting }, now) {
                Ok(next) => r is Ok && final(self)@ == next,
                Err(e) => r matches Err(x) && x@ == e,
            },
    {
        let high = self.store.max_known_id();
        if high == u128::MAX {
            return Err(Error::bare(ErrorKind::IdCollision(high)));
        }
        let id = self.store.gen_id();
        self.generated.push(id);
        self.insert_record(kind, record, id, reporting, now);
        Ok(())
    }
}

/// The outcome of a load.
pub struct Loaded {
    pub knowledge: Knowledge,
    pub notices: Vec<Notice>,
    /// Every identifier that a record of the input states, in the order of the
    /// input, whether or not the record could be read.
    pub explicit_ids: Vec<OID>,
    /// Those of the stated identifiers under which a record was read: the
    /// record's type tag has a provider.
    pub read_ids: Vec<OID>,
    /// The identifiers that were generated, in the order of their making.
    pub generated_ids: Vec<OID>,
}

impl View for Loaded {
    type V = LoadView;

    open spec fn view(&self) -> LoadView {
        LoadView {
            store: self.knowledge@,
            deferred: Seq::empty(),
            notices: notice_views(self.notices@),
            explicit: self.explicit_ids@,
            read: self.read_ids@,
            generated: self.generated_ids@,
        }
    }
}

/// Loads the directives of `tree` into a new store, reading each record with
/// the provider that `providers` holds for its type tag, and taking `now` as
/// the time at which every object is seen. The load fails only where a record
/// needs an identifier and none is left above the high-water mark.
pub fn load(tree: &Node, providers: &Registry, now: Timestamp) -> (r: Result<Loaded, Error>)
    ensures
        yields(r, LoadView::load(tree@, providers@, now)),
        r matches Ok(loaded) ==> loaded.knowledge.wf(),
{
    let mut state = Loading::start();
    state.read_directives(providers, tree, now);
    let ghost first = state@;
    let mut pending: Vec<Deferred> = Vec::new();
    std::mem::swap(&mut pending, &mut state.deferred);
    let mut i: usize = 0;
    assert(first.deferred.take(0) =~= Seq::<DeferredView>::empty());
    while i < pending.len()
        invariant
            i <= pending@.len(),
            deferred_views(pending@) == first.deferred,
            first == LoadView::first_pass(tree@, providers@, now),
            state.wf(),
            first.generate_all(first.deferred.take(i as int), now) == Ok::<LoadView, ErrorView>(
                LoadView { deferred: first.deferred, ..state@ },
            ),
        decreases pending@.len() - i,
    {
        proof {
            let all = first.deferred;
            assert(all.take(i + 1).drop_last() =~= all.take(i as int));
            assert(all.take(i + 1).last() == all[i as int]);
            assert(all[i as int] == pending@[i as int]@);
        }
        let ghost before = LoadView { deferred: first.deferred, ..state@ };
        match state.generate(pending[i].kind, pending[i].record, pending[i].reporting, now) {
            Ok(_) => {},
            Err(e) => {
                proof {
                    let all = first.deferred;
                    assert(before.generate(all[i as int], now) is Err);
                    assert(first.generate_all(all.take(i + 1), now) == before.generate(
                        all[i as int],
                        now,
                    ));
                    lemma_generate_error_stays(first, all, i + 1, now);
                }
                return Err(e);
            },
        }
        i += 1;
    }
    assert(first.deferred.take(i as int) =~= first.deferred);
    Ok(
        Loaded {
            knowledge: state.store,
            notices: state.notices,
            explicit_ids: state.explicit,
            read_ids: state.read,
            generated_ids: state.generated,
        },
    )
}

/// Loads the directives of `tree` into a new store, with a provider for every
/// kind of record under its own type tag.
pub fn init_db(tree: &Node, now: Timestamp) -> (r: Result<Loaded, Error>)
    ensures
        yields(r, LoadView::load(tree@, crate::registry::standard_providers(), now)),
        r matches Ok(loaded) ==> loaded.knowledge.wf(),
{
    let providers = Registry::standard();
    load(tree, &providers, now)
}

/// A failure of the second pass on the first records is the failure of the
/// pass.
pub proof fn lemma_generate_error_stays(s: LoadView, pending: Seq<DeferredView>, k: int, now: Timestamp)
    requires
        0 <= k <= pending.len(),
        s.generate_all(pending.take(k), now) is Err,
    ensures
        s.generate_all(pending, now) == s.generate_all(pending.take(k), now),
    decreases pending.len() - k,
{
    if k == pending.len() {
        assert(pending.take(k) =~= pending);
    } else {
        assert(pending.take(k + 1).drop_last() =~= pending.take(k));
        lemma_generate_error_stays(s, pending, k + 1, now);
    }
}

} // verus!
