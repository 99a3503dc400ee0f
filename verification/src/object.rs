//! The object model: the records that the store holds, and their form as trees.
//!
//! A record is written as a branch: its type tag, an `id` field, then the
//! fields of its own kind. Every field is a branch of a key and a value. A
//! record that does not begin its own branch states its `branch_root` after the
//! `id`, and a record that edits others lists them as `editing_prior`; a record
//! without these fields begins its own branch and edits nothing.

use vstd::prelude::*;
use crate::codec::{id_token, round_trips, token_id, Base64Bi};
use crate::error::{decode_error, token_error, Error, ErrorView, Fault};
use crate::oids::OidList;
use crate::tree::{
    find_val_error, lemma_first_labelled, lemma_none_labelled, trees_of, Node, Tree,
};
use crate::OID;

verus! {

/// Joins the words of a name that was written as several.
pub const NAME_SEPARATOR: char = '\u{2001}';

pub open spec fn key_id() -> Seq<char> {
    "id"@
}

pub open spec fn key_branch_root() -> Seq<char> {
    "branch_root"@
}

pub open spec fn key_editing_prior() -> Seq<char> {
    "editing_prior"@
}

pub open spec fn key_name() -> Seq<char> {
    "name"@
}

pub open spec fn key_description() -> Seq<char> {
    "description"@
}

/// The kinds of record.
#[derive(Copy, Clone, Debug, PartialEq, Eq, Hash, Structural)]
pub enum Kind {
    Profile,
    Endorsement,
    Post,
}

impl Kind {
    /// The type tag under which records of this kind are written.
    pub open spec fn tag(self) -> Seq<char> {
        match self {
            Kind::Profile => "profile"@,
            Kind::Endorsement => "endorsement"@,
            Kind::Post => "post"@,
        }
    }

    /// The type tag under which records of this kind are written.
    pub fn type_provider_name(self) -> (tag: &'static str)
        ensures
            tag@ == self.tag(),
    {
        match self {
            Kind::Profile => "profile",
            Kind::Endorsement => "endorsement",
            Kind::Post => "post",
        }
    }
}

/// The keys and the tags are different texts, and no tag is a key.
pub proof fn lemma_keys_differ()
    ensures
        key_id() != key_branch_root(),
        key_id() != key_editing_prior(),
        key_id() != key_name(),
        key_id() != key_description(),
        key_branch_root() != key_editing_prior(),
        key_branch_root() != key_name(),
        key_branch_root() != key_description(),
        key_editing_prior() != key_name(),
        key_editing_prior() != key_description(),
        key_name() != key_description(),
        Kind::Profile.tag() != Kind::Endorsement.tag(),
        Kind::Profile.tag() != Kind::Post.tag(),
        Kind::Endorsement.tag() != Kind::Post.tag(),
        forall|kind: Kind|
            #![trigger kind.tag()]
            kind.tag() != key_id() && kind.tag() != key_branch_root() && kind.tag()
                != key_editing_prior() && kind.tag() != key_name() && kind.tag()
                != key_description(),
{
    reveal_strlit("id");
    reveal_strlit("branch_root");
    reveal_strlit("editing_prior");
    reveal_strlit("name");
    reveal_strlit("description");
    reveal_strlit("profile");
    reveal_strlit("endorsement");
    reveal_strlit("post");
    assert("id"@.len() == 2);
    assert("branch_root"@.len() == 11);
    assert("editing_prior"@.len() == 13);
    assert("name"@.len() == 4);
    assert("description"@.len() == 11);
    assert("profile"@.len() == 7);
    assert("endorsement"@.len() == 11);
    assert("post"@.len() == 4);
    assert("branch_root"@[0] != "description"@[0]);
    assert("branch_root"@[0] != "endorsement"@[0]);
    assert("description"@[0] != "endorsement"@[0]);
    assert("name"@[0] != "post"@[0]);
}

/// Where a record stands among the versions of a thing.
#[derive(Debug, PartialEq, Eq)]
pub struct Lineage {
    /// The first version under the most recent branching; the record's own
    /// identifier where it begins a branch.
    pub branch_root: OID,
    /// The records that this one edits: mostly none or one, several for a merge.
    pub editing_prior: OidList,
}

pub struct LineageView {
    pub branch_root: OID,
    pub editing_prior: Seq<OID>,
}

impl View for Lineage {
    type V = LineageView;

    open spec fn view(&self) -> LineageView {
        LineageView { branch_root: self.branch_root, editing_prior: self.editing_prior@ }
    }
}

/// A field: a branch of a key and a value.
pub open spec fn field(key: Seq<char>, value: Tree) -> Tree {
    Tree::Branch(seq![Tree::Leaf(key), value])
}

/// The leaves that hold the tokens of `ids`.
pub open spec fn token_leaves(ids: Seq<OID>) -> Seq<Tree> {
    Seq::new(ids.len(), |i: int| Tree::Leaf(id_token(ids[i])))
}

/// A field whose value is a list: the key, then the items.
pub open spec fn list_field(key: Seq<char>, items: Seq<Tree>) -> Tree {
    Tree::Branch(seq![Tree::Leaf(key)] + items)
}

/// The field that states the branch root, for a record that does not begin
/// its own branch.
pub open spec fn branch_root_fields(id: OID, lineage: LineageView) -> Seq<Tree> {
    if lineage.branch_root == id {
        Seq::empty()
    } else {
        seq![field(key_branch_root(), Tree::Leaf(id_token(lineage.branch_root)))]
    }
}

/// The field that lists what the record edits, for a record that edits
/// anything.
pub open spec fn editing_prior_fields(lineage: LineageView) -> Seq<Tree> {
    if lineage.editing_prior.len() == 0 {
        Seq::empty()
    } else {
        seq![list_field(key_editing_prior(), token_leaves(lineage.editing_prior))]
    }
}

/// The items that every record begins with: its tag and its identifier, then
/// what it states of its lineage. A record that begins its own branch and
/// edits nothing states nothing of it.
pub open spec fn header(tag: Seq<char>, id: OID, lineage: LineageView) -> Seq<Tree> {
    seq![Tree::Leaf(tag), field(key_id(), Tree::Leaf(id_token(id)))] + branch_root_fields(
        id,
        lineage,
    ) + editing_prior_fields(lineage)
}

/// Whether a record of this lineage begins its own branch and edits nothing.
pub open spec fn is_root_lineage(id: OID, lineage: LineageView) -> bool {
    lineage.branch_root == id && lineage.editing_prior.len() == 0
}

/// The identifiers that a list of tokens stands for, or the error of the first
/// item that is no token.
pub open spec fn decoded_tokens(items: Seq<Tree>) -> Result<Seq<OID>, ErrorView>
    decreases items.len(),
{
    if items.len() == 0 {
        Ok(Seq::empty())
    } else {
        match decoded_tokens(items.drop_last()) {
            Err(e) => Err(e),
            Ok(ids) => match token_id(items.last().initial_str()) {
                Ok(id) => Ok(ids.push(id)),
                Err((fault, cause)) => Err(token_error(fault, cause, items.last())),
            },
        }
    }
}

/// The identifier that the value of field `key` stands for; `absent` where the
/// record has no such value.
pub open spec fn decoded_id_field(t: Tree, key: Seq<char>, absent: OID) -> Result<OID, ErrorView> {
    match t.seek_val(key) {
        None => Ok(absent),
        Some(v) => match token_id(v.initial_str()) {
            Ok(id) => Ok(id),
            Err((fault, cause)) => Err(token_error(fault, cause, v)),
        },
    }
}

/// The lineage that a record states, for a record whose identifier is `id`.
pub open spec fn decoded_lineage(t: Tree, id: OID) -> Result<LineageView, ErrorView> {
    match decoded_id_field(t, key_branch_root(), id) {
        Err(e) => Err(e),
        Ok(branch_root) => match t.seek(key_editing_prior()) {
            None => Ok(LineageView { branch_root, editing_prior: Seq::empty() }),
            Some(item) => match decoded_tokens(item.tail()) {
                Err(e) => Err(e),
                Ok(editing_prior) => Ok(LineageView { branch_root, editing_prior }),
            },
        },
    }
}

/// A field is labelled by its key and holds its value as second item.
pub proof fn lemma_field(key: Seq<char>, value: Tree)
    ensures
        field(key, value).initial_str() == key,
        field(key, value).tail() == seq![value],
        field(key, value).second() == Some(value),
{
    let f = field(key, value);
    assert(f->Branch_0[0].initial_str() == key);
    assert(f.tail() =~= seq![value]);
}

/// A list field is labelled by its key and holds its items as tail.
pub proof fn lemma_list_field(key: Seq<char>, items: Seq<Tree>)
    ensures
        list_field(key, items).initial_str() == key,
        list_field(key, items).tail() == items,
{
    let f = list_field(key, items);
    assert(f->Branch_0[0].initial_str() == key);
    assert(f.tail() =~= items);
}

/// An item of a branch is found by its label where no item before it carries
/// the same.
pub proof fn lemma_seek_labelled(items: Seq<Tree>, i: int)
    requires
        0 <= i < items.len(),
        forall|j: int|
            0 <= j < i ==> (#[trigger] items[j]).initial_str() != items[i].initial_str(),
    ensures
        Tree::Branch(items).seek(items[i].initial_str()) == Some(items[i]),
{
    lemma_first_labelled(items, items[i].initial_str(), i);
}

/// Every token of `ids` stands for the identifier it was made for.
pub open spec fn tokens_round_trip(ids: Seq<OID>) -> bool {
    forall|i: int| 0 <= i < ids.len() ==> round_trips(#[trigger] ids[i])
}

/// Tokens that stand for their identifiers decode, as a list, to the list of
/// those identifiers.
pub proof fn lemma_tokens_decode(ids: Seq<OID>)
    requires
        tokens_round_trip(ids),
    ensures
        decoded_tokens(token_leaves(ids)) == Ok::<Seq<OID>, ErrorView>(ids),
    decreases ids.len(),
{
    let leaves = token_leaves(ids);
    if ids.len() == 0 {
        assert(ids =~= Seq::<OID>::empty());
    } else {
        let front = ids.drop_last();
        assert(leaves.drop_last() =~= token_leaves(front));
        assert(forall|i: int| 0 <= i < front.len() ==> front[i] == ids[i]);
        lemma_tokens_decode(front);
        assert(leaves.last() == Tree::Leaf(id_token(ids.last())));
        assert(front.push(ids.last()) =~= ids);
    }
}

/// Whether `r` is what `expected` describes: the value or the error with that
/// view.
pub open spec fn yields<T: View>(r: Result<T, Error>, expected: Result<T::V, ErrorView>) -> bool {
    match expected {
        Ok(v) => r matches Ok(x) && x@ == v,
        Err(e) => r matches Err(x) && x@ == e,
    }
}

/// A person or group that takes part.
#[derive(Debug, PartialEq, Eq)]
pub struct Profile {
    pub id: OID,
    pub lineage: Lineage,
    pub name: String,
    pub description: String,
}

/// An endorsement. So far it states its identity and its lineage, nothing of
/// its own.
#[derive(Debug, PartialEq, Eq)]
pub struct Endorsement {
    pub id: OID,
    pub lineage: Lineage,
}

/// A post. So far it states its identity and its lineage, nothing of its own.
#[derive(Debug, PartialEq, Eq)]
pub struct Post {
    pub id: OID,
    pub lineage: Lineage,
}

/// A record of any kind.
#[derive(Debug, PartialEq, Eq)]
pub enum Object {
    Profile(Profile),
    Endorsement(Endorsement),
    Post(Post),
}

pub struct ProfileView {
    pub id: OID,
    pub lineage: LineageView,
    pub name: Seq<char>,
    pub description: Seq<char>,
}

/// The mathematical value of an [`Object`].
pub enum ObjectView {
    Profile(ProfileView),
    Endorsement { id: OID, lineage: LineageView },
    Post { id: OID, lineage: LineageView },
}

impl View for Profile {
    type V = ProfileView;

    open spec fn view(&self) -> ProfileView {
        ProfileView {
            id: self.id,
            lineage: self.lineage@,
            name: self.name@,
            description: self.description@,
        }
    }
}

impl View for Object {
    type V = ObjectView;

    open spec fn view(&self) -> ObjectView {
        match self {
            Object::Profile(p) => ObjectView::Profile(p@),
            Object::Endorsement(e) => ObjectView::Endorsement { id: e.id, lineage: e.lineage@ },
            Object::Post(p) => ObjectView::Post { id: p.id, lineage: p.lineage@ },
        }
    }
}

impl ObjectView {
    pub open spec fn kind(self) -> Kind {
        match self {
            ObjectView::Profile(_) => Kind::Profile,
            ObjectView::Endorsement { .. } => Kind::Endorsement,
            ObjectView::Post { .. } => Kind::Post,
        }
    }

    pub open spec fn id(self) -> OID {
        match self {
            ObjectView::Profile(p) => p.id,
            ObjectView::Endorsement { id, .. } => id,
            ObjectView::Post { id, .. } => id,
        }
    }

    pub open spec fn lineage(self) -> LineageView {
        match self {
            ObjectView::Profile(p) => p.lineage,
            ObjectView::Endorsement { lineage, .. } => lineage,
            ObjectView::Post { lineage, .. } => lineage,
        }
    }

    /// The name by which people know the object, where it has one.
    pub open spec fn name(self) -> Option<Seq<char>> {
        match self {
            ObjectView::Profile(p) => Some(p.name),
            _ => None,
        }
    }

    /// The fields of the object's own kind, as they follow the header.
    pub open spec fn own_fields(self) -> Seq<Tree> {
        match self {
            ObjectView::Profile(p) => seq![
                field(key_name(), Tree::Leaf(p.name)),
                field(key_description(), Tree::Leaf(p.description)),
            ],
            _ => Seq::empty(),
        }
    }

    /// The tree that the object is written as.
    pub open spec fn tree(self) -> Tree {
        Tree::Branch(header(self.kind().tag(), self.id(), self.lineage()) + self.own_fields())
    }

    /// Whether every identifier of the object has a token that stands for it.
    pub open spec fn tokens_round_trip(self) -> bool {
        &&& round_trips(self.id())
        &&& round_trips(self.lineage().branch_root)
        &&& tokens_round_trip(self.lineage().editing_prior)
    }
}

/// The name that the items after the key spell: the initial texts, joined by
/// the separator.
pub open spec fn joined_names(items: Seq<Tree>) -> Seq<char>
    decreases items.len(),
{
    if items.len() == 0 {
        Seq::empty()
    } else if items.len() == 1 {
        items[0].initial_str()
    } else {
        joined_names(items.drop_last()) + seq![NAME_SEPARATOR] + items.last().initial_str()
    }
}

/// The text that the value of field `key` holds.
pub open spec fn decoded_text_field(t: Tree, key: Seq<char>) -> Result<Seq<char>, ErrorView> {
    match t.seek_val(key) {
        None => Err(find_val_error(t, key)),
        Some(Tree::Leaf(text)) => Ok(text),
        Some(v) => Err(decode_error(Fault::NotALeaf, key, v)),
    }
}

/// The profile that a record states, for a record whose identifier is `id`.
pub open spec fn decoded_profile(t: Tree, id: OID) -> Result<ProfileView, ErrorView> {
    match decoded_lineage(t, id) {
        Err(e) => Err(e),
        Ok(lineage) => match t.seek(key_name()) {
            None => Err(decode_error(Fault::MissingField, key_name(), t)),
            Some(item) => match decoded_text_field(t, key_description()) {
                Err(e) => Err(e),
                Ok(description) => Ok(
                    ProfileView { id, lineage, name: joined_names(item.tail()), description },
                ),
            },
        },
    }
}

/// The object of kind `kind` that a record states, for a record whose
/// identifier is `id`.
pub open spec fn decoded(kind: Kind, t: Tree, id: OID) -> Result<ObjectView, ErrorView> {
    match kind {
        Kind::Profile => match decoded_profile(t, id) {
            Ok(p) => Ok(ObjectView::Profile(p)),
            Err(e) => Err(e),
        },
        Kind::Endorsement => match decoded_lineage(t, id) {
            Ok(lineage) => Ok(ObjectView::Endorsement { id, lineage }),
            Err(e) => Err(e),
        },
        Kind::Post => match decoded_lineage(t, id) {
            Ok(lineage) => Ok(ObjectView::Post { id, lineage }),
            Err(e) => Err(e),
        },
    }
}

/// The identifier that a record states for itself.
pub open spec fn decoded_own_id(t: Tree) -> Result<OID, ErrorView> {
    match t.seek_val(key_id()) {
        None => Err(find_val_error(t, key_id())),
        Some(v) => match token_id(v.initial_str()) {
            Ok(id) => Ok(id),
            Err((fault, cause)) => Err(token_error(fault, cause, v)),
        },
    }
}

/// The object of kind `kind` that a record states, identifier included.
pub open spec fn decoded_record(kind: Kind, t: Tree) -> Result<ObjectView, ErrorView> {
    match decoded_own_id(t) {
        Err(e) => Err(e),
        Ok(id) => decoded(kind, t, id),
    }
}

/// The label of each item of a written record: the tag, `id`, then the
/// lineage fields that are stated, then the fields of the kind.
proof fn lemma_written_labels(ob: ObjectView)
    ensures
        ({
            let items = ob.tree()->Branch_0;
            let lineage = ob.lineage();
            let roots = branch_root_fields(ob.id(), lineage).len() as int;
            let priors = editing_prior_fields(lineage).len() as int;
            let own = ob.own_fields().len() as int;
            &&& ob.tree() == Tree::Branch(items)
            &&& items.len() == 2 + roots + priors + own
            &&& items[0] == Tree::Leaf(ob.kind().tag())
            &&& items[0].initial_str() == ob.kind().tag()
            &&& items[1] == field(key_id(), Tree::Leaf(id_token(ob.id())))
            &&& roots == 1 ==> items[2] == field(
                key_branch_root(),
                Tree::Leaf(id_token(lineage.branch_root)),
            )
            &&& priors == 1 ==> items[2 + roots] == list_field(
                key_editing_prior(),
                token_leaves(lineage.editing_prior),
            )
            &&& forall|k: int|
                0 <= k < own ==> #[trigger] items[2 + roots + priors + k] == ob.own_fields()[k]
        }),
{
}

/// Reading what was written gives the object back, every field of it and its
/// identifier, provided that the tokens of its identifiers stand for them.
pub proof fn lemma_record_round_trip(ob: ObjectView)
    requires
        ob.tokens_round_trip(),
    ensures
        decoded_own_id(ob.tree()) == Ok::<OID, ErrorView>(ob.id()),
        decoded(ob.kind(), ob.tree(), ob.id()) == Ok::<ObjectView, ErrorView>(ob),
        decoded_record(ob.kind(), ob.tree()) == Ok::<ObjectView, ErrorView>(ob),
{
    lemma_keys_differ();
    lemma_written_labels(ob);
    let lineage = ob.lineage();
    let t = ob.tree();
    let items = t->Branch_0;
    let roots = branch_root_fields(ob.id(), lineage).len() as int;
    let priors = editing_prior_fields(lineage).len() as int;
    let own = ob.own_fields().len() as int;
    let id_leaf = Tree::Leaf(id_token(ob.id()));
    let root_leaf = Tree::Leaf(id_token(lineage.branch_root));
    let leaves = token_leaves(lineage.editing_prior);
    lemma_field(key_id(), id_leaf);
    lemma_field(key_branch_root(), root_leaf);
    lemma_list_field(key_editing_prior(), leaves);
    lemma_tokens_decode(lineage.editing_prior);
    match ob {
        ObjectView::Profile(p) => {
            lemma_field(key_name(), Tree::Leaf(p.name));
            lemma_field(key_description(), Tree::Leaf(p.description));
            assert(items[2 + roots + priors + 0] == ob.own_fields()[0]);
            assert(items[2 + roots + priors + 1] == ob.own_fields()[1]);
        },
        _ => {},
    }
    // What each item is labelled with.
    assert forall|j: int| 0 <= j < items.len() implies (#[trigger] items[j]).initial_str() == (if j
        == 0 {
        ob.kind().tag()
    } else if j == 1 {
        key_id()
    } else if j < 2 + roots {
        key_branch_root()
    } else if j < 2 + roots + priors {
        key_editing_prior()
    } else if j == 2 + roots + priors {
        key_name()
    } else {
        key_description()
    }) by {
        if j >= 2 + roots + priors {
            assert(items[2 + roots + priors + (j - (2 + roots + priors))] == ob.own_fields()[j - (2
                + roots + priors)]);
        }
    }
    lemma_seek_labelled(items, 1);
    assert(t.seek_val(key_id()) == Some(id_leaf));
    if roots == 1 {
        lemma_seek_labelled(items, 2);
        assert(t.seek_val(key_branch_root()) == Some(root_leaf));
    } else {
        lemma_none_labelled(items, key_branch_root());
        assert(t.seek_val(key_branch_root()) is None);
    }
    if priors == 1 {
        lemma_seek_labelled(items, 2 + roots);
        assert(t.seek(key_editing_prior()) == Some(items[2 + roots]));
    } else {
        lemma_none_labelled(items, key_editing_prior());
        assert(lineage.editing_prior =~= Seq::<OID>::empty());
    }
    assert(decoded_lineage(t, ob.id()) == Ok::<LineageView, ErrorView>(lineage));
    match ob {
        ObjectView::Profile(p) => {
            let name_leaf = Tree::Leaf(p.name);
            lemma_seek_labelled(items, 2 + roots + priors);
            lemma_seek_labelled(items, 2 + roots + priors + 1);
            assert(joined_names(seq![name_leaf]) == p.name);
        },
        _ => {},
    }
}

/// An error found in the first items of a list of tokens is the error of the
/// whole list.
pub proof fn lemma_tokens_error_stays(items: Seq<Tree>, k: int)
    requires
        0 <= k <= items.len(),
        decoded_tokens(items.take(k)) is Err,
    ensures
        decoded_tokens(items) == decoded_tokens(items.take(k)),
    decreases items.len() - k,
{
    if k == items.len() {
        assert(items.take(k) =~= items);
    } else {
        assert(items.take(k + 1).drop_last() =~= items.take(k));
        lemma_tokens_error_stays(items, k + 1);
    }
}

/// A field: a branch of a key and a value.
fn field_node(key: &str, value: Node) -> (n: Node)
    ensures
        n@ == field(key@, value@),
{
    let mut items: Vec<Node> = Vec::new();
    items.push(Node::leaf(key));
    items.push(value);
    let n = Node::branch(items);
    assert(n@->Branch_0 =~= seq![Tree::Leaf(key@), value@]);
    n
}

/// The field that lists the tokens of `ids` under `key`.
fn token_list_node(key: &str, ids: &OidList) -> (n: Node)
    ensures
        n@ == list_field(key@, token_leaves(ids@)),
        tokens_round_trip(ids@),
{
    let count = ids.len();
    let mut items: Vec<Node> = Vec::new();
    items.push(Node::leaf(key));
    let mut i: usize = 0;
    while i < count
        invariant
            count == ids@.len(),
            i <= count,
            items@.len() == i + 1,
            items@[0]@ == Tree::Leaf(key@),
            forall|j: int| 0 <= j < i ==> (#[trigger] items@[j + 1])@ == Tree::Leaf(id_token(ids@[j])),
            forall|j: int| 0 <= j < i ==> round_trips(#[trigger] ids@[j]),
        decreases count - i,
    {
        let id = ids.get(i);
        items.push(Base64Bi.woodify(&id));
        i += 1;
    }
    let n = Node::branch(items);
    assert(n@->Branch_0 =~= seq![Tree::Leaf(key@)] + token_leaves(ids@)) by {
        let want = seq![Tree::Leaf(key@)] + token_leaves(ids@);
        assert(n@->Branch_0.len() == want.len());
        assert forall|j: int| 0 <= j < want.len() implies n@->Branch_0[j] == want[j] by {
            if j > 0 {
                assert(items@[(j - 1) + 1]@ == Tree::Leaf(id_token(ids@[j - 1])));
            }
        }
    }
    n
}

/// The items that every record begins with.
fn header_nodes(kind: Kind, id: OID, lineage: &Lineage) -> (items: Vec<Node>)
    ensures
        trees_of(items@) == header(kind.tag(), id, lineage@),
        round_trips(id),
        round_trips(lineage.branch_root),
        tokens_round_trip(lineage.editing_prior@),
{
    let mut items: Vec<Node> = Vec::new();
    items.push(Node::leaf(kind.type_provider_name()));
    items.push(field_node("id", Base64Bi.woodify(&id)));
    if lineage.branch_root != id {
        items.push(field_node("branch_root", Base64Bi.woodify(&lineage.branch_root)));
    }
    if lineage.editing_prior.len() > 0 {
        items.push(token_list_node("editing_prior", &lineage.editing_prior));
    }
    assert(trees_of(items@) =~= header(kind.tag(), id, lineage@));
    items
}

/// The identifiers that the tail of `item` lists as tokens.
fn decode_tokens(item: &Node) -> (r: Result<OidList, Error>)
    ensures
        yields(r, decoded_tokens(item@.tail())),
{
    let count = item.tail_len();
    let mut ids = OidList::new();
    let mut i: usize = 0;
    assert(item@.tail().take(0) =~= Seq::<Tree>::empty());
    while i < count
        invariant
            count == item@.tail().len(),
            i <= count,
            decoded_tokens(item@.tail().take(i as int)) == Ok::<Seq<OID>, ErrorView>(ids@),
        decreases count - i,
    {
        let leaf = item.tail_item(i);
        proof {
            let items = item@.tail();
            assert(items.take(i + 1).drop_last() =~= items.take(i as int));
            assert(items.take(i + 1).last() == items[i as int]);
        }
        match Base64Bi.dewoodify(leaf) {
            Ok(id) => {
                ids.push(id);
            },
            Err(e) => {
                proof {
                    lemma_tokens_error_stays(item@.tail(), i + 1);
                }
                return Err(e);
            },
        }
        i += 1;
    }
    assert(item@.tail().take(count as int) =~= item@.tail());
    Ok(ids)
}

/// The identifier that the value of field `key` stands for; `absent` where the
/// record has no such value.
fn decode_id_field(v: &Node, key: &str, absent: OID) -> (r: Result<OID, Error>)
    ensures
        yields(r, decoded_id_field(v@, key@, absent)),
{
    match v.seek_val(key) {
        None => Ok(absent),
        Some(token) => Base64Bi.dewoodify(token),
    }
}

/// The text that the value of field `key` holds.
fn decode_text_field(v: &Node, key: &str) -> (r: Result<String, Error>)
    ensures
        yields(r, decoded_text_field(v@, key@)),
{
    match v.find_val(key) {
        Err(e) => Err(e),
        Ok(value) => match value {
            Node::Leaf(text) => Ok(text.clone()),
            Node::Branch(_) => Err(Error::decode(Fault::NotALeaf, key, value)),
        },
    }
}

impl Lineage {
    /// The lineage of a record that begins a branch and edits nothing.
    pub fn root(id: OID) -> (lineage: Lineage)
        ensures
            lineage@ == (LineageView { branch_root: id, editing_prior: Seq::empty() }),
    {
        Lineage { branch_root: id, editing_prior: OidList::new() }
    }

    /// A copy of this lineage.
    pub fn duplicate(&self) -> (lineage: Lineage)
        ensures
            lineage@ == self@,
    {
        Lineage { branch_root: self.branch_root, editing_prior: self.editing_prior.duplicate() }
    }

    /// The lineage that a record states, for a record whose identifier is `id`.
    pub fn dewoodify_with_id(v: &Node, id: OID) -> (r: Result<Lineage, Error>)
        ensures
            yields(r, decoded_lineage(v@, id)),
    {
        let branch_root = match decode_id_field(v, "branch_root", id) {
            Ok(root) => root,
            Err(e) => {
                return Err(e);
            },
        };
        match v.seek("editing_prior") {
            None => Ok(Lineage { branch_root, editing_prior: OidList::new() }),
            Some(item) => match decode_tokens(item) {
                Ok(editing_prior) => Ok(Lineage { branch_root, editing_prior }),
                Err(e) => Err(e),
            },
        }
    }
}

/// The name that the tail of `item` spells.
fn decode_name(item: &Node) -> (name: String)
    ensures
        name@ == joined_names(item@.tail()),
{
    let count = item.tail_len();
    if count == 0 {
        return String::new();
    }
    let mut name = item.tail_item(0).initial_str().to_owned();
    let mut i: usize = 1;
    assert(item@.tail().take(1) =~= seq![item@.tail()[0]]);
    while i < count
        invariant
            count == item@.tail().len(),
            1 <= i <= count,
            name@ == joined_names(item@.tail().take(i as int)),
        decreases count - i,
    {
        proof {
            reveal_strlit("\u{2001}");
            let items = item@.tail();
            assert(items.take(i + 1).drop_last() =~= items.take(i as int));
            assert(items.take(i + 1).last() == items[i as int]);
            assert("\u{2001}"@ =~= seq![NAME_SEPARATOR]);
        }
        name.append("\u{2001}");
        name.append(item.tail_item(i).initial_str());
        i += 1;
    }
    assert(item@.tail().take(count as int) =~= item@.tail());
    name
}

impl Profile {
    /// The type tag under which profiles are written.
    pub fn type_provider_name() -> (tag: &'static str)
        ensures
            tag@ == Kind::Profile.tag(),
    {
        "profile"
    }

    pub fn id(&self) -> (id: OID)
        ensures
            id == self.id,
    {
        self.id
    }

    /// A copy of this profile.
    pub fn duplicate(&self) -> (p: Profile)
        ensures
            p@ == self@,
    {
        Profile {
            id: self.id,
            lineage: self.lineage.duplicate(),
            name: self.name.clone(),
            description: self.description.clone(),
        }
    }

    /// The tree that this profile is written as: the tag, the `id`, what the
    /// profile states of its lineage, the `name` and the `description`. A
    /// profile that begins its own branch and edits nothing is written as the
    /// tag and these three fields. Read back, the tree gives the profile again,
    /// identifier and every field.
    pub fn woodify(&self) -> (n: Node)
        ensures
            n@ == ObjectView::Profile(self@).tree(),
            is_root_lineage(self.id, self.lineage@) ==> n@ == Tree::Branch(
                seq![
                    Tree::Leaf(Kind::Profile.tag()),
                    field(key_id(), Tree::Leaf(id_token(self.id))),
                    field(key_name(), Tree::Leaf(self.name@)),
                    field(key_description(), Tree::Leaf(self.description@)),
                ],
            ),
            decoded_profile(n@, self.id) == Ok::<ProfileView, ErrorView>(self@),
            decoded_record(Kind::Profile, n@) == Ok::<ObjectView, ErrorView>(
                ObjectView::Profile(self@),
            ),
    {
        let mut items = header_nodes(Kind::Profile, self.id, &self.lineage);
        items.push(field_node("name", Node::leaf(self.name.as_str())));
        items.push(field_node("description", Node::leaf(self.description.as_str())));
        let n = Node::branch(items);
        proof {
            let ob = ObjectView::Profile(self@);
            assert(n@->Branch_0 =~= header(ob.kind().tag(), ob.id(), ob.lineage())
                + ob.own_fields());
            lemma_record_round_trip(ob);
            if is_root_lineage(self.id, self.lineage@) {
                assert(n@->Branch_0 =~= seq![
                    Tree::Leaf(Kind::Profile.tag()),
                    field(key_id(), Tree::Leaf(id_token(self.id))),
                    field(key_name(), Tree::Leaf(self.name@)),
                    field(key_description(), Tree::Leaf(self.description@)),
                ]);
            }
        }
        n
    }

    /// Reads a profile from a record whose identifier is known to be `id`. The
    /// lineage is read first, then the name, then the description; the first
    /// fault found is the error.
    pub fn dewoodify_with_id(v: &Node, id: OID) -> (r: Result<Profile, Error>)
        ensures
            yields(r, decoded_profile(v@, id)),
    {
        let lineage = match Lineage::dewoodify_with_id(v, id) {
            Ok(lineage) => lineage,
            Err(e) => {
                return Err(e);
            },
        };
        let name = match v.find("name") {
            Ok(item) => decode_name(item),
            Err(e) => {
                return Err(e);
            },
        };
        match decode_text_field(v, "description") {
            Ok(description) => Ok(Profile { id, lineage, name, description }),
            Err(e) => Err(e),
        }
    }
}

impl Object {
    pub fn kind(&self) -> (kind: Kind)
        ensures
            kind == self@.kind(),
    {
        match self {
            Object::Profile(_) => Kind::Profile,
            Object::Endorsement(_) => Kind::Endorsement,
            Object::Post(_) => Kind::Post,
        }
    }

    pub fn id(&self) -> (id: OID)
        ensures
            id == self@.id(),
    {
        match self {
            Object::Profile(p) => p.id,
            Object::Endorsement(e) => e.id,
            Object::Post(p) => p.id,
        }
    }

    fn lineage(&self) -> (lineage: &Lineage)
        ensures
            lineage@ == self@.lineage(),
    {
        match self {
            Object::Profile(p) => &p.lineage,
            Object::Endorsement(e) => &e.lineage,
            Object::Post(p) => &p.lineage,
        }
    }

    /// The first version under the most recent branching.
    pub fn branch_root(&self) -> (id: OID)
        ensures
            id == self@.lineage().branch_root,
    {
        self.lineage().branch_root
    }

    /// The records that this one edits.
    pub fn editing_prior(&self) -> (ids: &OidList)
        ensures
            ids@ == self@.lineage().editing_prior,
    {
        &self.lineage().editing_prior
    }

    /// The name by which people know the object, where it has one.
    pub fn name(&self) -> (name: Option<&str>)
        ensures
            match name {
                Some(text) => self@.name() == Some(text@),
                None => self@.name() is None,
            },
    {
        match self {
            Object::Profile(p) => Some(p.name.as_str()),
            _ => None,
        }
    }

    /// A copy of this object.
    pub fn duplicate(&self) -> (ob: Object)
        ensures
            ob@ == self@,
    {
        match self {
            Object::Profile(p) => Object::Profile(p.duplicate()),
            Object::Endorsement(e) => Object::Endorsement(
                Endorsement { id: e.id, lineage: e.lineage.duplicate() },
            ),
            Object::Post(p) => Object::Post(Post { id: p.id, lineage: p.lineage.duplicate() }),
        }
    }

    /// The tree that this object is written as: its type tag, its `id`, what
    /// it states of its lineage, then the fields of its kind. An object that
    /// begins its own branch and edits nothing is written as its tag, its `id`
    /// and the fields of its kind. Read back under its kind, the tree gives the
    /// object again, identifier and every field.
    pub fn woodify(&self) -> (n: Node)
        ensures
            n@ == self@.tree(),
            is_root_lineage(self@.id(), self@.lineage()) ==> n@ == Tree::Branch(
                seq![
                    Tree::Leaf(self@.kind().tag()),
                    field(key_id(), Tree::Leaf(id_token(self@.id()))),
                ] + self@.own_fields(),
            ),
            decoded_own_id(n@) == Ok::<OID, ErrorView>(self@.id()),
            decoded(self@.kind(), n@, self@.id()) == Ok::<ObjectView, ErrorView>(self@),
            decoded_record(self@.kind(), n@) == Ok::<ObjectView, ErrorView>(self@),
    {
        match self {
            Object::Profile(p) => p.woodify(),
            _ => {
                let items = header_nodes(self.kind(), self.id(), self.lineage());
                let n = Node::branch(items);
                proof {
                    assert(n@->Branch_0 =~= header(self@.kind().tag(), self@.id(), self@.lineage())
                        + self@.own_fields());
                    lemma_record_round_trip(self@);
                    if is_root_lineage(self@.id(), self@.lineage()) {
                        assert(n@->Branch_0 =~= seq![
                            Tree::Leaf(self@.kind().tag()),
                            field(key_id(), Tree::Leaf(id_token(self@.id()))),
                        ] + self@.own_fields());
                    }
                }
                n
            },
        }
    }

    /// Reads an object of kind `kind` from a record whose identifier is known to
    /// be `id`.
    pub fn dewoodify_with_id(kind: Kind, v: &Node, id: OID) -> (r: Result<Object, Error>)
        ensures
            yields(r, decoded(kind, v@, id)),
    {
        match kind {
            Kind::Profile => match Profile::dewoodify_with_id(v, id) {
                Ok(p) => Ok(Object::Profile(p)),
                Err(e) => Err(e),
            },
            Kind::Endorsement => match Lineage::dewoodify_with_id(v, id) {
                Ok(lineage) => Ok(Object::Endorsement(Endorsement { id, lineage })),
                Err(e) => Err(e),
            },
            Kind::Post => match Lineage::dewoodify_with_id(v, id) {
                Ok(lineage) => Ok(Object::Post(Post { id, lineage })),
                Err(e) => Err(e),
            },
        }
    }

    /// Reads an object of kind `kind` from a record that states its own
    /// identifier in an `id` field.
    pub fn dewoodify(kind: Kind, v: &Node) -> (r: Result<Object, Error>)
        ensures
            yields(r, decoded_record(kind, v@)),
    {
        let id = match v.find_val("id") {
            Ok(token) => match Base64Bi.dewoodify(token) {
                Ok(id) => id,
                Err(e) => {
                    return Err(e);
                },
            },
            Err(e) => {
                return Err(e);
            },
        };
        Object::dewoodify_with_id(kind, v, id)
    }
}

/// Whether an error says that input is malformed.
pub open spec fn is_decode_error(e: ErrorView) -> bool {
    e.kind is Decode
}

/// A list of tokens fails only for being malformed.
pub proof fn lemma_decoded_tokens_error(items: Seq<Tree>)
    requires
        decoded_tokens(items) is Err,
    ensures
        is_decode_error(decoded_tokens(items)->Err_0),
    decreases items.len(),
{
    if items.len() > 0 {
        if decoded_tokens(items.drop_last()) is Err {
            lemma_decoded_tokens_error(items.drop_last());
        }
    }
}

/// Reading a record under a known kind fails only for the record being
/// malformed.
pub proof fn lemma_decoded_error(kind: Kind, t: Tree, id: OID)
    requires
        decoded(kind, t, id) is Err,
    ensures
        is_decode_error(decoded(kind, t, id)->Err_0),
{
    if decoded_lineage(t, id) is Err {
        if decoded_id_field(t, key_branch_root(), id) is Ok {
            lemma_decoded_tokens_error(t.seek(key_editing_prior())->Some_0.tail());
        }
    }
}

/// An object that is read from a record under an identifier states that
/// identifier, and is of the kind it was read as.
pub proof fn lemma_decoded_id(kind: Kind, t: Tree, id: OID)
    requires
        decoded(kind, t, id) is Ok,
    ensures
        decoded(kind, t, id)->Ok_0.id() == id,
        decoded(kind, t, id)->Ok_0.kind() == kind,
{
}

} // verus!
