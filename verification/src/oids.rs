//! Short lists of identifiers, kept in a `SmallVec` that holds one identifier
//! without allocating: most lists here hold none or one.
//!
//! The `SmallVec` is hidden from the verifier. What is proved about a list
//! rests on the contracts of the four private functions that touch it.

use vstd::prelude::*;
use smallvec::SmallVec;
use crate::OID;

verus! {

/// A list of identifiers.
#[verifier::external_body]
#[derive(Debug, PartialEq, Eq)]
pub struct OidList {
    inner: SmallVec<[OID; 1]>,
}

/// The identifiers that a list holds, in order.
pub uninterp spec fn oid_list_items(list: OidList) -> Seq<OID>;

impl View for OidList {
    type V = Seq<OID>;

    open spec fn view(&self) -> Seq<OID> {
        oid_list_items(*self)
    }
}

/// Calls `SmallVec::new`: the new list holds nothing.
#[verifier::external_body]
fn small_new() -> (list: OidList)
    ensures
        oid_list_items(list) == Seq::<OID>::empty(),
{
    OidList { inner: SmallVec::new() }
}

/// Calls `SmallVec::push`: the item is appended behind the others.
#[verifier::external_body]
fn small_push(list: &mut OidList, id: OID)
    ensures
        oid_list_items(*final(list)) == oid_list_items(*old(list)).push(id),
{
    list.inner.push(id)
}

/// Calls `SmallVec::len`: the number of items held.
#[verifier::external_body]
fn small_len(list: &OidList) -> (n: usize)
    ensures
        n == oid_list_items(*list).len(),
{
    list.inner.len()
}

/// Indexes the `SmallVec`, which panics past the end: item `i`.
#[verifier::external_body]
fn small_get(list: &OidList, i: usize) -> (id: OID)
    requires
        i < oid_list_items(*list).len(),
    ensures
        id == oid_list_items(*list)[i as int],
{
    list.inner[i]
}

/// Whether no identifier occurs twice in `ids`.
pub open spec fn distinct(ids: Seq<OID>) -> bool {
    forall|i: int, j: int| 0 <= i < j < ids.len() ==> ids[i] != ids[j]
}

/// `ids` without the occurrences of `id`.
pub open spec fn without(ids: Seq<OID>, id: OID) -> Seq<OID> {
    ids.filter(|x: OID| x != id)
}

/// `without` goes through the list item by item.
pub proof fn lemma_without_push(ids: Seq<OID>, x: OID, id: OID)
    ensures
        without(ids.push(x), id) == if x != id {
            without(ids, id).push(x)
        } else {
            without(ids, id)
        },
        without(Seq::<OID>::empty(), id) == Seq::<OID>::empty(),
{
    reveal(Seq::filter);
    assert(ids.push(x).drop_last() =~= ids);
}

impl OidList {
    /// The empty list.
    pub fn new() -> (list: OidList)
        ensures
            list@ == Seq::<OID>::empty(),
    {
        small_new()
    }

    /// Appends `id`.
    pub fn push(&mut self, id: OID)
        ensures
            final(self)@ == old(self)@.push(id),
    {
        small_push(self, id)
    }

    /// Number of identifiers held.
    pub fn len(&self) -> (n: usize)
        ensures
            n == self@.len(),
    {
        small_len(self)
    }

    /// Identifier `i` of the list.
    pub fn get(&self, i: usize) -> (id: OID)
        requires
            i < self@.len(),
        ensures
            id == self@[i as int],
    {
        small_get(self, i)
    }

    /// Whether `id` is in the list.
    pub fn contains(&self, id: OID) -> (b: bool)
        ensures
            b == self@.contains(id),
    {
        let n = self.len();
        let mut i: usize = 0;
        while i < n
            invariant
                n == self@.len(),
                i <= n,
                forall|j: int| 0 <= j < i ==> self@[j] != id,
            decreases n - i,
        {
            if self.get(i) == id {
                return true;
            }
            i += 1;
        }
        false
    }

    /// The list that holds the items of `ids`, in order.
    pub fn from_slice(ids: &[OID]) -> (list: OidList)
        ensures
            list@ == ids@,
    {
        let mut list = OidList::new();
        let mut i: usize = 0;
        while i < ids.len()
            invariant
                i <= ids@.len(),
                list@ == ids@.take(i as int),
            decreases ids@.len() - i,
        {
            list.push(ids[i]);
            assert(ids@.take(i + 1) =~= ids@.take(i as int).push(ids@[i as int]));
            i += 1;
        }
        assert(ids@.take(i as int) =~= ids@);
        list
    }

    /// The items of the list, in order.
    pub fn to_vec(&self) -> (ids: Vec<OID>)
        ensures
            ids@ == self@,
    {
        let n = self.len();
        let mut ids: Vec<OID> = Vec::new();
        let mut i: usize = 0;
        while i < n
            invariant
                n == self@.len(),
                i <= n,
                ids@ == self@.take(i as int),
            decreases n - i,
        {
            ids.push(self.get(i));
            assert(self@.take(i + 1) =~= self@.take(i as int).push(self@[i as int]));
            i += 1;
        }
        assert(self@.take(n as int) =~= self@);
        ids
    }

    /// A copy of the list.
    pub fn duplicate(&self) -> (list: OidList)
        ensures
            list@ == self@,
    {
        let ids = self.to_vec();
        OidList::from_slice(ids.as_slice())
    }

    /// The list without the occurrences of `id`.
    pub fn without(&self, id: OID) -> (list: OidList)
        ensures
            list@ == without(self@, id),
    {
        let n = self.len();
        let mut list = OidList::new();
        let mut i: usize = 0;
        while i < n
            invariant
                n == self@.len(),
                i <= n,
                list@ == without(self@.take(i as int), id),
            decreases n - i,
        {
            let x = self.get(i);
            proof {
                lemma_without_push(self@.take(i as int), self@[i as int], id);
                assert(self@.take(i + 1) =~= self@.take(i as int).push(self@[i as int]));
            }
            if x != id {
                list.push(x);
            }
            i += 1;
        }
        assert(self@.take(n as int) =~= self@);
        list
    }
}

} // verus!
