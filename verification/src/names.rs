//! The ordered index from names to the identifiers of the objects that bear
//! them.
//!
//! The entries are kept in a vector in the order of their names, which is the
//! order of `str`; no name occurs twice. A name is found by bisection.

use vstd::prelude::*;
use crate::oids::OidList;
use crate::text::{
    lemma_text_lt_asymmetric, lemma_text_lt_transitive, text_lt, text_side, Side,
};
use crate::OID;

verus! {

/// A name and the identifiers listed under it.
#[derive(Debug)]
pub struct NameEntry {
    pub name: String,
    pub oids: OidList,
}

/// Whether the names of `entries` strictly increase.
pub open spec fn increasing(entries: Seq<NameEntry>) -> bool {
    forall|i: int, j: int|
        0 <= i < j < entries.len() ==> text_lt(
            (#[trigger] entries[i]).name@,
            (#[trigger] entries[j]).name@,
        )
}

/// Whether entry `i` bears `name`.
pub open spec fn named_at(entries: Seq<NameEntry>, name: Seq<char>, i: int) -> bool {
    0 <= i < entries.len() && entries[i].name@ == name
}

/// The map that `entries` stand for.
pub open spec fn entries_map(entries: Seq<NameEntry>) -> Map<Seq<char>, Seq<OID>> {
    Map::new(
        |name: Seq<char>| exists|i: int| named_at(entries, name, i),
        |name: Seq<char>| entries[choose|i: int| named_at(entries, name, i)].oids@,
    )
}

/// Whether `name` belongs at position `i`: after all entries before `i` and
/// before all entries from `i` on.
pub open spec fn gap_at(entries: Seq<NameEntry>, name: Seq<char>, i: int) -> bool {
    &&& 0 <= i <= entries.len()
    &&& forall|j: int| 0 <= j < i ==> text_lt((#[trigger] entries[j]).name@, name)
    &&& forall|j: int| i <= j < entries.len() ==> text_lt(name, (#[trigger] entries[j]).name@)
}

/// In increasing entries a name stands at one position only.
pub proof fn lemma_one_position(entries: Seq<NameEntry>, i: int, j: int)
    requires
        increasing(entries),
        0 <= i < entries.len(),
        0 <= j < entries.len(),
        entries[i].name@ == entries[j].name@,
    ensures
        i == j,
{
    if i < j {
        lemma_text_lt_asymmetric(entries[i].name@, entries[j].name@);
    } else if j < i {
        lemma_text_lt_asymmetric(entries[j].name@, entries[i].name@);
    }
}

/// What the map holds for the name of entry `i`.
pub proof fn lemma_entry(entries: Seq<NameEntry>, i: int)
    requires
        increasing(entries),
        0 <= i < entries.len(),
    ensures
        entries_map(entries).contains_key(entries[i].name@),
        entries_map(entries)[entries[i].name@] == entries[i].oids@,
{
    let name = entries[i].name@;
    assert(named_at(entries, name, i));
    let c = choose|c: int| named_at(entries, name, c);
    lemma_one_position(entries, i, c);
}

/// A name that belongs in a gap is not in the map.
pub proof fn lemma_gap(entries: Seq<NameEntry>, name: Seq<char>, i: int)
    requires
        gap_at(entries, name, i),
    ensures
        !entries_map(entries).contains_key(name),
{
    if exists|j: int| named_at(entries, name, j) {
        let j = choose|j: int| named_at(entries, name, j);
        if j < i {
            lemma_text_lt_asymmetric(entries[j].name@, name);
        } else {
            lemma_text_lt_asymmetric(name, entries[j].name@);
        }
    }
}

/// An entry put into its gap keeps the names increasing and adds its name to
/// the map.
pub proof fn lemma_insert(entries: Seq<NameEntry>, i: int, e: NameEntry)
    requires
        increasing(entries),
        gap_at(entries, e.name@, i),
    ensures
        increasing(entries.insert(i, e)),
        entries_map(entries.insert(i, e)) == entries_map(entries).insert(e.name@, e.oids@),
{
    let after = entries.insert(i, e);
    assert(increasing(after)) by {
        assert forall|x: int, y: int| 0 <= x < y < after.len() implies text_lt(
            (#[trigger] after[x]).name@,
            (#[trigger] after[y]).name@,
        ) by {
            let px = if x < i { x } else { x - 1 };
            let py = if y < i { y } else { y - 1 };
            if x == i {
                assert(after[y] == entries[py]);
            } else if y == i {
                assert(after[x] == entries[px]);
            } else {
                assert(after[x] == entries[px]);
                assert(after[y] == entries[py]);
            }
        }
    }
    let want = entries_map(entries).insert(e.name@, e.oids@);
    assert forall|name: Seq<char>| #[trigger] want.contains_key(name) implies entries_map(
        after,
    ).contains_key(name) && entries_map(after)[name] == want[name] by {
        if name == e.name@ {
            assert(after[i] == e);
            lemma_entry(after, i);
        } else {
            let j = choose|j: int| named_at(entries, name, j);
            lemma_entry(entries, j);
            let pj = if j < i { j } else { j + 1 };
            assert(after[pj] == entries[j]);
            lemma_entry(after, pj);
        }
    }
    assert forall|name: Seq<char>| #[trigger] entries_map(after).contains_key(name) implies want.contains_key(
        name,
    ) by {
        let j = choose|j: int| named_at(after, name, j);
        if j != i {
            let pj = if j < i { j } else { j - 1 };
            assert(after[j] == entries[pj]);
            assert(named_at(entries, name, pj));
        }
    }
    assert(entries_map(after) =~= want);
}

/// An entry replaced by one of the same name keeps the names increasing and
/// changes what the map holds for that name.
pub proof fn lemma_update(entries: Seq<NameEntry>, i: int, e: NameEntry)
    requires
        increasing(entries),
        0 <= i < entries.len(),
        e.name@ == entries[i].name@,
    ensures
        increasing(entries.update(i, e)),
        entries_map(entries.update(i, e)) == entries_map(entries).insert(e.name@, e.oids@),
{
    let after = entries.update(i, e);
    assert(increasing(after)) by {
        assert forall|x: int, y: int| 0 <= x < y < after.len() implies text_lt(
            (#[trigger] after[x]).name@,
            (#[trigger] after[y]).name@,
        ) by {
            assert(after[x].name@ == entries[x].name@);
            assert(after[y].name@ == entries[y].name@);
        }
    }
    let want = entries_map(entries).insert(e.name@, e.oids@);
    assert forall|name: Seq<char>| #[trigger] want.contains_key(name) implies entries_map(
        after,
    ).contains_key(name) && entries_map(after)[name] == want[name] by {
        if name == e.name@ {
            lemma_entry(after, i);
        } else {
            let j = choose|j: int| named_at(entries, name, j);
            lemma_entry(entries, j);
            assert(after[j] == entries[j]);
            lemma_entry(after, j);
        }
    }
    assert forall|name: Seq<char>| #[trigger] entries_map(after).contains_key(name) implies want.contains_key(
        name,
    ) by {
        let j = choose|j: int| named_at(after, name, j);
        assert(after[j].name@ == entries[j].name@);
        assert(named_at(entries, name, j));
    }
    assert(entries_map(after) =~= want);
}

/// An entry taken out keeps the names increasing and takes its name out of
/// the map.
pub proof fn lemma_remove(entries: Seq<NameEntry>, i: int)
    requires
        increasing(entries),
        0 <= i < entries.len(),
    ensures
        increasing(entries.remove(i)),
        entries_map(entries.remove(i)) == entries_map(entries).remove(entries[i].name@),
{
    let after = entries.remove(i);
    let gone = entries[i].name@;
    assert(increasing(after)) by {
        assert forall|x: int, y: int| 0 <= x < y < after.len() implies text_lt(
            (#[trigger] after[x]).name@,
            (#[trigger] after[y]).name@,
        ) by {
            let px = if x < i { x } else { x + 1 };
            let py = if y < i { y } else { y + 1 };
            assert(after[x] == entries[px]);
            assert(after[y] == entries[py]);
        }
    }
    let want = entries_map(entries).remove(gone);
    assert forall|name: Seq<char>| #[trigger] want.contains_key(name) implies entries_map(
        after,
    ).contains_key(name) && entries_map(after)[name] == want[name] by {
        let j = choose|j: int| named_at(entries, name, j);
        lemma_entry(entries, j);
        let pj = if j < i { j } else { j - 1 };
        assert(after[pj] == entries[j]);
        lemma_entry(after, pj);
    }
    assert forall|name: Seq<char>| #[trigger] entries_map(after).contains_key(name) implies want.contains_key(
        name,
    ) by {
        let j = choose|j: int| named_at(after, name, j);
        let pj = if j < i { j } else { j + 1 };
        assert(after[j] == entries[pj]);
        assert(named_at(entries, name, pj));
        if name == gone {
            lemma_one_position(entries, pj, i);
        }
    }
    assert(entries_map(after) =~= want);
}

/// An ordered map from names to lists of identifiers.
#[derive(Debug)]
pub struct NameIndex {
    entries: Vec<NameEntry>,
}

impl View for NameIndex {
    type V = Map<Seq<char>, Seq<OID>>;

    closed spec fn view(&self) -> Map<Seq<char>, Seq<OID>> {
        entries_map(self.entries@)
    }
}

impl NameIndex {
    /// Whether the entries are in order.
    pub closed spec fn wf(&self) -> bool {
        increasing(self.entries@)
    }

    /// The names in order.
    pub closed spec fn names(&self) -> Seq<Seq<char>> {
        Seq::new(self.entries@.len(), |i: int| self.entries@[i].name@)
    }

    /// The names in order are those of the map, each once, increasing.
    pub proof fn lemma_names(&self)
        requires
            self.wf(),
        ensures
            forall|i: int, j: int|
                0 <= i < j < self.names().len() ==> text_lt(
                    #[trigger] self.names()[i],
                    #[trigger] self.names()[j],
                ),
            forall|i: int| 0 <= i < self.names().len() ==> self@.contains_key(#[trigger] self.names()[i]),
            forall|name: Seq<char>| #[trigger] self@.contains_key(name) ==> self.names().contains(name),
    {
        let names = self.names();
        assert forall|i: int, j: int| 0 <= i < j < names.len() implies text_lt(
            #[trigger] names[i],
            #[trigger] names[j],
        ) by {
            assert(text_lt(self.entries@[i].name@, self.entries@[j].name@));
        }
        assert forall|i: int| 0 <= i < names.len() implies self@.contains_key(
            #[trigger] names[i],
        ) by {
            lemma_entry(self.entries@, i);
        }
        assert forall|name: Seq<char>| #[trigger] self@.contains_key(name) implies names.contains(
            name,
        ) by {
            let j = choose|j: int| named_at(self.entries@, name, j);
            assert(names[j] == name);
        }
    }

    /// The empty index.
    pub fn new() -> (index: NameIndex)
        ensures
            index.wf(),
            index@ == Map::<Seq<char>, Seq<OID>>::empty(),
            index.names().len() == 0,
    {
        let index = NameIndex { entries: Vec::new() };
        assert(index@ =~= Map::<Seq<char>, Seq<OID>>::empty());
        index
    }

    /// Number of names.
    pub fn len(&self) -> (n: usize)
        ensures
            n == self.names().len(),
    {
        self.entries.len()
    }

    /// Name `i` in the order of names.
    pub fn name_at(&self, i: usize) -> (name: &str)
        requires
            i < self.names().len(),
        ensures
            name@ == self.names()[i as int],
    {
        self.entries[i].name.as_str()
    }

    /// Where `name` stands: the position of its entry, or the gap where it
    /// belongs.
    fn search(&self, name: &str) -> (r: Result<usize, usize>)
        requires
            self.wf(),
        ensures
            match r {
                Ok(i) => named_at(self.entries@, name@, i as int),
                Err(i) => gap_at(self.entries@, name@, i as int),
            },
    {
        let mut lo: usize = 0;
        let mut hi: usize = self.entries.len();
        while lo < hi
            invariant
                increasing(self.entries@),
                lo <= hi <= self.entries@.len(),
                forall|j: int| 0 <= j < lo ==> text_lt((#[trigger] self.entries@[j]).name@, name@),
                forall|j: int|
                    hi <= j < self.entries@.len() ==> text_lt(
                        name@,
                        (#[trigger] self.entries@[j]).name@,
                    ),
            decreases hi - lo,
        {
            let mid = lo + (hi - lo) / 2;
            match text_side(self.entries[mid].name.as_str(), name) {
                Side::Same => {
                    return Ok(mid);
                },
                Side::Before => {
                    proof {
                        let at = self.entries@[mid as int].name@;
                        assert forall|j: int| 0 <= j < mid + 1 implies text_lt(
                            (#[trigger] self.entries@[j]).name@,
                            name@,
                        ) by {
                            if j < mid {
                                lemma_text_lt_transitive(self.entries@[j].name@, at, name@);
                            }
                        }
                    }
                    lo = mid + 1;
                },
                Side::After => {
                    proof {
                        let at = self.entries@[mid as int].name@;
                        assert forall|j: int| mid <= j < self.entries@.len() implies text_lt(
                            name@,
                            (#[trigger] self.entries@[j]).name@,
                        ) by {
                            if mid < j {
                                lemma_text_lt_transitive(name@, at, self.entries@[j].name@);
                            }
                        }
                    }
                    hi = mid;
                },
            }
        }
        Err(lo)
    }

    /// The identifiers listed under `name`.
    pub fn get(&self, name: &str) -> (r: Option<&OidList>)
        requires
            self.wf(),
        ensures
            match r {
                Some(oids) => self@.contains_key(name@) && self@[name@] == oids@,
                None => !self@.contains_key(name@),
            },
    {
        match self.search(name) {
            Ok(i) => {
                proof {
                    lemma_entry(self.entries@, i as int);
                }
                Some(&self.entries[i].oids)
            },
            Err(i) => {
                proof {
                    lemma_gap(self.entries@, name@, i as int);
                }
                None
            },
        }
    }

    /// Lists `oids` under `name`, in place of what was listed there.
    pub fn put(&mut self, name: &str, oids: OidList)
        requires
            old(self).wf(),
        ensures
            final(self).wf(),
            final(self)@ == old(self)@.insert(name@, oids@),
    {
        let entry = NameEntry { name: name.to_owned(), oids };
        match self.search(name) {
            Ok(i) => {
                proof {
                    lemma_update(self.entries@, i as int, entry);
                }
                self.entries.set(i, entry);
            },
            Err(i) => {
                proof {
                    lemma_insert(self.entries@, i as int, entry);
                }
                self.entries.insert(i, entry);
            },
        }
    }

    /// Takes `name` and what is listed under it out of the index.
    pub fn remove(&mut self, name: &str)
        requires
            old(self).wf(),
        ensures
            final(self).wf(),
            final(self)@ == old(self)@.remove(name@),
    {
        match self.search(name) {
            Ok(i) => {
                proof {
                    lemma_remove(self.entries@, i as int);
                }
                let gone = self.entries.remove(i);
            },
            Err(i) => {
                proof {
                    lemma_gap(self.entries@, name@, i as int);
                    assert(self@.remove(name@) =~= self@);
                }
            },
        }
    }
}

} // verus!
