//! The tree that records are written in: nested lists of texts.
//!
//! A [`Node`] is either a leaf holding a text or a branch holding nodes. By
//! convention the text that labels a node is its *initial text*: the leaf
//! reached by descending through first children.

use vstd::prelude::*;
use crate::error::{decode_error, Error, ErrorView, Fault};
use crate::text::text_eq;

verus! {

/// A tree of texts.
#[derive(Debug, PartialEq, Eq)]
pub enum Node {
    Leaf(String),
    Branch(Vec<Node>),
}

/// The mathematical value of a [`Node`].
pub enum Tree {
    Leaf(Seq<char>),
    Branch(Seq<Tree>),
}

impl View for Node {
    type V = Tree;

    open spec fn view(&self) -> Tree
        decreases self,
    {
        match self {
            Node::Leaf(s) => Tree::Leaf(s@),
            Node::Branch(v) => Tree::Branch(
                Seq::new(
                    v@.len(),
                    |i: int|
                        if 0 <= i < v@.len() {
                            v@[i].view()
                        } else {
                            Tree::Leaf(Seq::empty())
                        },
                ),
            ),
        }
    }
}

/// The values of a sequence of nodes.
pub open spec fn trees_of(nodes: Seq<Node>) -> Seq<Tree> {
    Seq::new(nodes.len(), |i: int| nodes[i]@)
}

/// Whether `items[i]` is the first item whose initial text is `key`.
pub open spec fn is_first_labelled(items: Seq<Tree>, key: Seq<char>, i: int) -> bool {
    &&& 0 <= i < items.len()
    &&& items[i].initial_str() == key
    &&& forall|j: int| 0 <= j < i ==> (#[trigger] items[j]).initial_str() != key
}

/// The first item whose initial text is `key`, if there is one.
pub open spec fn first_labelled(items: Seq<Tree>, key: Seq<char>) -> Option<Tree> {
    if exists|i: int| is_first_labelled(items, key, i) {
        Some(items[choose|i: int| is_first_labelled(items, key, i)])
    } else {
        None
    }
}

impl Tree {
    /// The text of the leaf reached through first children; empty where that
    /// descent ends in an empty branch.
    pub open spec fn initial_str(self) -> Seq<char>
        decreases self,
    {
        match self {
            Tree::Leaf(s) => s,
            Tree::Branch(v) => if v.len() > 0 {
                v[0].initial_str()
            } else {
                Seq::empty()
            },
        }
    }

    /// The children of a branch; a leaf counts as its own only item.
    pub open spec fn contents(self) -> Seq<Tree> {
        match self {
            Tree::Leaf(_) => seq![self],
            Tree::Branch(v) => v,
        }
    }

    /// What follows the first child of a branch; nothing for a leaf.
    pub open spec fn tail(self) -> Seq<Tree> {
        match self {
            Tree::Leaf(_) => Seq::empty(),
            Tree::Branch(v) => if v.len() > 0 {
                v.subrange(1, v.len() as int)
            } else {
                Seq::empty()
            },
        }
    }

    /// The first item of the tail.
    pub open spec fn second(self) -> Option<Tree> {
        if self.tail().len() > 0 {
            Some(self.tail()[0])
        } else {
            None
        }
    }

    /// The first item of the contents whose initial text is `key`.
    pub open spec fn seek(self, key: Seq<char>) -> Option<Tree> {
        first_labelled(self.contents(), key)
    }

    /// The value that follows the label in the first item labelled `key`.
    pub open spec fn seek_val(self, key: Seq<char>) -> Option<Tree> {
        match self.seek(key) {
            Some(w) => w.second(),
            None => None,
        }
    }
}

/// There is at most one first item labelled `key`, and `first_labelled` is it.
pub proof fn lemma_first_labelled(items: Seq<Tree>, key: Seq<char>, i: int)
    requires
        is_first_labelled(items, key, i),
    ensures
        first_labelled(items, key) == Some(items[i]),
{
    let c = choose|c: int| is_first_labelled(items, key, c);
    if c < i {
        assert(items[c].initial_str() != key);
    } else if i < c {
        assert(items[i].initial_str() != key);
    }
}

/// Where no item is labelled `key`, `first_labelled` finds none.
pub proof fn lemma_none_labelled(items: Seq<Tree>, key: Seq<char>)
    requires
        forall|j: int| 0 <= j < items.len() ==> (#[trigger] items[j]).initial_str() != key,
    ensures
        first_labelled(items, key) is None,
{
    if exists|i: int| is_first_labelled(items, key, i) {
        let c = choose|c: int| is_first_labelled(items, key, c);
        assert(items[c].initial_str() != key);
    }
}

impl Node {
    /// A leaf holding `text`.
    pub fn leaf(text: &str) -> (n: Node)
        ensures
            n@ == Tree::Leaf(text@),
    {
        Node::Leaf(text.to_owned())
    }

    /// A branch holding `children`.
    pub fn branch(children: Vec<Node>) -> (n: Node)
        ensures
            n@ == Tree::Branch(trees_of(children@)),
    {
        let n = Node::Branch(children);
        assert(n@->Branch_0 =~= trees_of(children@));
        n
    }

    /// Whether this node is a leaf.
    pub fn is_leaf(&self) -> (b: bool)
        ensures
            b == (self@ is Leaf),
    {
        match self {
            Node::Leaf(_) => true,
            Node::Branch(_) => false,
        }
    }

    /// The text of the leaf reached through first children.
    pub fn initial_str(&self) -> (s: &str)
        ensures
            s@ == self@.initial_str(),
        decreases self,
    {
        match self {
            Node::Leaf(text) => text.as_str(),
            Node::Branch(v) => {
                if v.len() > 0 {
                    v[0].initial_str()
                } else {
                    proof {
                        reveal_strlit("");
                    }
                    ""
                }
            },
        }
    }

    /// Whether the initial text is `key`.
    pub fn is_labelled(&self, key: &str) -> (b: bool)
        ensures
            b == (self@.initial_str() == key@),
    {
        text_eq(self.initial_str(), key)
    }

    /// Number of items in the contents.
    pub fn contents_len(&self) -> (n: usize)
        ensures
            n == self@.contents().len(),
    {
        match self {
            Node::Leaf(_) => 1,
            Node::Branch(v) => v.len(),
        }
    }

    /// Item `i` of the contents.
    pub fn content(&self, i: usize) -> (n: &Node)
        requires
            i < self@.contents().len(),
        ensures
            n@ == self@.contents()[i as int],
    {
        match self {
            Node::Leaf(_) => self,
            Node::Branch(v) => &v[i],
        }
    }

    /// Number of items in the tail.
    pub fn tail_len(&self) -> (n: usize)
        ensures
            n == self@.tail().len(),
    {
        match self {
            Node::Leaf(_) => 0,
            Node::Branch(v) => if v.len() > 0 {
                v.len() - 1
            } else {
                0
            },
        }
    }

    /// Item `i` of the tail.
    pub fn tail_item(&self, i: usize) -> (n: &Node)
        requires
            i < self@.tail().len(),
        ensures
            n@ == self@.tail()[i as int],
    {
        match self {
            Node::Leaf(_) => self,
            Node::Branch(v) => {
                let len = v.len();
                proof {
                    let t = self@->Branch_0;
                    assert(t.len() == v@.len());
                    assert(t.len() > 0);
                    assert(self@.tail().len() == t.len() - 1);
                    assert(self@.tail()[i as int] == t[i + 1]);
                    assert(i + 1 < len);
                }
                &v[i + 1]
            },
        }
    }

    /// The first item of the tail.
    pub fn second(&self) -> (r: Option<&Node>)
        ensures
            match r {
                Some(n) => self@.second() == Some(n@),
                None => self@.second() is None,
            },
    {
        if self.tail_len() > 0 {
            Some(self.tail_item(0))
        } else {
            None
        }
    }

    /// The first item of the contents whose initial text is `key`.
    pub fn seek(&self, key: &str) -> (r: Option<&Node>)
        ensures
            match r {
                Some(n) => self@.seek(key@) == Some(n@),
                None => self@.seek(key@) is None,
            },
    {
        let n = self.contents_len();
        let mut i: usize = 0;
        while i < n
            invariant
                n == self@.contents().len(),
                i <= n,
                forall|j: int|
                    0 <= j < i ==> (#[trigger] self@.contents()[j]).initial_str() != key@,
            decreases n - i,
        {
            let item = self.content(i);
            if item.is_labelled(key) {
                proof {
                    lemma_first_labelled(self@.contents(), key@, i as int);
                }
                return Some(item);
            }
            i += 1;
        }
        proof {
            lemma_none_labelled(self@.contents(), key@);
        }
        None
    }

    /// The value that follows the label in the first item labelled `key`.
    pub fn seek_val(&self, key: &str) -> (r: Option<&Node>)
        ensures
            match r {
                Some(n) => self@.seek_val(key@) == Some(n@),
                None => self@.seek_val(key@) is None,
            },
    {
        match self.seek(key) {
            Some(w) => w.second(),
            None => None,
        }
    }

    /// A copy of this tree.
    #[verifier::loop_isolation(false)]
    pub fn duplicate(&self) -> (n: Node)
        ensures
            n@ == self@,
        decreases self,
    {
        match self {
            Node::Leaf(text) => Node::Leaf(text.clone()),
            Node::Branch(v) => {
                let mut out: Vec<Node> = Vec::new();
                let mut i: usize = 0;
                while i < v.len()
                    invariant
                        i <= v.len(),
                        out@.len() == i,
                        forall|j: int| 0 <= j < i ==> (#[trigger] out@[j])@ == v@[j]@,
                    decreases v.len() - i,
                {
                    out.push(v[i].duplicate());
                    i += 1;
                }
                let n = Node::Branch(out);
                assert(n@->Branch_0 =~= self@->Branch_0);
                n
            },
        }
    }
}

impl Node {
    /// The first item of the contents whose initial text is `key`; without one,
    /// the error says that the field is missing from this tree.
    pub fn find(&self, key: &str) -> (r: Result<&Node, Error>)
        ensures
            match self@.seek(key@) {
                Some(t) => r matches Ok(n) && n@ == t,
                None => r matches Err(e) && e@ == decode_error(Fault::MissingField, key@, self@),
            },
    {
        match self.seek(key) {
            Some(n) => Ok(n),
            None => Err(Error::decode(Fault::MissingField, key, self)),
        }
    }

    /// The value that follows the label in the first item labelled `key`.
    /// Without such an item the error concerns this tree; where the item holds
    /// no value, the error concerns the item.
    pub fn find_val(&self, key: &str) -> (r: Result<&Node, Error>)
        ensures
            r matches Ok(n) ==> self@.seek_val(key@) == Some(n@),
            r matches Err(e) ==> e@ == find_val_error(self@, key@),
            r is Ok <==> self@.seek_val(key@) is Some,
    {
        match self.seek(key) {
            Some(item) => match item.second() {
                Some(n) => Ok(n),
                None => Err(Error::decode(Fault::MissingValue, key, item)),
            },
            None => Err(Error::decode(Fault::MissingField, key, self)),
        }
    }
}

/// The error of [`Node::find_val`] on a tree without a value under `key`.
pub open spec fn find_val_error(tree: Tree, key: Seq<char>) -> ErrorView {
    match tree.seek(key) {
        Some(item) => decode_error(Fault::MissingValue, key, item),
        None => decode_error(Fault::MissingField, key, tree),
    }
}

} // verus!
