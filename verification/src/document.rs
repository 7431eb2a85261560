//! Theme documents as trees of YAML values.
//!
//! A document is read into a `Node`, and every rule about documents is a
//! rule about its `Tree`: a table is a list of entries, and an entry is found
//! by the text of its key, the first such entry where several have it.

use vstd::prelude::*;
use vstd::string::*;
use vstd::utf8::encode_utf8_decode_utf8;
use crate::lexer::same_bytes;

verus! {

/// A YAML value.
#[derive(Debug, PartialEq, Eq)]
pub enum Node {
    Real(String),
    Integer(i64),
    Text(String),
    Boolean(bool),
    List(Vec<Node>),
    Table(Vec<(Node, Node)>),
    Alias(usize),
    Null,
    Bad,
}

/// The mathematical content of a `Node`.
pub enum Tree {
    Real(Seq<char>),
    Integer(i64),
    Text(Seq<char>),
    Boolean(bool),
    List(Seq<Tree>),
    Table(Seq<(Tree, Tree)>),
    Alias(usize),
    Null,
    Bad,
}

impl View for Node {
    type V = Tree;

    open spec fn view(&self) -> Tree
        decreases self,
    {
        match self {
            Node::Real(s) => Tree::Real(s@),
            Node::Integer(i) => Tree::Integer(*i),
            Node::Text(s) => Tree::Text(s@),
            Node::Boolean(b) => Tree::Boolean(*b),
            Node::List(items) => Tree::List(
                Seq::new(
                    items.len() as nat,
                    |i: int|
                        if 0 <= i < items.len() {
                            items[i]@
                        } else {
                            Tree::Bad
                        },
                ),
            ),
            Node::Table(entries) => Tree::Table(entries_view(*entries)),
            Node::Alias(n) => Tree::Alias(*n),
            Node::Null => Tree::Null,
            Node::Bad => Tree::Bad,
        }
    }
}

/// The entries of a table, each as a pair of trees.
pub open spec fn entries_view(entries: Vec<(Node, Node)>) -> Seq<(Tree, Tree)>
    decreases entries,
{
    Seq::new(
        entries.len() as nat,
        |i: int|
            if 0 <= i < entries.len() {
                (entries[i].0@, entries[i].1@)
            } else {
                (Tree::Bad, Tree::Bad)
            },
    )
}

/// The value of the first entry whose key is the text `key`.
pub open spec fn entry(entries: Seq<(Tree, Tree)>, key: Seq<char>) -> Option<Tree>
    decreases entries.len(),
{
    if entries.len() == 0 {
        None
    } else if entries[0].0 == Tree::Text(key) {
        Some(entries[0].1)
    } else {
        entry(entries.skip(1), key)
    }
}

/// No two entries have the same key.
pub open spec fn keys_differ(entries: Seq<(Tree, Tree)>) -> bool {
    forall|i: int, j: int|
        0 <= i < j < entries.len() ==> (#[trigger] entries[i]).0 != (#[trigger] entries[j]).0
}

/// No table of the tree, however deep, has two entries with the same key.
pub open spec fn well_keyed(tree: Tree) -> bool
    decreases tree,
{
    match tree {
        Tree::List(items) => forall|i: int| 0 <= i < items.len() ==> well_keyed(#[trigger] items[i]),
        Tree::Table(entries) => keys_differ(entries) && forall|i: int|
            0 <= i < entries.len() ==> well_keyed((#[trigger] entries[i]).0) && well_keyed(
                entries[i].1,
            ),
        _ => true,
    }
}

/// The value that a tree holds under `key`: a table's entry. Anything but a
/// table holds nothing.
pub open spec fn child(tree: Option<Tree>, key: Seq<char>) -> Option<Tree> {
    match tree {
        Some(Tree::Table(entries)) => entry(entries, key),
        _ => None,
    }
}

/// The text of a tree that is a text.
pub open spec fn text_at(tree: Option<Tree>) -> Option<Seq<char>> {
    match tree {
        Some(Tree::Text(s)) => Some(s),
        _ => None,
    }
}

/// The tree of an optional node.
pub open spec fn tree_of(node: Option<&Node>) -> Option<Tree> {
    match node {
        Some(n) => Some(n@),
        None => None,
    }
}

/// Whether two texts are the same.
pub fn same_text(a: &str, b: &str) -> (r: bool)
    ensures
        r == (a@ == b@),
{
    proof {
        encode_utf8_decode_utf8(a@);
        encode_utf8_decode_utf8(b@);
    }
    same_bytes(a.as_bytes(), b.as_bytes())
}

/// Finds the value of the first entry whose key is the text `key`.
pub fn find<'a>(entries: &'a Vec<(Node, Node)>, key: &str) -> (r: Option<&'a Node>)
    ensures
        tree_of(r) == entry(entries_view(*entries), key@),
{
    let ghost all = entries_view(*entries);
    let mut i: usize = 0;
    assert(all.skip(0) =~= all);
    while i < entries.len()
        invariant
            i <= entries.len(),
            all == entries_view(*entries),
            entry(all, key@) == entry(all.skip(i as int), key@),
        decreases entries.len() - i,
    {
        let hit = match &entries[i].0 {
            Node::Text(s) => same_text(s.as_str(), key),
            _ => false,
        };
        assert(all.skip(i as int)[0] == all[i as int]);
        assert(all.skip(i as int).skip(1) =~= all.skip(i + 1));
        if hit {
            return Some(&entries[i].1);
        }
        i += 1;
    }
    None
}

impl Node {
    /// The value under `key`, where this is a table that has one.
    pub fn get<'a>(&'a self, key: &str) -> (r: Option<&'a Node>)
        ensures
            tree_of(r) == child(Some(self@), key@),
    {
        match self {
            Node::Table(entries) => find(entries, key),
            _ => None,
        }
    }

    /// The text, where this is a text.
    pub fn text<'a>(&'a self) -> (r: Option<&'a String>)
        ensures
            match r {
                Some(s) => text_at(Some(self@)) == Some(s@),
                None => text_at(Some(self@)) is None,
            },
    {
        match self {
            Node::Text(s) => Some(s),
            _ => None,
        }
    }
}

/// The value under `key` of a node that may be missing.
pub fn get_in<'a>(node: Option<&'a Node>, key: &str) -> (r: Option<&'a Node>)
    ensures
        tree_of(r) == child(tree_of(node), key@),
{
    match node {
        Some(n) => n.get(key),
        None => None,
    }
}

} // verus!
