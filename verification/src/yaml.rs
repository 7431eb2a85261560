//! The YAML library, `yaml_rust`, behind four small functions: one parses a
//! text, one writes a value as text, and two carry a value of the library
//! over into a `Node` and back. Verus takes their contracts on trust, and
//! with them that the library returns from every call.

use vstd::prelude::*;
use yaml_rust::{Yaml, YamlEmitter, YamlLoader};
use crate::document::{well_keyed, Node, Tree};
use crate::error::Position;

verus! {

/// The documents that `YamlLoader::load_from_str` reads from a text, or the
/// place at which it reports an error.
pub uninterp spec fn yaml_documents(text: Seq<char>) -> Result<Seq<Tree>, Position>;

/// The text that `YamlEmitter::dump` writes for a value that holds the
/// given tree.
pub uninterp spec fn yaml_text(tree: Tree) -> Seq<char>;

/// The tree of a `yaml_rust::Yaml`: what the value holds, variant for
/// variant, the entries of a hash in the order in which the hash holds them.
pub uninterp spec fn yaml_tree(value: Yaml) -> Tree;

/// `yaml_rust::Yaml`, a YAML value as the YAML library holds it.
#[verifier::external_type_specification]
#[verifier::external_body]
pub struct ExYaml(Yaml);

/// `YamlLoader::load_from_str`: parses a text that may hold several YAML
/// documents. The contract claims only that the result is a function of the
/// text: the documents, or the place of the marker of the scan error.
#[verifier::external_body]
pub(crate) fn parse(text: &str) -> (r: Result<Vec<Yaml>, Position>)
    ensures
        match r {
            Ok(docs) => yaml_documents(text@) == Ok::<Seq<Tree>, Position>(
                Seq::new(docs@.len(), |i: int| yaml_tree(docs@[i])),
            ),
            Err(p) => yaml_documents(text@) == Err::<Seq<Tree>, Position>(p),
        },
{
    match YamlLoader::load_from_str(text) {
        Ok(docs) => Ok(docs),
        Err(e) => Err(
            Position { index: e.marker().index(), line: e.marker().line(), column: e.marker().col() },
        ),
    }
}

/// Copies a `yaml_rust::Yaml` into a `Node`, one arm for each variant of the
/// enum; `LinkedHashMap::iter` hands the entries of a hash out in their
/// order. The contract says that the node holds what the value holds.
#[verifier::external_body]
pub(crate) fn node_of(value: &Yaml) -> (node: Node)
    ensures
        node@ == yaml_tree(*value),
{
    match value {
        Yaml::Real(s) => Node::Real(s.clone()),
        Yaml::Integer(i) => Node::Integer(*i),
        Yaml::String(s) => Node::Text(s.clone()),
        Yaml::Boolean(b) => Node::Boolean(*b),
        Yaml::Array(items) => Node::List(items.iter().map(node_of).collect()),
        Yaml::Hash(h) => Node::Table(h.iter().map(|(k, v)| (node_of(k), node_of(v))).collect()),
        Yaml::Alias(n) => Node::Alias(*n),
        Yaml::Null => Node::Null,
        Yaml::BadValue => Node::Bad,
    }
}

/// Builds a `yaml_rust::Yaml` from a `Node`, one arm for each variant; the
/// entries of a table go into a `LinkedHashMap` by `insert`, in their order.
/// An entry whose key is in the map already would take that entry's place,
/// so the contract speaks only of nodes whose tables have no key twice: the
/// value then holds what the node holds.
#[verifier::external_body]
pub(crate) fn yaml_of(node: &Node) -> (value: Yaml)
    ensures
        well_keyed(node@) ==> yaml_tree(value) == node@,
{
    match node {
        Node::Real(s) => Yaml::Real(s.clone()),
        Node::Integer(i) => Yaml::Integer(*i),
        Node::Text(s) => Yaml::String(s.clone()),
        Node::Boolean(b) => Yaml::Boolean(*b),
        Node::List(items) => Yaml::Array(items.iter().map(yaml_of).collect()),
        Node::Table(entries) => Yaml::Hash(entries.iter().map(|e| (yaml_of(&e.0), yaml_of(&e.1))).collect()),
        Node::Alias(n) => Yaml::Alias(*n),
        Node::Null => Yaml::Null,
        Node::Bad => Yaml::BadValue,
    }
}

/// `YamlEmitter::dump` into a fresh string: writes one YAML document. The
/// contract claims only that the text is a function of what the value holds.
#[verifier::external_body]
pub(crate) fn dump(value: &Yaml) -> (out: String)
    ensures
        out@ == yaml_text(yaml_tree(*value)),
{
    let mut out = String::new();
    let _ = YamlEmitter::new(&mut out).dump(value);
    out
}

} // verus!
