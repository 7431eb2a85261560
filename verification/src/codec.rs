//! Theme documents: from text to theme and back.
//!
//! A document is a YAML table. Under `meta` it may hold the texts `name`,
//! `description` and `author`. Under `colors` it holds the colours: a group
//! for each window class (`focused`, `unfocused`, ..) with the colours
//! `border`, `background`, `text`, `indicator` and `child_border`; the colour
//! `background`; and under `bar` the colours `background`, `statusline` and
//! `separator` and a group for each workspace class with the colours
//! `border`, `background` and `text`. A colour is a text that holds a colour
//! token. Whatever else a document holds is passed over.

use vstd::prelude::*;
use vstd::slice::slice_to_vec;
use vstd::string::*;
use vstd::utf8::encode_utf8;
use crate::color::{hex_text, parsed, Color};
use crate::document::{child, entries_view, get_in, text_at, tree_of, Node, Tree};
use crate::error::{Fault, InvalidColorToken, Position, StyleError, StyleFault};
use crate::theme::{
    text_of, Directive, Meta, MetaView, Theme, ThemeView, DIRECTIVE_COUNT, SLOT_COUNT,
};
use crate::codec_laws::lemma_theme_tree_well_keyed;
use crate::yaml::{dump, node_of, parse, yaml_documents, yaml_of, yaml_text};

verus! {

/// The value that a document holds for a directive: a group of colours, or
/// the colour itself where the directive has one colour.
pub open spec fn group_tree(root: Tree, d: Directive) -> Option<Tree> {
    let colors = child(Some(root), "colors"@);
    if d.spec_in_bar() {
        child(child(colors, "bar"@), d.spec_label()@)
    } else {
        child(colors, d.spec_label()@)
    }
}

/// The text that a document holds for a slot, as bytes.
pub open spec fn slot_bytes(root: Tree, index: int) -> Option<Seq<u8>> {
    let d = Directive::spec_owning(index as usize);
    let group = group_tree(root, d);
    let text = if d.spec_arity() == 1 {
        text_at(group)
    } else {
        text_at(child(group, Directive::spec_part((index - d.spec_base()) as usize)@))
    };
    match text {
        Some(s) => Some(encode_utf8(s)),
        None => None,
    }
}

/// The colour that a document gives a slot.
pub open spec fn slot_color(root: Tree, index: int) -> Option<Color> {
    match slot_bytes(root, index) {
        Some(token) => parsed(token),
        None => None,
    }
}

/// The text of the first slot from `index` on that holds a text that is no
/// colour token.
pub open spec fn first_bad(root: Tree, index: int) -> Option<Seq<u8>>
    decreases SLOT_COUNT - index,
{
    if index >= SLOT_COUNT {
        None
    } else if slot_bytes(root, index) is Some && slot_color(root, index) is None {
        slot_bytes(root, index)
    } else {
        first_bad(root, index + 1)
    }
}

/// What a document says about its theme.
pub open spec fn document_meta(root: Tree) -> MetaView {
    let meta = child(Some(root), "meta"@);
    MetaView {
        name: text_at(child(meta, "name"@)),
        description: text_at(child(meta, "description"@)),
        author: text_at(child(meta, "author"@)),
    }
}

/// The theme of a document: none where the document is no table, the first
/// malformed colour where it has one.
pub open spec fn document_theme(root: Tree) -> Result<ThemeView, StyleFault> {
    if !(root is Table) {
        Err(StyleFault::Decode(Position::spec_start()))
    } else {
        match first_bad(root, 0) {
            Some(token) => Err(StyleFault::InvalidColorToken(Fault { line: 0, column: 0, token })),
            None => Ok(
                ThemeView {
                    meta: document_meta(root),
                    slots: Seq::new(SLOT_COUNT as nat, |i: int| slot_color(root, i)),
                },
            ),
        }
    }
}

/// The theme of a text: that of its first YAML document. A text that the
/// parser refuses, or that holds no document, has none.
pub open spec fn decoded(text: Seq<char>) -> Result<ThemeView, StyleFault> {
    match yaml_documents(text) {
        Err(p) => Err(StyleFault::Decode(p)),
        Ok(docs) => if docs.len() == 0 {
            Err(StyleFault::Decode(Position::spec_start()))
        } else {
            document_theme(docs[0])
        },
    }
}

/// The view of a result that holds a theme or an error.
pub open spec fn outcome(r: Result<Theme, StyleError>) -> Result<ThemeView, StyleFault> {
    match r {
        Ok(theme) => Ok(theme@),
        Err(e) => Err(e@),
    }
}

fn text_under(node: Option<&Node>, key: &str) -> (r: Option<String>)
    ensures
        text_of(r) == text_at(child(tree_of(node), key@)),
{
    match get_in(node, key) {
        Some(n) => match n.text() {
            Some(s) => Some(s.clone()),
            None => None,
        },
        None => None,
    }
}

/// Reads the theme of a document.
pub fn theme_of_document(root: &Node) -> (r: Result<Theme, StyleError>)
    ensures
        outcome(r) == document_theme(root@),
{
    match root {
        Node::Table(_) => {},
        _ => {
            return Err(StyleError::Decode(Position::start()));
        },
    }
    let meta_node = root.get("meta");
    let meta = Meta {
        name: text_under(meta_node, "name"),
        description: text_under(meta_node, "description"),
        author: text_under(meta_node, "author"),
    };
    let colors = root.get("colors");
    let bar = get_in(colors, "bar");
    let mut theme = Theme::new(meta);
    let mut i: usize = 0;
    while i < SLOT_COUNT
        invariant
            i <= SLOT_COUNT,
            root@ is Table,
            tree_of(colors) == child(Some(root@), "colors"@),
            tree_of(bar) == child(tree_of(colors), "bar"@),
            theme@.meta == document_meta(root@),
            theme@.slots.len() == SLOT_COUNT,
            first_bad(root@, 0) == first_bad(root@, i as int),
            forall|j: int| 0 <= j < i ==> theme@.slots[j] == slot_color(root@, j),
            forall|j: int| i <= j < SLOT_COUNT ==> theme@.slots[j] == None::<Color>,
        decreases SLOT_COUNT - i,
    {
        let d = Directive::owning(i);
        let group = if d.in_bar() {
            get_in(bar, d.label())
        } else {
            get_in(colors, d.label())
        };
        let node = if d.arity() == 1 {
            group
        } else {
            get_in(group, Directive::part(i - d.base()))
        };
        let text = match node {
            Some(n) => n.text(),
            None => None,
        };
        match text {
            Some(s) => {
                let token = s.as_str().as_bytes();
                match Color::parse_token(token) {
                    Some(c) => {
                        theme.put(i, Some(c));
                    },
                    None => {
                        return Err(
                            StyleError::InvalidColorToken(
                                InvalidColorToken { line: 0, column: 0, token: slice_to_vec(token) },
                            ),
                        );
                    },
                }
            },
            None => {},
        }
        i += 1;
    }
    assert(theme@.slots =~= Seq::new(SLOT_COUNT as nat, |i: int| slot_color(root@, i)));
    Ok(theme)
}

/// Reads a theme from the text of a theme document.
pub fn decode(document: &str) -> (r: Result<Theme, StyleError>)
    ensures
        outcome(r) == decoded(document@),
{
    match parse(document) {
        Err(p) => Err(StyleError::Decode(p)),
        Ok(docs) => {
            if docs.len() == 0 {
                Err(StyleError::Decode(Position::start()))
            } else {
                let root = node_of(&docs[0]);
                theme_of_document(&root)
            }
        },
    }
}

/// The entries of a group for the colours before `k` that the theme has.
pub open spec fn part_entries(slots: Seq<Option<Color>>, d: Directive, k: nat) -> Seq<(Tree, Tree)>
    decreases k,
{
    if k == 0 {
        Seq::empty()
    } else {
        let before = part_entries(slots, d, (k - 1) as nat);
        match slots[d.spec_base() + k - 1] {
            Some(c) => before.push(
                (Tree::Text(Directive::spec_part((k - 1) as usize)@), Tree::Text(hex_text(c))),
            ),
            None => before,
        }
    }
}

/// What a document holds for a directive: nothing where the theme has none
/// of its colours.
pub open spec fn group_value(slots: Seq<Option<Color>>, d: Directive) -> Option<Tree> {
    if d.spec_arity() == 1 {
        match slots[d.spec_base() as int] {
            Some(c) => Some(Tree::Text(hex_text(c))),
            None => None,
        }
    } else {
        let parts = part_entries(slots, d, d.spec_arity() as nat);
        if parts.len() == 0 {
            None
        } else {
            Some(Tree::Table(parts))
        }
    }
}

/// The entries for the directives before number `n` that stand in a bar
/// (`in_bar`) or at the top level, each under its label.
pub open spec fn group_entries(slots: Seq<Option<Color>>, in_bar: bool, n: nat) -> Seq<(Tree, Tree)>
    decreases n,
{
    if n == 0 {
        Seq::empty()
    } else {
        let before = group_entries(slots, in_bar, (n - 1) as nat);
        let d = Directive::spec_nth((n - 1) as usize);
        match group_value(slots, d) {
            Some(value) => if d.spec_in_bar() == in_bar {
                before.push((Tree::Text(d.spec_label()@), value))
            } else {
                before
            },
            None => before,
        }
    }
}

/// One entry of `meta`, where the text is there.
pub open spec fn with_text(entries: Seq<(Tree, Tree)>, key: Seq<char>, text: Option<Seq<char>>) -> Seq<
    (Tree, Tree),
> {
    match text {
        Some(s) => entries.push((Tree::Text(key), Tree::Text(s))),
        None => entries,
    }
}

/// The document of a theme: under `meta` the texts that are there, under
/// `colors` the colours that the theme has and no others, and `bar` only
/// where a bar colour is among them.
pub open spec fn theme_tree(theme: ThemeView) -> Tree {
    let meta = with_text(
        with_text(with_text(Seq::empty(), "name"@, theme.meta.name), "description"@, theme.meta.description),
        "author"@,
        theme.meta.author,
    );
    let top = group_entries(theme.slots, false, DIRECTIVE_COUNT as nat);
    let bar = group_entries(theme.slots, true, DIRECTIVE_COUNT as nat);
    let colors = if bar.len() == 0 {
        top
    } else {
        top.push((Tree::Text("bar"@), Tree::Table(bar)))
    };
    Tree::Table(
        seq![(Tree::Text("meta"@), Tree::Table(meta)), (Tree::Text("colors"@), Tree::Table(colors))],
    )
}

fn put_entry(entries: &mut Vec<(Node, Node)>, key: &str, value: Node)
    ensures
        entries_view(*final(entries)) == entries_view(*old(entries)).push((Tree::Text(key@), value@)),
{
    entries.push((Node::Text(String::from_str(key)), value));
    assert(entries_view(*entries) =~= entries_view(*old(entries)).push((Tree::Text(key@), value@)));
}

fn put_text(entries: &mut Vec<(Node, Node)>, key: &str, text: &Option<String>)
    ensures
        entries_view(*final(entries)) == with_text(
            entries_view(*old(entries)),
            key@,
            text_of(*text),
        ),
{
    match text {
        Some(s) => {
            put_entry(entries, key, Node::Text(s.clone()));
        },
        None => {},
    }
}

fn group_node(theme: &Theme, d: Directive) -> (r: Option<Node>)
    ensures
        match r {
            Some(n) => group_value(theme@.slots, d) == Some(n@),
            None => group_value(theme@.slots, d) is None,
        },
{
    if d.arity() == 1 {
        match theme.color_at(d.base()) {
            Some(c) => Some(Node::Text(c.to_hex())),
            None => None,
        }
    } else {
        let mut parts: Vec<(Node, Node)> = Vec::new();
        let mut k: usize = 0;
        assert(entries_view(parts) =~= part_entries(theme@.slots, d, 0));
        while k < d.arity()
            invariant
                k <= d.spec_arity(),
                entries_view(parts) == part_entries(theme@.slots, d, k as nat),
            decreases d.spec_arity() - k,
        {
            match theme.color_at(d.base() + k) {
                Some(c) => {
                    put_entry(&mut parts, Directive::part(k), Node::Text(c.to_hex()));
                },
                None => {},
            }
            k += 1;
        }
        if parts.len() == 0 {
            None
        } else {
            Some(Node::Table(parts))
        }
    }
}

fn groups(theme: &Theme, in_bar: bool) -> (r: Vec<(Node, Node)>)
    ensures
        entries_view(r) == group_entries(theme@.slots, in_bar, DIRECTIVE_COUNT as nat),
{
    let mut entries: Vec<(Node, Node)> = Vec::new();
    let mut n: usize = 0;
    assert(entries_view(entries) =~= group_entries(theme@.slots, in_bar, 0));
    while n < DIRECTIVE_COUNT
        invariant
            n <= DIRECTIVE_COUNT,
            entries_view(entries) == group_entries(theme@.slots, in_bar, n as nat),
        decreases DIRECTIVE_COUNT - n,
    {
        let d = Directive::nth(n);
        match group_node(theme, d) {
            Some(value) => {
                if d.in_bar() == in_bar {
                    put_entry(&mut entries, d.label(), value);
                }
            },
            None => {},
        }
        n += 1;
    }
    entries
}

/// Builds the document of a theme.
pub fn document_of_theme(theme: &Theme) -> (root: Node)
    ensures
        root@ == theme_tree(theme@),
{
    let mut meta: Vec<(Node, Node)> = Vec::new();
    assert(entries_view(meta) =~= Seq::<(Tree, Tree)>::empty());
    put_text(&mut meta, "name", &theme.meta().name);
    put_text(&mut meta, "description", &theme.meta().description);
    put_text(&mut meta, "author", &theme.meta().author);
    let mut colors = groups(theme, false);
    let bar = groups(theme, true);
    if bar.len() > 0 {
        put_entry(&mut colors, "bar", Node::Table(bar));
    }
    let mut root: Vec<(Node, Node)> = Vec::new();
    put_entry(&mut root, "meta", Node::Table(meta));
    put_entry(&mut root, "colors", Node::Table(colors));
    assert(entries_view(root) =~= seq![
        (Tree::Text("meta"@), Tree::Table(entries_view(meta))),
        (Tree::Text("colors"@), Tree::Table(entries_view(colors))),
    ]);
    Node::Table(root)
}

/// Writes a theme as the text of a theme document.
pub fn encode(theme: &Theme) -> (out: String)
    ensures
        out@ == yaml_text(theme_tree(theme@)),
{
    let root = document_of_theme(theme);
    proof {
        lemma_theme_tree_well_keyed(theme@);
    }
    let value = yaml_of(&root);
    dump(&value)
}

} // verus!
