//! What holds of every theme document that this library writes.

use vstd::prelude::*;
use vstd::string::*;
use vstd::utf8::{encode_utf8, is_ascii_chars, is_ascii_chars_encode_utf8};
use crate::codec::{
    document_meta, document_theme, first_bad, group_entries, group_tree, group_value,
    part_entries, slot_bytes, slot_color, theme_tree, with_text,
};
use crate::color::{
    color_token, hex_text, is_hex_digit, lemma_token_round_trip, lemma_token_solid, parsed, Color,
};
use crate::document::{child, entry, well_keyed, Tree};
use crate::error::StyleFault;
use crate::theme::{no_colors, Directive, ThemeView, DIRECTIVE_COUNT, SLOT_COUNT};

verus! {

/// What a document holds for a colour that a theme may have: the text of
/// its token.
pub open spec fn color_value(color: Option<Color>) -> Option<Tree> {
    match color {
        Some(c) => Some(Tree::Text(hex_text(c))),
        None => None,
    }
}

/// The text of a colour's token is that token, byte for byte.
proof fn lemma_hex_text_bytes(c: Color)
    ensures
        encode_utf8(hex_text(c)) == color_token(c),
        parsed(encode_utf8(hex_text(c))) == Some(c),
{
    let t = color_token(c);
    let s = hex_text(c);
    lemma_token_round_trip(c);
    lemma_token_solid(t);
    assert(is_ascii_chars(s)) by {
        assert forall|i: int| 0 <= i < s.len() implies '\0' <= #[trigger] s[i] <= '\u{7f}' by {
            assert(s[i] == t[i] as char);
            if i > 0 {
                assert(is_hex_digit(t[i]));
            }
        }
    }
    is_ascii_chars_encode_utf8(s);
    assert forall|i: int| 0 <= i < t.len() implies encode_utf8(s)[i] == t[i] by {
        assert(s[i] == t[i] as char);
        if i > 0 {
            assert(is_hex_digit(t[i]));
        }
    }
    assert(encode_utf8(s) =~= t);
}

/// Looking a key up in a list with one more entry: what was found before is
/// found, and else the new entry where it has the key.
proof fn lemma_entry_push(s: Seq<(Tree, Tree)>, e: (Tree, Tree), key: Seq<char>)
    ensures
        entry(s.push(e), key) == (match entry(s, key) {
            Some(v) => Some(v),
            None => if e.0 == Tree::Text(key) {
                Some(e.1)
            } else {
                None
            },
        }),
    decreases s.len(),
{
    let t = s.push(e);
    if s.len() == 0 {
        assert(t[0] == e);
        assert(t.skip(1).len() == 0);
        assert(entry(t.skip(1), key) is None);
    } else {
        assert(t[0] == s[0]);
        assert(t.skip(1) =~= s.skip(1).push(e));
        lemma_entry_push(s.skip(1), e, key);
    }
}

/// The names of the colours of a group differ from each other.
proof fn lemma_parts_differ(i: usize, j: usize)
    requires
        i < 5,
        j < 5,
        i != j,
    ensures
        Directive::spec_part(i)@ != Directive::spec_part(j)@,
{
    reveal_strlit("border");
    reveal_strlit("background");
    reveal_strlit("text");
    reveal_strlit("indicator");
    reveal_strlit("child_border");
    let x = Directive::spec_part(i)@;
    let y = Directive::spec_part(j)@;
    if x == y {
        assert(x.len() == y.len());
    }
}

/// Two directives of one level have different labels, and no directive of
/// the top level has the label `bar`.
proof fn lemma_labels_differ(a: Directive, b: Directive)
    ensures
        a != b && a.spec_in_bar() == b.spec_in_bar() ==> a.spec_label()@ != b.spec_label()@,
        !a.spec_in_bar() ==> a.spec_label()@ != "bar"@,
{
    reveal_strlit("bar");
    reveal_strlit("focused");
    reveal_strlit("focused_inactive");
    reveal_strlit("unfocused");
    reveal_strlit("urgent");
    reveal_strlit("placeholder");
    reveal_strlit("background");
    reveal_strlit("statusline");
    reveal_strlit("separator");
    reveal_strlit("focused_workspace");
    reveal_strlit("active_workspace");
    reveal_strlit("inactive_workspace");
    reveal_strlit("urgent_workspace");
    reveal_strlit("binding_mode");
    let x = a.spec_label()@;
    let y = b.spec_label()@;
    if a != b && a.spec_in_bar() == b.spec_in_bar() && x == y {
        assert(x[0] == y[0]);
        assert(x.len() == y.len());
    }
    if !a.spec_in_bar() {
        assert("bar"@.len() == 3);
        assert(x.len() >= 6);
    }
}

/// The names under which a document holds its two parts and the three texts
/// of `meta` differ from each other.
proof fn lemma_keys_differ()
    ensures
        "meta"@ != "colors"@,
        "name"@ != "description"@,
        "name"@ != "author"@,
        "description"@ != "author"@,
{
    reveal_strlit("meta");
    reveal_strlit("colors");
    reveal_strlit("name");
    reveal_strlit("description");
    reveal_strlit("author");
    assert("meta"@.len() == 4);
    assert("colors"@.len() == 6);
    assert("name"@.len() == 4);
    assert("description"@.len() == 11);
    assert("author"@.len() == 6);
}

/// A group holds, under the name of each of its colours, the colour that
/// the theme has for it.
proof fn lemma_part_entries(slots: Seq<Option<Color>>, d: Directive, k: nat, j: usize)
    requires
        k <= 5,
        j < 5,
    ensures
        entry(part_entries(slots, d, k), Directive::spec_part(j)@) == (if j < k {
            color_value(slots[d.spec_base() + j])
        } else {
            None
        }),
    decreases k,
{
    if k > 0 {
        let before = part_entries(slots, d, (k - 1) as nat);
        lemma_part_entries(slots, d, (k - 1) as nat, j);
        match slots[d.spec_base() + k - 1] {
            Some(c) => {
                let e = (Tree::Text(Directive::spec_part((k - 1) as usize)@), Tree::Text(hex_text(c)));
                lemma_entry_push(before, e, Directive::spec_part(j)@);
                if j != k - 1 {
                    lemma_parts_differ((k - 1) as usize, j);
                }
            },
            None => {},
        }
    }
}

/// A group without entries stands for a directive none of whose colours the
/// theme has.
proof fn lemma_part_entries_empty(slots: Seq<Option<Color>>, d: Directive, k: nat, j: usize)
    requires
        k <= 5,
        j < k,
        part_entries(slots, d, k).len() == 0,
    ensures
        slots[d.spec_base() + j] is None,
{
    lemma_part_entries(slots, d, k, j);
}

/// What a document holds for a directive gives each of the directive's
/// slots the colour that the theme has for it.
proof fn lemma_group_value(slots: Seq<Option<Color>>, d: Directive, j: usize)
    requires
        j < d.spec_arity(),
    ensures
        (if d.spec_arity() == 1 {
            group_value(slots, d)
        } else {
            child(group_value(slots, d), Directive::spec_part(j)@)
        }) == color_value(slots[d.spec_base() + j]),
{
    if d.spec_arity() != 1 {
        let parts = part_entries(slots, d, d.spec_arity() as nat);
        lemma_part_entries(slots, d, d.spec_arity() as nat, j);
        if parts.len() == 0 {
            lemma_part_entries_empty(slots, d, d.spec_arity() as nat, j);
        }
    }
}

/// The entries of one level hold, under the label of each directive of that
/// level, what the document holds for the directive.
proof fn lemma_group_entries(slots: Seq<Option<Color>>, in_bar: bool, n: nat, d: Directive)
    requires
        n <= DIRECTIVE_COUNT,
        d.spec_in_bar() == in_bar,
    ensures
        entry(group_entries(slots, in_bar, n), d.spec_label()@) == (if d.number() < n {
            group_value(slots, d)
        } else {
            None
        }),
    decreases n,
{
    if n > 0 {
        let before = group_entries(slots, in_bar, (n - 1) as nat);
        let other = Directive::spec_nth((n - 1) as usize);
        lemma_group_entries(slots, in_bar, (n - 1) as nat, d);
        match group_value(slots, other) {
            Some(value) => {
                if other.spec_in_bar() == in_bar {
                    lemma_entry_push(before, (Tree::Text(other.spec_label()@), value), d.spec_label()@);
                    lemma_labels_differ(other, d);
                }
            },
            None => {},
        }
    }
}

/// The entries of the top level hold nothing under `bar`.
proof fn lemma_no_bar_at_top(slots: Seq<Option<Color>>, n: nat)
    requires
        n <= DIRECTIVE_COUNT,
    ensures
        entry(group_entries(slots, false, n), "bar"@) is None,
    decreases n,
{
    if n > 0 {
        let before = group_entries(slots, false, (n - 1) as nat);
        let other = Directive::spec_nth((n - 1) as usize);
        lemma_no_bar_at_top(slots, (n - 1) as nat);
        match group_value(slots, other) {
            Some(value) => {
                if !other.spec_in_bar() {
                    lemma_entry_push(before, (Tree::Text(other.spec_label()@), value), "bar"@);
                    lemma_labels_differ(other, other);
                }
            },
            None => {},
        }
    }
}

/// The document of a theme holds for each directive what `group_value`
/// says.
proof fn lemma_group_tree(theme: ThemeView, d: Directive)
    ensures
        group_tree(theme_tree(theme), d) == group_value(theme.slots, d),
{
    let slots = theme.slots;
    let top = group_entries(slots, false, DIRECTIVE_COUNT as nat);
    let bar = group_entries(slots, true, DIRECTIVE_COUNT as nat);
    let colors = if bar.len() == 0 {
        top
    } else {
        top.push((Tree::Text("bar"@), Tree::Table(bar)))
    };
    let root = theme_tree(theme);
    lemma_root(theme);
    assert(child(Some(root), "colors"@) == Some(Tree::Table(colors)));
    lemma_no_bar_at_top(slots, DIRECTIVE_COUNT as nat);
    if bar.len() > 0 {
        lemma_entry_push(top, (Tree::Text("bar"@), Tree::Table(bar)), "bar"@);
        lemma_entry_push(top, (Tree::Text("bar"@), Tree::Table(bar)), d.spec_label()@);
    }
    if d.spec_in_bar() {
        lemma_group_entries(slots, true, DIRECTIVE_COUNT as nat, d);
    } else {
        lemma_group_entries(slots, false, DIRECTIVE_COUNT as nat, d);
        lemma_labels_differ(d, d);
    }
}

/// The document of a theme holds its two parts under `meta` and `colors`.
proof fn lemma_root(theme: ThemeView)
    ensures
        ({
            let top = group_entries(theme.slots, false, DIRECTIVE_COUNT as nat);
            let bar = group_entries(theme.slots, true, DIRECTIVE_COUNT as nat);
            let colors = if bar.len() == 0 {
                top
            } else {
                top.push((Tree::Text("bar"@), Tree::Table(bar)))
            };
            child(Some(theme_tree(theme)), "colors"@) == Some(Tree::Table(colors))
        }),
        document_meta(theme_tree(theme)) == theme.meta,
{
    lemma_keys_differ();
    let start = Seq::<(Tree, Tree)>::empty();
    let a = with_text(start, "name"@, theme.meta.name);
    let b = with_text(a, "description"@, theme.meta.description);
    let c = with_text(b, "author"@, theme.meta.author);
    let root = theme_tree(theme);
    let entries = root->Table_0;
    assert(entries[0].0 == Tree::Text("meta"@));
    assert(entries.skip(1)[0] == entries[1]);
    assert(entries.skip(1).skip(1).len() == 0);
    assert(child(Some(root), "meta"@) == Some(Tree::Table(c)));
    assert(entry(entries.skip(1), "colors"@) == Some(entries[1].1));
    assert(entry(entries, "colors"@) == Some(entries[1].1));
    if theme.meta.name is Some {
        lemma_entry_push(start, (Tree::Text("name"@), Tree::Text(theme.meta.name->0)), "name"@);
        lemma_entry_push(start, (Tree::Text("name"@), Tree::Text(theme.meta.name->0)), "description"@);
        lemma_entry_push(start, (Tree::Text("name"@), Tree::Text(theme.meta.name->0)), "author"@);
    }
    if theme.meta.description is Some {
        let e = (Tree::Text("description"@), Tree::Text(theme.meta.description->0));
        lemma_entry_push(a, e, "name"@);
        lemma_entry_push(a, e, "description"@);
        lemma_entry_push(a, e, "author"@);
    }
    if theme.meta.author is Some {
        let e = (Tree::Text("author"@), Tree::Text(theme.meta.author->0));
        lemma_entry_push(b, e, "name"@);
        lemma_entry_push(b, e, "description"@);
        lemma_entry_push(b, e, "author"@);
    }
}

/// The document of a theme holds for each slot the token of the colour that
/// the theme has for it, and nothing for a slot without a colour.
proof fn lemma_slot(theme: ThemeView, i: int)
    requires
        0 <= i < SLOT_COUNT,
    ensures
        slot_bytes(theme_tree(theme), i) == (match theme.slots[i] {
            Some(c) => Some(color_token(c)),
            None => None,
        }),
        slot_color(theme_tree(theme), i) == theme.slots[i],
{
    let d = Directive::spec_owning(i as usize);
    let j = (i - d.spec_base()) as usize;
    lemma_group_tree(theme, d);
    lemma_group_value(theme.slots, d, j);
    match theme.slots[i] {
        Some(c) => {
            lemma_hex_text_bytes(c);
        },
        None => {},
    }
}

/// No slot of the document of a theme holds a malformed colour.
proof fn lemma_none_bad(theme: ThemeView, n: int)
    requires
        0 <= n <= SLOT_COUNT,
    ensures
        first_bad(theme_tree(theme), n) is None,
    decreases SLOT_COUNT - n,
{
    if n < SLOT_COUNT {
        lemma_slot(theme, n);
        lemma_none_bad(theme, n + 1);
    }
}

/// A key that is looked up in vain is the key of no entry.
proof fn lemma_entry_none(s: Seq<(Tree, Tree)>, key: Seq<char>)
    requires
        entry(s, key) is None,
    ensures
        forall|i: int| 0 <= i < s.len() ==> (#[trigger] s[i]).0 != Tree::Text(key),
    decreases s.len(),
{
    if s.len() > 0 {
        let t = s.skip(1);
        lemma_entry_none(t, key);
        assert forall|i: int| 0 <= i < s.len() implies (#[trigger] s[i]).0 != Tree::Text(key) by {
            if i > 0 {
                assert(s[i] == t[i - 1]);
            }
        }
    }
}

/// Entries with different keys, all well keyed, stay so with one more entry
/// whose key was not among them.
proof fn lemma_push_well_keyed(s: Seq<(Tree, Tree)>, key: Seq<char>, value: Tree)
    requires
        well_keyed(Tree::Table(s)),
        entry(s, key) is None,
        well_keyed(value),
    ensures
        well_keyed(Tree::Table(s.push((Tree::Text(key), value)))),
{
    let t = s.push((Tree::Text(key), value));
    lemma_entry_none(s, key);
    assert forall|i: int, j: int| 0 <= i < j < t.len() implies (#[trigger] t[i]).0 != (
    #[trigger] t[j]).0 by {
        assert(t[i] == s[i]);
        if j < s.len() {
            assert(t[j] == s[j]);
        }
    }
    assert forall|i: int| 0 <= i < t.len() implies well_keyed((#[trigger] t[i]).0) && well_keyed(
        t[i].1,
    ) by {
        if i < s.len() {
            assert(t[i] == s[i]);
        }
    }
}

/// The entries of a group have different keys.
proof fn lemma_parts_well_keyed(slots: Seq<Option<Color>>, d: Directive, k: nat)
    requires
        k <= 5,
    ensures
        well_keyed(Tree::Table(part_entries(slots, d, k))),
    decreases k,
{
    if k > 0 {
        let before = part_entries(slots, d, (k - 1) as nat);
        lemma_parts_well_keyed(slots, d, (k - 1) as nat);
        lemma_part_entries(slots, d, (k - 1) as nat, (k - 1) as usize);
        match slots[d.spec_base() + k - 1] {
            Some(c) => {
                lemma_push_well_keyed(
                    before,
                    Directive::spec_part((k - 1) as usize)@,
                    Tree::Text(hex_text(c)),
                );
            },
            None => {},
        }
    }
}

/// The entries of one level have different keys, and so has each group
/// among them.
proof fn lemma_groups_well_keyed(slots: Seq<Option<Color>>, in_bar: bool, n: nat)
    requires
        n <= DIRECTIVE_COUNT,
    ensures
        well_keyed(Tree::Table(group_entries(slots, in_bar, n))),
    decreases n,
{
    if n > 0 {
        let before = group_entries(slots, in_bar, (n - 1) as nat);
        let d = Directive::spec_nth((n - 1) as usize);
        lemma_groups_well_keyed(slots, in_bar, (n - 1) as nat);
        match group_value(slots, d) {
            Some(value) => {
                if d.spec_in_bar() == in_bar {
                    lemma_group_entries(slots, in_bar, (n - 1) as nat, d);
                    lemma_parts_well_keyed(slots, d, d.spec_arity() as nat);
                    lemma_push_well_keyed(before, d.spec_label()@, value);
                }
            },
            None => {},
        }
    }
}

/// In the document of a theme no table has a key twice.
pub proof fn lemma_theme_tree_well_keyed(theme: ThemeView)
    ensures
        well_keyed(theme_tree(theme)),
{
    lemma_keys_differ();
    let slots = theme.slots;
    let start = Seq::<(Tree, Tree)>::empty();
    let a = with_text(start, "name"@, theme.meta.name);
    let b = with_text(a, "description"@, theme.meta.description);
    let c = with_text(b, "author"@, theme.meta.author);
    assert(well_keyed(Tree::Table(start)));
    if theme.meta.name is Some {
        lemma_push_well_keyed(start, "name"@, Tree::Text(theme.meta.name->0));
        lemma_entry_push(start, (Tree::Text("name"@), Tree::Text(theme.meta.name->0)), "description"@);
        lemma_entry_push(start, (Tree::Text("name"@), Tree::Text(theme.meta.name->0)), "author"@);
    }
    if theme.meta.description is Some {
        let e = (Tree::Text("description"@), Tree::Text(theme.meta.description->0));
        lemma_push_well_keyed(a, "description"@, e.1);
        lemma_entry_push(a, e, "author"@);
    }
    if theme.meta.author is Some {
        lemma_push_well_keyed(b, "author"@, Tree::Text(theme.meta.author->0));
    }
    let top = group_entries(slots, false, DIRECTIVE_COUNT as nat);
    let bar = group_entries(slots, true, DIRECTIVE_COUNT as nat);
    lemma_groups_well_keyed(slots, false, DIRECTIVE_COUNT as nat);
    lemma_groups_well_keyed(slots, true, DIRECTIVE_COUNT as nat);
    lemma_no_bar_at_top(slots, DIRECTIVE_COUNT as nat);
    let colors = if bar.len() == 0 {
        top
    } else {
        top.push((Tree::Text("bar"@), Tree::Table(bar)))
    };
    if bar.len() > 0 {
        lemma_push_well_keyed(top, "bar"@, Tree::Table(bar));
    }
    let first = Seq::<(Tree, Tree)>::empty().push((Tree::Text("meta"@), Tree::Table(c)));
    lemma_push_well_keyed(Seq::<(Tree, Tree)>::empty(), "meta"@, Tree::Table(c));
    assert(entry(first.skip(1), "colors"@) is None);
    assert(entry(first, "colors"@) is None);
    lemma_push_well_keyed(first, "colors"@, Tree::Table(colors));
    assert(theme_tree(theme)->Table_0 =~= first.push((Tree::Text("colors"@), Tree::Table(colors))));
}

/// A document without colours has no malformed colour.
proof fn lemma_nothing_bad(root: Tree, n: int)
    requires
        0 <= n <= SLOT_COUNT,
        child(Some(root), "colors"@) is None,
    ensures
        first_bad(root, n) is None,
    decreases SLOT_COUNT - n,
{
    if n < SLOT_COUNT {
        lemma_nothing_bad(root, n + 1);
    }
}

/// A document that is a table and holds nothing under `colors` gives a
/// theme without colours, whatever else it holds.
pub proof fn law_no_colors_no_slots(root: Tree)
    requires
        root is Table,
        child(Some(root), "colors"@) is None,
    ensures
        document_theme(root) == Ok::<ThemeView, StyleFault>(
            ThemeView { meta: document_meta(root), slots: no_colors() },
        ),
{
    lemma_nothing_bad(root, 0);
    assert(Seq::new(SLOT_COUNT as nat, |i: int| slot_color(root, i)) =~= no_colors());
}

/// Round trip of documents. Reading the document that is written for a
/// theme gives the theme back: its colours, their absence, and what it says
/// about itself.
pub proof fn law_document_round_trip(theme: ThemeView)
    requires
        theme.slots.len() == SLOT_COUNT,
    ensures
        document_theme(theme_tree(theme)) == Ok::<ThemeView, StyleFault>(theme),
{
    let root = theme_tree(theme);
    lemma_none_bad(theme, 0);
    lemma_root(theme);
    let slots = Seq::new(SLOT_COUNT as nat, |i: int| slot_color(root, i));
    assert(slots =~= theme.slots) by {
        assert forall|i: int| 0 <= i < SLOT_COUNT implies slots[i] == theme.slots[i] by {
            lemma_slot(theme, i);
        }
    }
}

} // verus!
