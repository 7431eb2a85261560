//! The theme: one optional colour for every colour position of every
//! directive that the configuration grammar knows, and a few words about the
//! theme itself.

use vstd::prelude::*;
use vstd::string::*;
use crate::color::Color;

verus! {

/// A colour-bearing directive of the configuration grammar.
///
/// The first six stand at the top level of a configuration; the others stand
/// inside the `colors` block of a `bar` block.
#[derive(Clone, Copy, Debug, PartialEq, Eq, Structural)]
pub enum Directive {
    Focused,
    FocusedInactive,
    Unfocused,
    Urgent,
    Placeholder,
    Background,
    BarBackground,
    BarStatusline,
    BarSeparator,
    FocusedWorkspace,
    ActiveWorkspace,
    InactiveWorkspace,
    UrgentWorkspace,
    BindingMode,
}

/// The number of slots of a theme.
pub const SLOT_COUNT: usize = 44;

/// The number of directives.
pub const DIRECTIVE_COUNT: usize = 14;

/// Position of the border colour of a window or workspace class.
pub const BORDER: usize = 0;

/// Position of the background colour of a window or workspace class.
pub const BACKGROUND: usize = 1;

/// Position of the text colour of a window or workspace class.
pub const TEXT: usize = 2;

/// Position of the indicator colour of a window class.
pub const INDICATOR: usize = 3;

/// Position of the child border colour of a window class.
pub const CHILD_BORDER: usize = 4;

impl Directive {
    /// How many colour tokens follow the directive's keyword.
    pub open spec fn spec_arity(self) -> usize {
        match self {
            Directive::Focused
            | Directive::FocusedInactive
            | Directive::Unfocused
            | Directive::Urgent
            | Directive::Placeholder => 5,
            Directive::Background
            | Directive::BarBackground
            | Directive::BarStatusline
            | Directive::BarSeparator => 1,
            Directive::FocusedWorkspace
            | Directive::ActiveWorkspace
            | Directive::InactiveWorkspace
            | Directive::UrgentWorkspace
            | Directive::BindingMode => 3,
        }
    }

    /// The slot of the directive's first colour; the others follow it.
    pub open spec fn spec_base(self) -> usize {
        match self {
            Directive::Focused => 0,
            Directive::FocusedInactive => 5,
            Directive::Unfocused => 10,
            Directive::Urgent => 15,
            Directive::Placeholder => 20,
            Directive::Background => 25,
            Directive::BarBackground => 26,
            Directive::BarStatusline => 27,
            Directive::BarSeparator => 28,
            Directive::FocusedWorkspace => 29,
            Directive::ActiveWorkspace => 32,
            Directive::InactiveWorkspace => 35,
            Directive::UrgentWorkspace => 38,
            Directive::BindingMode => 41,
        }
    }

    /// Whether the directive stands inside the `colors` block of a bar.
    pub open spec fn spec_in_bar(self) -> bool {
        match self {
            Directive::Focused
            | Directive::FocusedInactive
            | Directive::Unfocused
            | Directive::Urgent
            | Directive::Placeholder
            | Directive::Background => false,
            _ => true,
        }
    }

    /// The word that opens the directive's line in a configuration.
    pub open spec fn spec_keyword(self) -> &'static str {
        match self {
            Directive::Focused => "client.focused",
            Directive::FocusedInactive => "client.focused_inactive",
            Directive::Unfocused => "client.unfocused",
            Directive::Urgent => "client.urgent",
            Directive::Placeholder => "client.placeholder",
            Directive::Background => "client.background",
            Directive::BarBackground => "background",
            Directive::BarStatusline => "statusline",
            Directive::BarSeparator => "separator",
            Directive::FocusedWorkspace => "focused_workspace",
            Directive::ActiveWorkspace => "active_workspace",
            Directive::InactiveWorkspace => "inactive_workspace",
            Directive::UrgentWorkspace => "urgent_workspace",
            Directive::BindingMode => "binding_mode",
        }
    }

    /// The name of the directive's group in a theme document.
    pub open spec fn spec_label(self) -> &'static str {
        match self {
            Directive::Focused => "focused",
            Directive::FocusedInactive => "focused_inactive",
            Directive::Unfocused => "unfocused",
            Directive::Urgent => "urgent",
            Directive::Placeholder => "placeholder",
            Directive::Background => "background",
            Directive::BarBackground => "background",
            Directive::BarStatusline => "statusline",
            Directive::BarSeparator => "separator",
            Directive::FocusedWorkspace => "focused_workspace",
            Directive::ActiveWorkspace => "active_workspace",
            Directive::InactiveWorkspace => "inactive_workspace",
            Directive::UrgentWorkspace => "urgent_workspace",
            Directive::BindingMode => "binding_mode",
        }
    }

    /// The keyword as the bytes that a configuration holds.
    pub open spec fn key_bytes(self) -> Seq<u8> {
        self.spec_keyword().spec_bytes()
    }

    /// The directive with the given number, counting from `Focused`.
    pub open spec fn spec_nth(n: usize) -> Directive {
        if n == 0 {
            Directive::Focused
        } else if n == 1 {
            Directive::FocusedInactive
        } else if n == 2 {
            Directive::Unfocused
        } else if n == 3 {
            Directive::Urgent
        } else if n == 4 {
            Directive::Placeholder
        } else if n == 5 {
            Directive::Background
        } else if n == 6 {
            Directive::BarBackground
        } else if n == 7 {
            Directive::BarStatusline
        } else if n == 8 {
            Directive::BarSeparator
        } else if n == 9 {
            Directive::FocusedWorkspace
        } else if n == 10 {
            Directive::ActiveWorkspace
        } else if n == 11 {
            Directive::InactiveWorkspace
        } else if n == 12 {
            Directive::UrgentWorkspace
        } else {
            Directive::BindingMode
        }
    }

    /// The number of the directive, counting from `Focused`.
    pub open spec fn number(self) -> usize {
        match self {
            Directive::Focused => 0,
            Directive::FocusedInactive => 1,
            Directive::Unfocused => 2,
            Directive::Urgent => 3,
            Directive::Placeholder => 4,
            Directive::Background => 5,
            Directive::BarBackground => 6,
            Directive::BarStatusline => 7,
            Directive::BarSeparator => 8,
            Directive::FocusedWorkspace => 9,
            Directive::ActiveWorkspace => 10,
            Directive::InactiveWorkspace => 11,
            Directive::UrgentWorkspace => 12,
            Directive::BindingMode => 13,
        }
    }

    /// The directive that the slot with the given number belongs to.
    pub open spec fn spec_owning(index: usize) -> Directive {
        if index < 5 {
            Directive::Focused
        } else if index < 10 {
            Directive::FocusedInactive
        } else if index < 15 {
            Directive::Unfocused
        } else if index < 20 {
            Directive::Urgent
        } else if index < 25 {
            Directive::Placeholder
        } else if index < 26 {
            Directive::Background
        } else if index < 27 {
            Directive::BarBackground
        } else if index < 28 {
            Directive::BarStatusline
        } else if index < 29 {
            Directive::BarSeparator
        } else if index < 32 {
            Directive::FocusedWorkspace
        } else if index < 35 {
            Directive::ActiveWorkspace
        } else if index < 38 {
            Directive::InactiveWorkspace
        } else if index < 41 {
            Directive::UrgentWorkspace
        } else {
            Directive::BindingMode
        }
    }

    /// The name of colour `position` in a theme document, for a directive
    /// with several colours.
    pub open spec fn spec_part(position: usize) -> &'static str {
        if position == 0 {
            "border"
        } else if position == 1 {
            "background"
        } else if position == 2 {
            "text"
        } else if position == 3 {
            "indicator"
        } else {
            "child_border"
        }
    }

    #[verifier::when_used_as_spec(spec_owning)]
    pub fn owning(index: usize) -> (d: Directive)
        ensures
            d == Directive::spec_owning(index),
            index < SLOT_COUNT ==> d.spec_base() <= index < d.spec_base() + d.spec_arity(),
    {
        if index < 5 {
            Directive::Focused
        } else if index < 10 {
            Directive::FocusedInactive
        } else if index < 15 {
            Directive::Unfocused
        } else if index < 20 {
            Directive::Urgent
        } else if index < 25 {
            Directive::Placeholder
        } else if index < 26 {
            Directive::Background
        } else if index < 27 {
            Directive::BarBackground
        } else if index < 28 {
            Directive::BarStatusline
        } else if index < 29 {
            Directive::BarSeparator
        } else if index < 32 {
            Directive::FocusedWorkspace
        } else if index < 35 {
            Directive::ActiveWorkspace
        } else if index < 38 {
            Directive::InactiveWorkspace
        } else if index < 41 {
            Directive::UrgentWorkspace
        } else {
            Directive::BindingMode
        }
    }

    #[verifier::when_used_as_spec(spec_part)]
    pub fn part(position: usize) -> (r: &'static str)
        ensures
            r@ == Directive::spec_part(position)@,
    {
        if position == 0 {
            "border"
        } else if position == 1 {
            "background"
        } else if position == 2 {
            "text"
        } else if position == 3 {
            "indicator"
        } else {
            "child_border"
        }
    }

    #[verifier::when_used_as_spec(spec_arity)]
    pub fn arity(self) -> (n: usize)
        ensures
            n == self.spec_arity(),
    {
        match self {
            Directive::Focused
            | Directive::FocusedInactive
            | Directive::Unfocused
            | Directive::Urgent
            | Directive::Placeholder => 5,
            Directive::Background
            | Directive::BarBackground
            | Directive::BarStatusline
            | Directive::BarSeparator => 1,
            Directive::FocusedWorkspace
            | Directive::ActiveWorkspace
            | Directive::InactiveWorkspace
            | Directive::UrgentWorkspace
            | Directive::BindingMode => 3,
        }
    }

    #[verifier::when_used_as_spec(spec_base)]
    pub fn base(self) -> (n: usize)
        ensures
            n == self.spec_base(),
    {
        match self {
            Directive::Focused => 0,
            Directive::FocusedInactive => 5,
            Directive::Unfocused => 10,
            Directive::Urgent => 15,
            Directive::Placeholder => 20,
            Directive::Background => 25,
            Directive::BarBackground => 26,
            Directive::BarStatusline => 27,
            Directive::BarSeparator => 28,
            Directive::FocusedWorkspace => 29,
            Directive::ActiveWorkspace => 32,
            Directive::InactiveWorkspace => 35,
            Directive::UrgentWorkspace => 38,
            Directive::BindingMode => 41,
        }
    }

    #[verifier::when_used_as_spec(spec_in_bar)]
    pub fn in_bar(self) -> (r: bool)
        ensures
            r == self.spec_in_bar(),
    {
        match self {
            Directive::Focused
            | Directive::FocusedInactive
            | Directive::Unfocused
            | Directive::Urgent
            | Directive::Placeholder
            | Directive::Background => false,
            _ => true,
        }
    }

    #[verifier::when_used_as_spec(spec_keyword)]
    pub fn keyword(self) -> (r: &'static str)
        ensures
            r@ == self.spec_keyword()@,
    {
        match self {
            Directive::Focused => "client.focused",
            Directive::FocusedInactive => "client.focused_inactive",
            Directive::Unfocused => "client.unfocused",
            Directive::Urgent => "client.urgent",
            Directive::Placeholder => "client.placeholder",
            Directive::Background => "client.background",
            Directive::BarBackground => "background",
            Directive::BarStatusline => "statusline",
            Directive::BarSeparator => "separator",
            Directive::FocusedWorkspace => "focused_workspace",
            Directive::ActiveWorkspace => "active_workspace",
            Directive::InactiveWorkspace => "inactive_workspace",
            Directive::UrgentWorkspace => "urgent_workspace",
            Directive::BindingMode => "binding_mode",
        }
    }

    #[verifier::when_used_as_spec(spec_label)]
    pub fn label(self) -> (r: &'static str)
        ensures
            r@ == self.spec_label()@,
    {
        match self {
            Directive::Focused => "focused",
            Directive::FocusedInactive => "focused_inactive",
            Directive::Unfocused => "unfocused",
            Directive::Urgent => "urgent",
            Directive::Placeholder => "placeholder",
            Directive::Background => "background",
            Directive::BarBackground => "background",
            Directive::BarStatusline => "statusline",
            Directive::BarSeparator => "separator",
            Directive::FocusedWorkspace => "focused_workspace",
            Directive::ActiveWorkspace => "active_workspace",
            Directive::InactiveWorkspace => "inactive_workspace",
            Directive::UrgentWorkspace => "urgent_workspace",
            Directive::BindingMode => "binding_mode",
        }
    }

    #[verifier::when_used_as_spec(spec_nth)]
    pub fn nth(n: usize) -> (d: Directive)
        ensures
            d == Directive::spec_nth(n),
    {
        if n == 0 {
            Directive::Focused
        } else if n == 1 {
            Directive::FocusedInactive
        } else if n == 2 {
            Directive::Unfocused
        } else if n == 3 {
            Directive::Urgent
        } else if n == 4 {
            Directive::Placeholder
        } else if n == 5 {
            Directive::Background
        } else if n == 6 {
            Directive::BarBackground
        } else if n == 7 {
            Directive::BarStatusline
        } else if n == 8 {
            Directive::BarSeparator
        } else if n == 9 {
            Directive::FocusedWorkspace
        } else if n == 10 {
            Directive::ActiveWorkspace
        } else if n == 11 {
            Directive::InactiveWorkspace
        } else if n == 12 {
            Directive::UrgentWorkspace
        } else {
            Directive::BindingMode
        }
    }
}

/// One colour position of one directive.
#[derive(Clone, Copy, Debug, PartialEq, Eq)]
pub struct Slot {
    directive: Directive,
    position: usize,
}

impl Slot {
    #[verifier::type_invariant]
    spec fn in_range(self) -> bool {
        self.position < self.directive.spec_arity()
    }

    /// The directive that the slot belongs to.
    pub closed spec fn spec_directive(self) -> Directive {
        self.directive
    }

    /// The place of the slot's colour among the directive's colour tokens.
    pub closed spec fn spec_position(self) -> usize {
        self.position
    }

    /// The slot's place among all the slots of a theme.
    pub open spec fn index(self) -> int {
        self.spec_directive().spec_base() + self.spec_position()
    }

    /// The slot of colour `position` of `directive`, if the directive has
    /// that many colours.
    pub fn new(directive: Directive, position: usize) -> (r: Option<Slot>)
        ensures
            r is Some <==> position < directive.spec_arity(),
            r matches Some(s) ==> s.spec_directive() == directive && s.spec_position() == position,
    {
        if position < directive.arity() {
            Some(Slot { directive, position })
        } else {
            None
        }
    }

    #[verifier::when_used_as_spec(spec_directive)]
    pub fn directive(self) -> (d: Directive)
        ensures
            d == self.spec_directive(),
    {
        self.directive
    }

    #[verifier::when_used_as_spec(spec_position)]
    pub fn position(self) -> (p: usize)
        ensures
            p == self.spec_position(),
            p < self.spec_directive().spec_arity(),
    {
        proof {
            use_type_invariant(self);
        }
        self.position
    }
}

/// What a theme says about itself.
#[derive(Debug, PartialEq, Eq)]
pub struct Meta {
    pub name: Option<String>,
    pub description: Option<String>,
    pub author: Option<String>,
}

/// The text of an optional string.
pub open spec fn text_of(s: Option<String>) -> Option<Seq<char>> {
    match s {
        Some(t) => Some(t@),
        None => None,
    }
}

/// The mathematical content of a `Meta`.
pub struct MetaView {
    pub name: Option<Seq<char>>,
    pub description: Option<Seq<char>>,
    pub author: Option<Seq<char>>,
}

impl View for Meta {
    type V = MetaView;

    open spec fn view(&self) -> MetaView {
        MetaView {
            name: text_of(self.name),
            description: text_of(self.description),
            author: text_of(self.author),
        }
    }
}

/// The mathematical content of a `Theme`: its words about itself and, for
/// each of the `SLOT_COUNT` slots, the colour or its absence.
pub struct ThemeView {
    pub meta: MetaView,
    pub slots: Seq<Option<Color>>,
}

/// The slots of a theme that has no colour at all.
pub open spec fn no_colors() -> Seq<Option<Color>> {
    Seq::new(SLOT_COUNT as nat, |i: int| None::<Color>)
}

/// A named set of optional colours. An absent colour leaves its position in
/// a configuration untouched.
#[derive(Debug, PartialEq, Eq)]
pub struct Theme {
    meta: Meta,
    slots: Vec<Option<Color>>,
}

impl View for Theme {
    type V = ThemeView;

    closed spec fn view(&self) -> ThemeView {
        ThemeView { meta: self.meta@, slots: self.slots@ }
    }
}

/// A copy of `slots` with one of them replaced.
fn replaced(slots: &Vec<Option<Color>>, index: usize, color: Option<Color>) -> (out: Vec<Option<Color>>)
    requires
        index < slots@.len(),
    ensures
        out@ == slots@.update(index as int, color),
{
    let mut out: Vec<Option<Color>> = Vec::new();
    let mut i: usize = 0;
    while i < slots.len()
        invariant
            i <= slots@.len(),
            index < slots@.len(),
            out@ == slots@.update(index as int, color).take(i as int),
        decreases slots@.len() - i,
    {
        let c = if i == index {
            color
        } else {
            slots[i]
        };
        out.push(c);
        assert(out@ =~= slots@.update(index as int, color).take(i + 1));
        i += 1;
    }
    assert(out@ =~= slots@.update(index as int, color));
    out
}

fn copied_text(s: &Option<String>) -> (r: Option<String>)
    ensures
        text_of(r) == text_of(*s),
{
    match s {
        Some(t) => Some(t.clone()),
        None => None,
    }
}

impl Clone for Meta {
    fn clone(&self) -> (m: Meta)
        ensures
            m@ == self@,
    {
        Meta {
            name: copied_text(&self.name),
            description: copied_text(&self.description),
            author: copied_text(&self.author),
        }
    }
}

impl Clone for Theme {
    fn clone(&self) -> (t: Theme)
        ensures
            t@ == self@,
    {
        proof {
            use_type_invariant(self);
        }
        let slots = replaced(&self.slots, 0, self.slots[0]);
        assert(slots@ =~= self.slots@);
        Theme { meta: self.meta.clone(), slots }
    }
}

impl Meta {
    /// A `Meta` that says nothing.
    pub fn empty() -> (m: Meta)
        ensures
            m@ == (MetaView { name: None, description: None, author: None }),
    {
        Meta { name: None, description: None, author: None }
    }
}

impl Theme {
    #[verifier::type_invariant]
    spec fn complete(self) -> bool {
        self.slots@.len() == SLOT_COUNT
    }

    /// A theme without colours.
    pub fn new(meta: Meta) -> (t: Theme)
        ensures
            t@.meta == meta@,
            t@.slots == no_colors(),
    {
        let mut slots: Vec<Option<Color>> = Vec::new();
        let mut i: usize = 0;
        while i < SLOT_COUNT
            invariant
                i <= SLOT_COUNT,
                slots@.len() == i,
                forall|j: int| 0 <= j < i ==> slots@[j] == None::<Color>,
            decreases SLOT_COUNT - i,
        {
            slots.push(None);
            i += 1;
        }
        assert(slots@ =~= no_colors());
        Theme { meta, slots }
    }

    /// Every theme has `SLOT_COUNT` slots.
    pub fn slot_count(&self) -> (n: usize)
        ensures
            n == SLOT_COUNT,
            self@.slots.len() == SLOT_COUNT,
    {
        proof {
            use_type_invariant(self);
        }
        self.slots.len()
    }

    /// The colour of a slot.
    pub fn get(&self, slot: Slot) -> (c: Option<Color>)
        ensures
            0 <= slot.index() < self@.slots.len(),
            c == self@.slots[slot.index()],
    {
        proof {
            use_type_invariant(self);
            use_type_invariant(slot);
        }
        self.slots[slot.directive.base() + slot.position]
    }

    /// The colour of the slot with the given number; none where there is
    /// no such slot.
    pub fn color_at(&self, index: usize) -> (c: Option<Color>)
        ensures
            self@.slots.len() == SLOT_COUNT,
            c == if index < SLOT_COUNT {
                self@.slots[index as int]
            } else {
                None
            },
    {
        proof {
            use_type_invariant(self);
        }
        if index < SLOT_COUNT {
            self.slots[index]
        } else {
            None
        }
    }

    /// Gives a slot a colour, or takes its colour away.
    pub fn set(&mut self, slot: Slot, color: Option<Color>)
        ensures
            0 <= slot.index() < old(self)@.slots.len(),
            final(self)@.slots == old(self)@.slots.update(slot.index(), color),
            final(self)@.meta == old(self)@.meta,
    {
        proof {
            use_type_invariant(&*self);
            use_type_invariant(slot);
        }
        self.slots = replaced(&self.slots, slot.directive.base() + slot.position, color);
    }

    /// Gives the slot with the given number a colour, or takes it away.
    pub(crate) fn put(&mut self, index: usize, color: Option<Color>)
        requires
            index < SLOT_COUNT,
        ensures
            final(self)@.slots == old(self)@.slots.update(index as int, color),
            final(self)@.meta == old(self)@.meta,
    {
        proof {
            use_type_invariant(&*self);
        }
        self.slots = replaced(&self.slots, index, color);
    }

    /// What the theme says about itself.
    pub fn meta(&self) -> (m: &Meta)
        ensures
            m@ == self@.meta,
    {
        &self.meta
    }

    /// Replaces what the theme says about itself.
    pub fn set_meta(&mut self, meta: Meta)
        ensures
            final(self)@.meta == meta@,
            final(self)@.slots == old(self)@.slots,
    {
        proof {
            use_type_invariant(&*self);
        }
        self.meta = meta;
    }
}

} // verus!
