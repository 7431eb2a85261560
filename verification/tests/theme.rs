use i3_style::color::Color;
use i3_style::grammar::{lookup, Context, Region};
use i3_style::theme::{
    Directive, Meta, Slot, Theme, BACKGROUND, BORDER, CHILD_BORDER, DIRECTIVE_COUNT, SLOT_COUNT,
};

#[test]
fn the_slots_of_the_directives_lie_side_by_side() {
    let mut next = 0;
    for n in 0..DIRECTIVE_COUNT {
        let d = Directive::nth(n);
        assert_eq!(d.base(), next);
        for k in 0..d.arity() {
            assert_eq!(Directive::owning(d.base() + k), d);
            let slot = Slot::new(d, k).unwrap();
            assert_eq!(slot.directive(), d);
            assert_eq!(slot.position(), k);
        }
        assert_eq!(Slot::new(d, d.arity()), None);
        next += d.arity();
    }
    assert_eq!(next, SLOT_COUNT);
}

#[test]
fn a_new_theme_has_no_colour() {
    let theme = Theme::new(Meta::empty());
    assert_eq!(theme.slot_count(), SLOT_COUNT);
    assert!((0..SLOT_COUNT).all(|i| theme.color_at(i).is_none()));
    assert_eq!(theme.color_at(SLOT_COUNT), None);
    assert_eq!(*theme.meta(), Meta { name: None, description: None, author: None });
}

#[test]
fn set_changes_one_slot() {
    let mut theme = Theme::new(Meta::empty());
    let a = Slot::new(Directive::Focused, CHILD_BORDER).unwrap();
    let b = Slot::new(Directive::FocusedInactive, BORDER).unwrap();
    theme.set(a, Some(Color::rgb(1, 2, 3)));
    theme.set(b, Some(Color::rgb(4, 5, 6)));
    assert_eq!(theme.get(a), Some(Color::rgb(1, 2, 3)));
    assert_eq!(theme.color_at(4), Some(Color::rgb(1, 2, 3)));
    assert_eq!(theme.color_at(5), Some(Color::rgb(4, 5, 6)));
    theme.set(a, None);
    assert_eq!(theme.get(a), None);
    assert_eq!(theme.get(b), Some(Color::rgb(4, 5, 6)));
    assert_eq!((0..SLOT_COUNT).filter(|i| theme.color_at(*i).is_some()).count(), 1);
    let copy = theme.clone();
    assert_eq!(copy, theme);
}

#[test]
fn keywords_are_looked_up_by_level() {
    assert_eq!(lookup(b"client.focused", false), Some(Directive::Focused));
    assert_eq!(lookup(b"client.focused_inactive", false), Some(Directive::FocusedInactive));
    assert_eq!(lookup(b"client.background", false), Some(Directive::Background));
    assert_eq!(lookup(b"background", false), None);
    assert_eq!(lookup(b"background", true), Some(Directive::BarBackground));
    assert_eq!(lookup(b"binding_mode", true), Some(Directive::BindingMode));
    assert_eq!(lookup(b"client.focused", true), None);
    assert_eq!(lookup(b"Client.focused", false), None);
    assert_eq!(lookup(b"", false), None);
    for n in 0..DIRECTIVE_COUNT {
        let d = Directive::nth(n);
        assert_eq!(lookup(d.keyword().as_bytes(), d.in_bar()), Some(d));
    }
}

#[test]
fn the_context_follows_the_blocks() {
    let top = Context::top();
    assert_eq!(top, Context { depth: 0, region: Region::Top });
    let bar = top.after(b"bar {\n");
    assert_eq!(bar, Context { depth: 1, region: Region::Bar });
    let colors = bar.after(b"  colors  {  \r\n");
    assert_eq!(colors, Context { depth: 2, region: Region::BarColors });
    assert_eq!(colors.directive(b"statusline"), Some(Directive::BarStatusline));
    assert_eq!(colors.after(b"statusline #ffffff {"), colors);
    assert_eq!(colors.after(b"# {"), colors);
    let inner = colors.after(b"something {");
    assert_eq!(inner, Context { depth: 3, region: Region::BarColors });
    assert_eq!(inner.directive(b"statusline"), None);
    assert_eq!(inner.after(b"}"), colors);
    assert_eq!(colors.after(b" } "), bar);
    assert_eq!(bar.after(b"}\n"), top);
    assert_eq!(top.after(b"}"), top);
    assert_eq!(top.after(b"colors {"), Context { depth: 1, region: Region::Top });
    assert_eq!(bar.after(b"bar {"), Context { depth: 2, region: Region::Bar });
    assert_eq!(top.after(b"} else {"), top);
    assert_eq!(top.after(b"}{"), Context { depth: 1, region: Region::Top });
    assert_eq!(bar.directive(b"background"), None);
    assert_eq!(top.directive(b"client.urgent"), Some(Directive::Urgent));
    let _ = BACKGROUND;
}
