use i3_style::color::Color;
use i3_style::error::InvalidColorToken;
use i3_style::rewriter::{apply, extract};
use i3_style::theme::{Directive, Meta, Slot, Theme, BACKGROUND, BORDER, TEXT};

fn slot(directive: Directive, position: usize) -> Slot {
    Slot::new(directive, position).unwrap()
}

fn empty_theme() -> Theme {
    Theme::new(Meta::empty())
}

#[test]
fn only_the_background_of_client_focused_changes() {
    let mut theme = empty_theme();
    theme.set(slot(Directive::Focused, BACKGROUND), Some(Color::rgb(0, 255, 0)));
    let out = apply(b"client.focused #000000 #ff0000 #ffffff #dddddd #000000", &theme).unwrap();
    assert_eq!(out, b"client.focused #000000 #00ff00 #ffffff #dddddd #000000".to_vec());
}

#[test]
fn malformed_token_is_reported_with_line_and_token() {
    let theme = empty_theme();
    let text = b"# colours\nfont pango:mono 10\nclient.urgent #112233 #zzzzzz #ffffff\n";
    let err = apply(text, &theme).unwrap_err();
    assert_eq!(err, InvalidColorToken { line: 3, column: 23, token: b"#zzzzzz".to_vec() });
    assert_eq!(extract(text).unwrap_err(), err);
}

#[test]
fn empty_theme_changes_nothing() {
    let theme = empty_theme();
    let text = b"set $mod Mod4\r\n  client.focused\t#000000 #ff0000   #ffffff\r\nbar {\n  colors {\n    background #101010\n  }\n}\n\n";
    assert_eq!(apply(text, &theme).unwrap(), text.to_vec());
}

#[test]
fn bar_colours_are_rewritten_only_inside_the_colors_block() {
    let mut theme = empty_theme();
    theme.set(slot(Directive::BarBackground, 0), Some(Color::rgb(1, 2, 3)));
    theme.set(slot(Directive::FocusedWorkspace, TEXT), Some(Color::rgb(0xaa, 0xbb, 0xcc)));
    let text = b"background #000000\nbar {\n\tbackground #000000\n\tcolors {\n\t\tbackground #000000\n\t\tfocused_workspace #111111 #222222 #333333\n\t}\n\tbackground #000000\n}\nbackground #000000\n";
    let want = b"background #000000\nbar {\n\tbackground #000000\n\tcolors {\n\t\tbackground #010203\n\t\tfocused_workspace #111111 #222222 #aabbcc\n\t}\n\tbackground #000000\n}\nbackground #000000\n";
    assert_eq!(apply(text, &theme).unwrap(), want.to_vec());
}

#[test]
fn extract_takes_the_first_occurrence() {
    let text = b"client.focused #010203 #040506\nclient.focused #ffffff #eeeeee #dddddd\n";
    let theme = extract(text).unwrap();
    assert_eq!(theme.get(slot(Directive::Focused, BORDER)), Some(Color::rgb(1, 2, 3)));
    assert_eq!(theme.get(slot(Directive::Focused, BACKGROUND)), Some(Color::rgb(4, 5, 6)));
    assert_eq!(theme.get(slot(Directive::Focused, TEXT)), Some(Color::rgb(0xdd, 0xdd, 0xdd)));
    assert_eq!(theme.get(slot(Directive::Unfocused, BORDER)), None);
}

#[test]
fn the_column_counts_bytes_from_one() {
    let theme = empty_theme();
    let err = apply(b"client.focused #12345g", &theme).unwrap_err();
    assert_eq!(err, InvalidColorToken { line: 1, column: 16, token: b"#12345g".to_vec() });
    let err = apply(b"\n\n \t client.focused\t\t#000000   $bg #zzzzzz\n", &theme).unwrap_err();
    assert_eq!(err, InvalidColorToken { line: 3, column: 30, token: b"$bg".to_vec() });
}

#[test]
fn a_broken_token_fails_the_rewrite_even_where_the_theme_has_no_colour_for_it() {
    let mut theme = empty_theme();
    theme.set(slot(Directive::Focused, BORDER), Some(Color::rgb(1, 2, 3)));
    let text = b"client.focused #000000 #ff00";
    assert_eq!(
        apply(text, &theme).unwrap_err(),
        InvalidColorToken { line: 1, column: 24, token: b"#ff00".to_vec() }
    );
}

#[test]
fn words_beyond_the_colours_of_a_directive_are_not_looked_at() {
    let mut theme = empty_theme();
    theme.set(slot(Directive::Background, 0), Some(Color::rgb(9, 9, 9)));
    let out = apply(b"client.background #ffffff #nonsense\n", &theme).unwrap();
    assert_eq!(out, b"client.background #090909 #nonsense\n".to_vec());
    let out = apply(b"client.focused #1 \n", &empty_theme());
    assert_eq!(out.unwrap_err(), InvalidColorToken { line: 1, column: 16, token: b"#1".to_vec() });
}

#[test]
fn a_directive_inside_a_foreign_block_is_opaque() {
    let mut theme = empty_theme();
    theme.set(slot(Directive::Focused, BORDER), Some(Color::rgb(1, 2, 3)));
    theme.set(slot(Directive::BarStatusline, 0), Some(Color::rgb(4, 5, 6)));
    let text = b"mode \"x\" {\nclient.focused nonsense\ncolors {\nstatusline nonsense\n}\n}\nclient.focused #ffffff\n";
    let want = b"mode \"x\" {\nclient.focused nonsense\ncolors {\nstatusline nonsense\n}\n}\nclient.focused #010203\n";
    assert_eq!(apply(text, &theme).unwrap(), want.to_vec());
}

#[test]
fn a_closing_brace_too_many_leaves_the_top_level() {
    let mut theme = empty_theme();
    theme.set(slot(Directive::Focused, BORDER), Some(Color::rgb(1, 2, 3)));
    let out = apply(b"}\n}\nclient.focused #ffffff", &theme).unwrap();
    assert_eq!(out, b"}\n}\nclient.focused #010203".to_vec());
}

#[test]
fn a_comment_neither_opens_nor_closes_a_block() {
    let mut theme = empty_theme();
    theme.set(slot(Directive::BarSeparator, 0), Some(Color::rgb(1, 2, 3)));
    let text = b"bar {\n# }\ncolors {\n  #comment {\nseparator #000000ff\n}\n}\nseparator #000000\n";
    let want = b"bar {\n# }\ncolors {\n  #comment {\nseparator #010203\n}\n}\nseparator #000000\n";
    assert_eq!(apply(text, &theme).unwrap(), want.to_vec());
}

#[test]
fn an_empty_configuration_stays_empty() {
    assert_eq!(apply(b"", &empty_theme()).unwrap(), Vec::<u8>::new());
    let theme = extract(b"").unwrap();
    assert_eq!(theme, empty_theme());
}

#[test]
fn bytes_that_are_no_text_pass_through() {
    let mut theme = empty_theme();
    theme.set(slot(Directive::Unfocused, TEXT), Some(Color::rgb(0xff, 0xee, 0xdd)));
    let text = b"font \xff\xfe\x00\nclient.unfocused #000000 #000000 #000000\x0b\n";
    let err = apply(text, &theme).unwrap_err();
    assert_eq!(err, InvalidColorToken { line: 2, column: 34, token: b"#000000\x0b".to_vec() });
    let text = b"font \xff\xfe\x00\nclient.unfocused #000000 #000000 #000000\r\n";
    let want = b"font \xff\xfe\x00\nclient.unfocused #000000 #000000 #ffeedd\r\n";
    assert_eq!(apply(text, &theme).unwrap(), want.to_vec());
}
