use i3_style::codec::{decode, document_of_theme, encode, theme_of_document};
use i3_style::color::Color;
use i3_style::document::Node;
use i3_style::error::{InvalidColorToken, Position, StyleError};
use i3_style::rewriter::apply;
use i3_style::theme::{
    Directive, Meta, Slot, Theme, BACKGROUND, BORDER, CHILD_BORDER, INDICATOR, SLOT_COUNT, TEXT,
};

fn at(directive: Directive, position: usize) -> Slot {
    Slot::new(directive, position).unwrap()
}

fn text(s: &str) -> Node {
    Node::Text(String::from(s))
}

fn populated(theme: &Theme) -> usize {
    (0..SLOT_COUNT).filter(|i| theme.color_at(*i).is_some()).count()
}

const NIGHT: &str = "\
meta:
  name: Night
  description: A dark theme
  author: someone
colors:
  focused:
    border: '#112233'
    background: '#00FF00'
    child_border: '#01020304'
  background: '#000000'
  mystery: '#123456'
  bar:
    background: '#0a0b0c'
    focused_workspace:
      text: '#ffffff'
    shadow:
      text: 'not looked at'
";

#[test]
fn decode_reads_meta_and_colours() {
    let theme = decode(NIGHT).unwrap();
    assert_eq!(theme.meta().name, Some(String::from("Night")));
    assert_eq!(theme.meta().description, Some(String::from("A dark theme")));
    assert_eq!(theme.meta().author, Some(String::from("someone")));
    assert_eq!(theme.get(at(Directive::Focused, BORDER)), Some(Color::rgb(0x11, 0x22, 0x33)));
    assert_eq!(theme.get(at(Directive::Focused, BACKGROUND)), Some(Color::rgb(0, 255, 0)));
    assert_eq!(
        theme.get(at(Directive::Focused, CHILD_BORDER)),
        Some(Color { red: 1, green: 2, blue: 3, alpha: Some(4) })
    );
    assert_eq!(theme.get(at(Directive::Focused, TEXT)), None);
    assert_eq!(theme.get(at(Directive::Focused, INDICATOR)), None);
    assert_eq!(theme.get(at(Directive::Background, 0)), Some(Color::rgb(0, 0, 0)));
    assert_eq!(theme.get(at(Directive::BarBackground, 0)), Some(Color::rgb(10, 11, 12)));
    assert_eq!(theme.get(at(Directive::FocusedWorkspace, TEXT)), Some(Color::rgb(255, 255, 255)));
    assert_eq!(populated(&theme), 6);
}

#[test]
fn document_without_colours_gives_an_empty_theme() {
    let theme = decode("meta:\n  description: nothing to see\n").unwrap();
    assert_eq!(theme.meta().description, Some(String::from("nothing to see")));
    assert_eq!(theme.meta().name, None);
    assert_eq!(populated(&theme), 0);
    let config = b"client.focused #000000 #ff0000 #ffffff\nbar {\n  colors {\n    statusline #abcdef\n  }\n}\n";
    assert_eq!(apply(config, &theme).unwrap(), config.to_vec());
}

#[test]
fn decode_refuses_a_malformed_colour() {
    let err = decode("colors:\n  urgent:\n    text: '#zzzzzz'\n").unwrap_err();
    assert_eq!(
        err,
        StyleError::InvalidColorToken(InvalidColorToken {
            line: 0,
            column: 0,
            token: b"#zzzzzz".to_vec()
        })
    );
}

#[test]
fn decode_reports_the_first_malformed_colour_in_slot_order() {
    let doc = "colors:\n  bar:\n    separator: 'red'\n  unfocused:\n    text: '#12345'\n    border: 'blue'\n";
    let err = decode(doc).unwrap_err();
    assert_eq!(
        err,
        StyleError::InvalidColorToken(InvalidColorToken { line: 0, column: 0, token: b"blue".to_vec() })
    );
}

#[test]
fn decode_reports_where_the_parser_gave_up() {
    let err = decode("meta:\n  name: [unclosed\n").unwrap_err();
    assert!(matches!(err, StyleError::Decode(_)), "{:?}", err);
    let err = decode("a: b: c").unwrap_err();
    assert_eq!(err, StyleError::Decode(Position { index: 4, line: 1, column: 4 }));
}

#[test]
fn decode_refuses_a_text_without_a_document() {
    assert_eq!(decode("").unwrap_err(), StyleError::Decode(Position { index: 0, line: 1, column: 0 }));
}

#[test]
fn decode_refuses_a_document_that_is_no_table() {
    assert_eq!(
        decode("- one\n- two\n").unwrap_err(),
        StyleError::Decode(Position { index: 0, line: 1, column: 0 })
    );
    assert_eq!(theme_of_document(&text("hello")).unwrap_err(), StyleError::Decode(Position::start()));
}

#[test]
fn the_first_entry_of_a_repeated_key_counts() {
    let root = Node::Table(vec![
        (text("colors"), Node::Table(vec![(text("background"), text("#010101"))])),
        (text("colors"), Node::Table(vec![(text("background"), text("#020202"))])),
    ]);
    let theme = theme_of_document(&root).unwrap();
    assert_eq!(theme.get(at(Directive::Background, 0)), Some(Color::rgb(1, 1, 1)));
}

#[test]
fn a_slot_that_holds_no_text_is_absent() {
    let root = Node::Table(vec![(
        text("colors"),
        Node::Table(vec![
            (text("background"), Node::Integer(7)),
            (text("focused"), text("#ffffff")),
            (text("urgent"), Node::Table(vec![(text("border"), Node::Null)])),
        ]),
    )]);
    let theme = theme_of_document(&root).unwrap();
    assert_eq!(populated(&theme), 0);
}

fn sample() -> Theme {
    let mut theme = Theme::new(Meta {
        name: Some(String::from("Night")),
        description: None,
        author: Some(String::from("me")),
    });
    theme.set(at(Directive::Focused, BORDER), Some(Color::rgb(0x11, 0x22, 0x33)));
    theme.set(at(Directive::Urgent, TEXT), Some(Color { red: 255, green: 0, blue: 10, alpha: Some(128) }));
    theme.set(at(Directive::BarSeparator, 0), Some(Color::rgb(1, 2, 3)));
    theme.set(at(Directive::BindingMode, BACKGROUND), Some(Color::rgb(0xab, 0xcd, 0xef)));
    theme
}

#[test]
fn the_document_of_a_theme_holds_what_the_theme_has() {
    let root = document_of_theme(&sample());
    let want = Node::Table(vec![
        (text("meta"), Node::Table(vec![(text("name"), text("Night")), (text("author"), text("me"))])),
        (
            text("colors"),
            Node::Table(vec![
                (text("focused"), Node::Table(vec![(text("border"), text("#112233"))])),
                (text("urgent"), Node::Table(vec![(text("text"), text("#ff000a80"))])),
                (
                    text("bar"),
                    Node::Table(vec![
                        (text("separator"), text("#010203")),
                        (text("binding_mode"), Node::Table(vec![(text("background"), text("#abcdef"))])),
                    ]),
                ),
            ]),
        ),
    ]);
    assert_eq!(root, want);
}

#[test]
fn the_document_of_an_empty_theme_has_two_empty_tables() {
    let root = document_of_theme(&Theme::new(Meta::empty()));
    let want = Node::Table(vec![
        (text("meta"), Node::Table(vec![])),
        (text("colors"), Node::Table(vec![])),
    ]);
    assert_eq!(root, want);
    assert_eq!(encode(&Theme::new(Meta::empty())), "---\nmeta: {}\ncolors: {}");
}

#[test]
fn encode_writes_yaml() {
    let mut theme = Theme::new(Meta { name: Some(String::from("Night")), description: None, author: None });
    theme.set(at(Directive::Focused, BORDER), Some(Color::rgb(0x11, 0x22, 0x33)));
    theme.set(at(Directive::BarStatusline, 0), Some(Color::rgb(0, 0, 0)));
    assert_eq!(
        encode(&theme),
        "---\nmeta:\n  name: Night\ncolors:\n  focused:\n    border: \"#112233\"\n  bar:\n    statusline: \"#000000\""
    );
}

#[test]
fn decode_gives_back_what_encode_wrote() {
    let theme = sample();
    assert_eq!(decode(&encode(&theme)).unwrap(), theme);
    let empty = Theme::new(Meta::empty());
    assert_eq!(decode(&encode(&empty)).unwrap(), empty);
}
