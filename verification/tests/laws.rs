use i3_style::codec::{document_of_theme, theme_of_document};
use i3_style::color::Color;
use i3_style::rewriter::{apply, extract};
use i3_style::theme::{Directive, Meta, Slot, Theme, SLOT_COUNT};

const CONFIG: &[u8] = b"# i3 config\r\n\
set $mod Mod4\n\
\n\
\tclient.focused   #4c7899 #285577\t#ffffff #2e9ef4   #285577  \n\
client.unfocused #333333 #222222 #888888\n\
client.background #ffffff\n\
mode \"resize\" {\n\
    client.urgent #ffffff #ffffff #ffffff\n\
    bindsym Escape mode \"default\"\n\
}\n\
bar {\n\
    status_command i3status\n\
    colors {\n\
        # background #ffffff {\n\
        background #000000\n\
        statusline #ffffffcc\n\
        focused_workspace #4c7899 #285577 #ffffff\n\
        unknown_workspace #4c7899 #285577 #ffffff\n\
    }\n\
    separator #123456\n\
}\n\
client.urgent #2f343a #900000 #ffffff #900000 #900000 trailing words\n\
client.placeholder #000000";

fn slot(index: usize) -> Slot {
    let directive = Directive::owning(index);
    Slot::new(directive, index - directive.base()).unwrap()
}

fn full_theme() -> Theme {
    let mut theme = Theme::new(Meta::empty());
    for i in 0..SLOT_COUNT {
        let v = i as u8;
        let alpha = if i % 3 == 0 { Some(200 + v) } else { None };
        theme.set(slot(i), Some(Color { red: v, green: 2 * v, blue: 255 - v, alpha }));
    }
    theme
}

fn sparse_theme() -> Theme {
    let mut theme = Theme::new(Meta::empty());
    for i in (0..SLOT_COUNT).step_by(2) {
        theme.set(slot(i), Some(Color::rgb(i as u8, 7, 9)));
    }
    theme
}

fn lines(text: &[u8]) -> Vec<&[u8]> {
    text.split_inclusive(|b| *b == b'\n').collect()
}

#[test]
fn applying_twice_is_applying_once() {
    for theme in [full_theme(), sparse_theme(), Theme::new(Meta::empty())] {
        let once = apply(CONFIG, &theme).unwrap();
        let twice = apply(&once, &theme).unwrap();
        assert_eq!(once, twice);
    }
}

#[test]
fn opaque_lines_keep_their_bytes() {
    let styled = apply(CONFIG, &full_theme()).unwrap();
    let before = lines(CONFIG);
    let after = lines(&styled);
    assert_eq!(before.len(), after.len());
    let directives = [3usize, 4, 5, 14, 15, 16, 21, 22];
    for (i, (b, a)) in before.iter().zip(after.iter()).enumerate() {
        if directives.contains(&i) {
            assert_ne!(b, a, "line {}", i + 1);
        } else {
            assert_eq!(b, a, "line {}", i + 1);
        }
    }
}

#[test]
fn the_rewrite_is_exact() {
    let mut theme = Theme::new(Meta::empty());
    theme.set(slot(1), Some(Color::rgb(1, 1, 1)));
    theme.set(slot(4), Some(Color { red: 4, green: 4, blue: 4, alpha: Some(4) }));
    theme.set(slot(12), Some(Color::rgb(12, 12, 12)));
    theme.set(slot(27), Some(Color::rgb(27, 27, 27)));
    theme.set(slot(28), Some(Color::rgb(28, 28, 28)));
    theme.set(slot(15), Some(Color::rgb(15, 15, 15)));
    theme.set(slot(21), Some(Color::rgb(21, 21, 21)));
    let styled = apply(CONFIG, &theme).unwrap();
    let want: &[u8] = b"# i3 config\r\n\
set $mod Mod4\n\
\n\
\tclient.focused   #4c7899 #010101\t#ffffff #2e9ef4   #04040404  \n\
client.unfocused #333333 #222222 #0c0c0c\n\
client.background #ffffff\n\
mode \"resize\" {\n\
    client.urgent #ffffff #ffffff #ffffff\n\
    bindsym Escape mode \"default\"\n\
}\n\
bar {\n\
    status_command i3status\n\
    colors {\n\
        # background #ffffff {\n\
        background #000000\n\
        statusline #1b1b1b\n\
        focused_workspace #4c7899 #285577 #ffffff\n\
        unknown_workspace #4c7899 #285577 #ffffff\n\
    }\n\
    separator #123456\n\
}\n\
client.urgent #0f0f0f #900000 #ffffff #900000 #900000 trailing words\n\
client.placeholder #000000";
    assert_eq!(String::from_utf8(styled).unwrap(), String::from_utf8(want.to_vec()).unwrap());
}

#[test]
fn extract_after_apply_sees_the_theme_where_the_config_has_the_position() {
    let found = extract(CONFIG).unwrap();
    for theme in [full_theme(), sparse_theme()] {
        let styled = apply(CONFIG, &theme).unwrap();
        let again = extract(&styled).unwrap();
        for i in 0..SLOT_COUNT {
            let want = match (found.color_at(i), theme.color_at(i)) {
                (Some(_), Some(c)) => Some(c),
                (before, _) => before,
            };
            assert_eq!(again.color_at(i), want, "slot {}", i);
        }
    }
}

#[test]
fn extract_after_apply_gives_the_theme_back() {
    let found = extract(CONFIG).unwrap();
    let mut theme = Theme::new(Meta::empty());
    for i in 0..SLOT_COUNT {
        if found.color_at(i).is_some() {
            theme.set(slot(i), Some(Color::rgb(i as u8, 0, 99)));
        }
    }
    let styled = apply(CONFIG, &theme).unwrap();
    assert_eq!(extract(&styled).unwrap(), theme);
}

#[test]
fn extract_finds_what_the_config_holds() {
    let found = extract(CONFIG).unwrap();
    let populated: Vec<usize> = (0..SLOT_COUNT).filter(|i| found.color_at(*i).is_some()).collect();
    assert_eq!(populated, vec![0, 1, 2, 3, 4, 10, 11, 12, 15, 16, 17, 18, 19, 20, 25, 26, 27, 29, 30, 31]);
    assert_eq!(found.color_at(0), Some(Color::rgb(0x4c, 0x78, 0x99)));
    assert_eq!(found.color_at(15), Some(Color::rgb(0x2f, 0x34, 0x3a)));
    assert_eq!(found.color_at(27), Some(Color { red: 255, green: 255, blue: 255, alpha: Some(0xcc) }));
    assert_eq!(*found.meta(), Meta::empty());
}

#[test]
fn a_theme_comes_back_from_its_document() {
    let mut theme = full_theme();
    theme.set_meta(Meta {
        name: Some(String::from("full")),
        description: Some(String::from("Every slot has a colour")),
        author: None,
    });
    assert_eq!(theme_of_document(&document_of_theme(&theme)).unwrap(), theme);
    let sparse = sparse_theme();
    assert_eq!(theme_of_document(&document_of_theme(&sparse)).unwrap(), sparse);
}
