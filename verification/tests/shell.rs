use i3_style::error::Position;
use i3_style::listing::{description, listing_line};
use i3_style::paths::{config_candidates, first_existing, run_stamp};

#[test]
fn the_configuration_is_looked_for_in_four_places() {
    assert_eq!(
        config_candidates("/home/me"),
        vec![
            String::from("/home/me/.i3/config"),
            String::from("/home/me/.config/i3/config"),
            String::from("/etc/i3/config"),
            String::from("/etc/xdg/i3/config"),
        ]
    );
}

#[test]
fn the_first_place_that_exists_is_taken() {
    let places = config_candidates("");
    assert_eq!(first_existing(&places, &[false, true, false, true]), Some(1));
    assert_eq!(first_existing(&places, &[true, true, true, true]), Some(0));
    assert_eq!(first_existing(&places, &[false, false, false, true]), Some(3));
    assert_eq!(first_existing(&places, &[false, false, false, false]), None);
    assert_eq!(first_existing(&places, &[false, false]), None);
    assert_eq!(first_existing(&places, &[false, false, false, false, true]), None);
    assert_eq!(first_existing(&places, &[]), None);
}

#[test]
fn the_run_stamp_adds_the_milliseconds_to_the_seconds() {
    assert_eq!(run_stamp(1_500_000_000, 999_999_999), Some(1_500_000_999));
    assert_eq!(run_stamp(10, 999_999), Some(10));
    assert_eq!(run_stamp(0, 0), Some(0));
    assert_eq!(run_stamp(u64::MAX - 4, 4_000_000), Some(u64::MAX));
    assert_eq!(run_stamp(u64::MAX - 4, 5_000_000), None);
}

#[test]
fn a_listing_line_fills_the_name_up() {
    assert_eq!(listing_line("./themes/archlinux", "Archlinux theme"), "  archlinux          - Archlinux theme");
    assert_eq!(listing_line("./themes/a-theme-with-a-long-name", "long"), "  a-theme-with-a-long-name - long");
    assert_eq!(listing_line("./themes/exactly-eighteen-c", ""), "  exactly-eighteen-c - ");
    assert_eq!(listing_line("./themes/\u{e9}t\u{e9}", "accents"), "  \u{e9}t\u{e9}                - accents");
    assert_eq!(listing_line("short", "no directory"), "                     - no directory");
}

#[test]
fn the_description_is_read_from_meta() {
    assert_eq!(
        description("meta:\n  description: 'A theme'\ncolors: {}\n"),
        Ok(Some(String::from("A theme")))
    );
    assert_eq!(description("meta:\n  name: x\n"), Ok(None));
    assert_eq!(description("colors: 3\n"), Ok(None));
    assert_eq!(description(""), Err(Position { index: 0, line: 1, column: 0 }));
    assert_eq!(description("a: b: c"), Err(Position { index: 4, line: 1, column: 4 }));
}
