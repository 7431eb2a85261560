use i3_style::color::Color;
use i3_style::filters::{Filter, Filterable};
use i3_style::theme::{Directive, Meta, Slot, Theme, TEXT};
use palette::{FromColor, Hsv, ShiftHueAssign, Srgb};

struct Rotation {
    degrees: f32,
}

impl Filter for Rotation {
    fn image(&self, color: Color) -> Color {
        let rgb: Srgb<f32> = Srgb::new(color.red, color.green, color.blue).into_format();
        let mut hsv: Hsv = Hsv::from_color(rgb);
        hsv.shift_hue_assign(self.degrees);
        let turned: Srgb<u8> = Srgb::from_color(hsv).into_format();
        Color { red: turned.red, green: turned.green, blue: turned.blue, alpha: color.alpha }
    }

    fn apply(&self, color: &Color) -> Color {
        self.image(*color)
    }
}

fn grid() -> Vec<Color> {
    let mut colors = Vec::new();
    for r in (0..=255u16).step_by(15) {
        for g in (0..=255u16).step_by(17) {
            for b in (0..=255u16).step_by(51) {
                colors.push(Color::rgb(r as u8, g as u8, b as u8));
            }
        }
    }
    colors
}

fn distance(a: Color, b: Color) -> u8 {
    let d = |x: u8, y: u8| x.max(y) - x.min(y);
    d(a.red, b.red).max(d(a.green, b.green)).max(d(a.blue, b.blue))
}

#[test]
fn no_turn_and_a_full_turn_change_nothing() {
    for c in grid() {
        assert_eq!(Rotation { degrees: 0.0 }.apply(&c), c);
        assert_eq!(Rotation { degrees: 360.0 }.apply(&c), c);
    }
}

#[test]
fn turning_back_gives_the_colour_back_within_one_step() {
    let mut h = -720.0f32;
    while h <= 720.0 {
        for c in grid() {
            let there = Rotation { degrees: h }.apply(&c);
            let back = Rotation { degrees: -h }.apply(&there);
            assert!(distance(back, c) <= 1, "{:?} by {}: {:?}", c, h, back);
        }
        h += 22.5;
    }
}

#[test]
fn a_negative_turn_wraps_around() {
    let red = Color::rgb(255, 0, 0);
    assert_eq!(Rotation { degrees: 120.0 }.apply(&red), Color::rgb(0, 255, 0));
    assert_eq!(Rotation { degrees: -120.0 }.apply(&red), Color::rgb(0, 0, 255));
    assert_eq!(Rotation { degrees: -240.0 }.apply(&red), Color::rgb(0, 255, 0));
    assert_eq!(Rotation { degrees: 480.0 }.apply(&red), Color::rgb(0, 255, 0));
    let grey = Color { red: 90, green: 90, blue: 90, alpha: Some(12) };
    assert_eq!(Rotation { degrees: 77.0 }.apply(&grey), grey);
}

#[test]
fn a_theme_is_turned_colour_by_colour() {
    let slot = Slot::new(Directive::Urgent, TEXT).unwrap();
    let mut theme = Theme::new(Meta::empty());
    theme.set(slot, Some(Color::rgb(0, 0, 255)));
    theme.apply_filter(&Rotation { degrees: 120.0 });
    assert_eq!(theme.get(slot), Some(Color::rgb(255, 0, 0)));
}
