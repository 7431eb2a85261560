use i3_style::color::Color;
use i3_style::filters::{Filter, Filterable};
use i3_style::theme::{Directive, Meta, Slot, Theme, BORDER, TEXT};

struct Invert;

impl Filter for Invert {
    fn image(&self, color: Color) -> Color {
        Color {
            red: 255 - color.red,
            green: 255 - color.green,
            blue: 255 - color.blue,
            alpha: color.alpha,
        }
    }

    fn apply(&self, color: &Color) -> Color {
        self.image(*color)
    }
}

#[test]
fn a_colour_takes_a_filter() {
    let mut color = Color::rgb(1, 2, 3);
    color.apply_filter(&Invert);
    assert_eq!(color, Color::rgb(254, 253, 252));
}

#[test]
fn an_absent_colour_stays_absent() {
    let mut absent: Option<Color> = None;
    absent.apply_filter(&Invert);
    assert_eq!(absent, None);
    let mut present = Some(Color::rgb(0, 0, 0));
    present.apply_filter(&Invert);
    assert_eq!(present, Some(Color::rgb(255, 255, 255)));
}

#[test]
fn a_theme_hands_every_colour_to_the_filter() {
    let border = Slot::new(Directive::Focused, BORDER).unwrap();
    let text = Slot::new(Directive::BindingMode, TEXT).unwrap();
    let untouched = Slot::new(Directive::Urgent, BORDER).unwrap();
    let mut theme = Theme::new(Meta {
        name: Some(String::from("night")),
        description: None,
        author: None,
    });
    theme.set(border, Some(Color::rgb(10, 20, 30)));
    theme.set(text, Some(Color { red: 0, green: 0, blue: 0, alpha: Some(7) }));
    theme.apply_filter(&Invert);
    assert_eq!(theme.get(border), Some(Color::rgb(245, 235, 225)));
    assert_eq!(theme.get(text), Some(Color { red: 255, green: 255, blue: 255, alpha: Some(7) }));
    assert_eq!(theme.get(untouched), None);
    assert_eq!(theme.meta().name, Some(String::from("night")));
}
