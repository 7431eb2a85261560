//! Colour filters, and the things that a filter can be applied to.
//!
//! A filter maps one colour to another. Whatever holds colours takes a
//! filter by handing each of its colours to it: a colour, an optional
//! colour, a theme.

use vstd::prelude::*;
use crate::color::Color;
use crate::theme::{Theme, ThemeView, SLOT_COUNT};

verus! {

/// A pure map from colours to colours.
///
/// Every implementation says in `image` what it makes of a colour, and
/// computes just that in `apply`. Verus holds the implementations that it
/// reads to this; of any other it is taken on trust.
pub trait Filter {
    /// The colour that the filter makes of `color`: a function of the filter
    /// and the colour alone.
    spec fn image(&self, color: Color) -> Color;

    /// Computes `image`.
    fn apply(&self, color: &Color) -> (out: Color)
        ensures
            out == self.image(*color),
    ;
}

/// Something whose colours a filter can replace.
pub trait Filterable: Sized {
    /// `self` is `before` with each colour replaced by its image, and
    /// nothing else changed.
    spec fn filtered(&self, image: spec_fn(Color) -> Color, before: &Self) -> bool;

    /// Replaces every colour by its image under `filter`.
    fn apply_filter<F: Filter>(&mut self, filter: &F)
        ensures
            final(self).filtered(image_under(filter), old(self)),
    ;
}

/// The map from colours to colours that a filter computes.
pub open spec fn image_under<F: Filter>(filter: &F) -> spec_fn(Color) -> Color {
    |c: Color| filter.image(c)
}

/// The image of an optional colour: of the colour, where there is one.
pub open spec fn image_of(image: spec_fn(Color) -> Color, color: Option<Color>) -> Option<Color> {
    match color {
        Some(c) => Some(image(c)),
        None => None,
    }
}

impl Filterable for Color {
    open spec fn filtered(&self, image: spec_fn(Color) -> Color, before: &Self) -> bool {
        *self == image(*before)
    }

    fn apply_filter<F: Filter>(&mut self, filter: &F) {
        *self = filter.apply(self);
    }
}

impl<T: Filterable> Filterable for Option<T> {
    open spec fn filtered(&self, image: spec_fn(Color) -> Color, before: &Self) -> bool {
        match (*before, *self) {
            (Some(b), Some(a)) => a.filtered(image, &b),
            (None, None) => true,
            _ => false,
        }
    }

    fn apply_filter<F: Filter>(&mut self, filter: &F) {
        match self {
            Some(x) => {
                x.apply_filter(filter);
            },
            None => {},
        }
    }
}

impl Filterable for Theme {
    open spec fn filtered(&self, image: spec_fn(Color) -> Color, before: &Self) -> bool {
        self@ == (ThemeView {
            meta: before@.meta,
            slots: Seq::new(SLOT_COUNT as nat, |i: int| image_of(image, before@.slots[i])),
        })
    }

    fn apply_filter<F: Filter>(&mut self, filter: &F) {
        let n = self.slot_count();
        let mut i: usize = 0;
        while i < n
            invariant
                i <= n,
                n == SLOT_COUNT,
                self@.meta == old(self)@.meta,
                self@.slots.len() == SLOT_COUNT,
                old(self)@.slots.len() == SLOT_COUNT,
                forall|j: int|
                    0 <= j < i ==> self@.slots[j] == image_of(
                        image_under(filter),
                        old(self)@.slots[j],
                    ),
                forall|j: int| i <= j < SLOT_COUNT ==> self@.slots[j] == old(self)@.slots[j],
            decreases SLOT_COUNT - i,
        {
            let mut color = self.color_at(i);
            color.apply_filter(filter);
            self.put(i, color);
            i += 1;
        }
        assert(self@.slots =~= Seq::new(
            SLOT_COUNT as nat,
            |i: int| image_of(image_under(filter), old(self)@.slots[i]),
        ));
    }
}

} // verus!
