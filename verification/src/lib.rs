//! Applies a colour theme to an i3 configuration file, and reads the colours
//! of a styled configuration back into a theme.
//!
//! * [`color`]: colours and their hexadecimal tokens.
//! * [`theme`]: the directives that bear colours, and the theme with one
//!   optional colour for each colour position of each directive.
//! * [`filters`]: colour filters and what they can be applied to.
//! * [`lexer`] and [`grammar`]: lines, words, directives and blocks of a
//!   configuration.
//! * [`rewriter`]: `apply` puts the colours of a theme into a configuration
//!   and changes nothing else; `extract` gathers the colours of a
//!   configuration into a theme. [`laws`] holds what is proved of the two
//!   together.
//! * [`document`], [`codec`] and [`yaml`]: theme documents; [`codec_laws`]
//!   holds what is proved of them.
//! * [`paths`] and [`listing`]: where a configuration is looked for, and how
//!   the built-in themes are listed.
//!
//! Contracts are stated over the bytes of a configuration and over the tree
//! of a theme document. What the YAML library does with a text is taken on
//! trust, in [`yaml`] and nowhere else.

pub mod codec;
pub mod codec_laws;
pub mod color;
pub mod document;
pub mod error;
pub mod filters;
pub mod grammar;
pub mod laws;
pub mod lexer;
pub mod listing;
pub mod paths;
pub mod rewriter;
pub mod theme;
pub mod yaml;

pub use codec::{decode, encode};
pub use color::Color;
pub use error::{InvalidColorToken, Position, StyleError};
pub use filters::{Filter, Filterable};
pub use rewriter::{apply, extract};
pub use theme::{Directive, Meta, Slot, Theme};
