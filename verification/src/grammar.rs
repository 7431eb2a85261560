//! The directive grammar of a configuration: which lines bear colours, and
//! how blocks nest.
//!
//! A line is read as words separated by blanks. Its first word names it. At
//! the top level the `client.*` directives bear colours; inside
//! `bar { colors { .. } }` the bar's directives do. A line that ends with `{`
//! opens a block and a line named `}` closes one; a line that begins with `#`
//! is a comment.

use vstd::prelude::*;
use vstd::string::*;
use vstd::slice::slice_subrange;
use crate::color::HASH;
use crate::lexer::{first_word, last_solid, same_bytes, trailing_solid, word_bounds};
use crate::theme::{Directive, DIRECTIVE_COUNT};

verus! {

/// The byte `{`.
pub const OPEN_BRACE: u8 = 123;

/// The byte `}`.
pub const CLOSE_BRACE: u8 = 125;

/// The block whose directives are in force.
#[derive(Clone, Copy, Debug, PartialEq, Eq, Structural)]
pub enum Region {
    Top,
    Bar,
    BarColors,
}

/// Where in the block structure a line stands: how many blocks are open
/// around it, and which of them the grammar knows.
pub struct Scope {
    pub depth: nat,
    pub region: Region,
}

impl Scope {
    /// The scope of the first line of a configuration.
    pub open spec fn top() -> Scope {
        Scope { depth: 0, region: Region::Top }
    }

    /// The scope inside a block that a line named `name` opens here.
    pub open spec fn enter(self, name: Seq<u8>) -> Scope {
        if self.depth == 0 && name == "bar".spec_bytes() {
            Scope { depth: 1, region: Region::Bar }
        } else if self.region == Region::Bar && self.depth == 1 && name == "colors".spec_bytes() {
            Scope { depth: 2, region: Region::BarColors }
        } else {
            Scope { depth: self.depth + 1, region: self.region }
        }
    }

    /// The scope after the innermost block is closed. At the top level there
    /// is nothing to close.
    pub open spec fn leave(self) -> Scope {
        if self.depth == 0 {
            self
        } else {
            Scope {
                depth: (self.depth - 1) as nat,
                region: if self.region == Region::BarColors && self.depth <= 2 {
                    Region::Bar
                } else if self.region == Region::Bar && self.depth <= 1 {
                    Region::Top
                } else {
                    self.region
                },
            }
        }
    }
}

/// The line begins with `#`.
pub open spec fn is_comment(line: Seq<u8>) -> bool {
    first_word(line).len() > 0 && first_word(line)[0] == HASH
}

/// The line's first word is `}`.
pub open spec fn closes_block(line: Seq<u8>) -> bool {
    first_word(line) == seq![CLOSE_BRACE]
}

/// The line ends with `{`.
pub open spec fn opens_block(line: Seq<u8>) -> bool {
    last_solid(line) == Some(OPEN_BRACE)
}

/// The first directive from number `n` on that has the keyword `name` and
/// stands in a bar (`in_bar`) or at the top level.
pub open spec fn named_from(name: Seq<u8>, in_bar: bool, n: usize) -> Option<Directive>
    decreases DIRECTIVE_COUNT - n,
{
    if n >= DIRECTIVE_COUNT {
        None
    } else if Directive::spec_nth(n).spec_in_bar() == in_bar && Directive::spec_nth(n).key_bytes() == name {
        Some(Directive::spec_nth(n))
    } else {
        named_from(name, in_bar, (n + 1) as usize)
    }
}

/// The directive that a line named `name` is in `scope`, if it is one.
pub open spec fn directive_named(scope: Scope, name: Seq<u8>) -> Option<Directive> {
    if scope.depth == 0 {
        named_from(name, false, 0)
    } else if scope.region == Region::BarColors && scope.depth == 2 {
        named_from(name, true, 0)
    } else {
        None
    }
}

/// The directive that `line` is in `scope`. A line that is none is opaque.
pub open spec fn directive_at(scope: Scope, line: Seq<u8>) -> Option<Directive> {
    directive_named(scope, first_word(line))
}

/// The scope of the line that follows `line`.
pub open spec fn step(scope: Scope, line: Seq<u8>) -> Scope {
    if directive_at(scope, line) is Some || is_comment(line) {
        scope
    } else if closes_block(line) {
        scope.leave()
    } else if opens_block(line) {
        scope.enter(first_word(line))
    } else {
        scope
    }
}

/// The scope as the rewriter carries it from line to line.
#[derive(Clone, Copy, Debug, PartialEq, Eq)]
pub struct Context {
    pub depth: usize,
    pub region: Region,
}

impl View for Context {
    type V = Scope;

    open spec fn view(&self) -> Scope {
        Scope { depth: self.depth as nat, region: self.region }
    }
}

/// Looks a keyword up among the directives.
pub fn lookup(name: &[u8], in_bar: bool) -> (r: Option<Directive>)
    ensures
        r == named_from(name@, in_bar, 0),
{
    let mut n: usize = 0;
    while n < DIRECTIVE_COUNT
        invariant
            n <= DIRECTIVE_COUNT,
            named_from(name@, in_bar, 0) == named_from(name@, in_bar, n),
        decreases DIRECTIVE_COUNT - n,
    {
        let d = Directive::nth(n);
        if d.in_bar() == in_bar && same_bytes(name, d.keyword().as_bytes()) {
            return Some(d);
        }
        n += 1;
    }
    None
}

impl Context {
    /// The context of the first line of a configuration.
    pub fn top() -> (c: Context)
        ensures
            c@ == Scope::top(),
    {
        Context { depth: 0, region: Region::Top }
    }

    /// The directive that a line with the first word `name` is here.
    pub fn directive(&self, name: &[u8]) -> (r: Option<Directive>)
        ensures
            r == directive_named(self@, name@),
    {
        if self.depth == 0 {
            lookup(name, false)
        } else if self.region == Region::BarColors && self.depth == 2 {
            lookup(name, true)
        } else {
            None
        }
    }

    /// The context of the line that follows `line`.
    pub fn after(&self, line: &[u8]) -> (next: Context)
        requires
            self.depth < usize::MAX,
        ensures
            next@ == step(self@, line@),
            next.depth <= self.depth + 1,
    {
        let (b, e) = word_bounds(line);
        let name = slice_subrange(line, b, e);
        if self.directive(name).is_some() || (name.len() > 0 && name[0] == HASH) {
            *self
        } else if name.len() == 1 && name[0] == CLOSE_BRACE {
            assert(name@ =~= seq![CLOSE_BRACE]);
            if self.depth == 0 {
                *self
            } else {
                let region = if self.region == Region::BarColors && self.depth <= 2 {
                    Region::Bar
                } else if self.region == Region::Bar && self.depth <= 1 {
                    Region::Top
                } else {
                    self.region
                };
                Context { depth: self.depth - 1, region }
            }
        } else if trailing_solid(line) == Some(OPEN_BRACE) {
            if self.depth == 0 && same_bytes(name, "bar".as_bytes()) {
                Context { depth: 1, region: Region::Bar }
            } else if self.region == Region::Bar && self.depth == 1 && same_bytes(
                name,
                "colors".as_bytes(),
            ) {
                Context { depth: 2, region: Region::BarColors }
            } else {
                Context { depth: self.depth + 1, region: self.region }
            }
        } else {
            *self
        }
    }
}

} // verus!
