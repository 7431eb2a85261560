//! Rewrites the colours of a configuration from a theme, and reads them back.
//!
//! Both directions walk the configuration once, line by line. A line that is
//! a directive in its scope has its colour tokens looked at, one after the
//! other, as many as the directive has colours and the line has words; every
//! other line is opaque and passes through untouched.

use vstd::prelude::*;
use vstd::slice::{slice_subrange, slice_to_vec};
use crate::color::{color_token, is_color_token, parsed, Color};
use crate::error::{Fault, InvalidColorToken};
use crate::grammar::{directive_at, step, Context, Scope};
use crate::lexer::{
    after_word, append, blank_run, first_line, first_word, gap, lemma_first_word, lemma_line_len,
    line_len, tail, word_bounds, word_end,
};
use crate::theme::{no_colors, Directive, Meta, MetaView, Slot, Theme};

verus! {

/// What stands in the output for a colour token: the slot's colour where the
/// slot has one, else the token itself.
pub open spec fn substitute(token: Seq<u8>, color: Option<Color>) -> Seq<u8> {
    match color {
        Some(c) => color_token(c),
        None => token,
    }
}

/// `rest`, the part of a directive line from colour `k` on, with the colour
/// tokens replaced from `slots`.
pub open spec fn restyled_tokens(
    rest: Seq<u8>,
    d: Directive,
    k: nat,
    slots: Seq<Option<Color>>,
) -> Seq<u8>
    decreases d.spec_arity() - k,
{
    if k >= d.spec_arity() || blank_run(rest) >= rest.len() {
        rest
    } else {
        gap(rest) + substitute(first_word(rest), slots[d.spec_base() + k]) + restyled_tokens(
            after_word(rest),
            d,
            k + 1,
            slots,
        )
    }
}

/// A line as the rewrite leaves it.
pub open spec fn restyled_line(line: Seq<u8>, scope: Scope, slots: Seq<Option<Color>>) -> Seq<u8> {
    match directive_at(scope, line) {
        Some(d) => line.take(word_end(line) as int) + restyled_tokens(after_word(line), d, 0, slots),
        None => line,
    }
}

/// A text, whose first line stands in `scope`, as the rewrite leaves it.
pub open spec fn restyled(text: Seq<u8>, scope: Scope, slots: Seq<Option<Color>>) -> Seq<u8>
    decreases text.len(),
    via restyled_decreases
{
    if text.len() == 0 {
        text
    } else {
        let line = text.take(line_len(text) as int);
        restyled_line(line, scope, slots) + restyled(
            text.skip(line_len(text) as int),
            step(scope, line),
            slots,
        )
    }
}

#[via_fn]
proof fn restyled_decreases(text: Seq<u8>, scope: Scope, slots: Seq<Option<Color>>) {
    lemma_line_len(text);
}

/// The first token from colour `k` on that is no colour token, with the
/// number of bytes before it in its line; `offset` bytes stand before `rest`.
pub open spec fn token_fault(rest: Seq<u8>, d: Directive, k: nat, offset: nat) -> Option<
    (nat, Seq<u8>),
>
    decreases d.spec_arity() - k,
{
    if k >= d.spec_arity() || blank_run(rest) >= rest.len() {
        None
    } else if !is_color_token(first_word(rest)) {
        Some((offset + blank_run(rest), first_word(rest)))
    } else {
        token_fault(after_word(rest), d, k + 1, offset + word_end(rest))
    }
}

/// The first malformed colour token of a line, if the line is a directive
/// and has one.
pub open spec fn line_fault(line: Seq<u8>, scope: Scope) -> Option<(nat, Seq<u8>)> {
    match directive_at(scope, line) {
        Some(d) => token_fault(after_word(line), d, 0, word_end(line)),
        None => None,
    }
}

/// The first malformed colour token of a text whose first line has the
/// number `line_no` and stands in `scope`.
pub open spec fn first_fault(text: Seq<u8>, scope: Scope, line_no: nat) -> Option<Fault>
    decreases text.len(),
    via first_fault_decreases
{
    if text.len() == 0 {
        None
    } else {
        let line = text.take(line_len(text) as int);
        match line_fault(line, scope) {
            Some((offset, token)) => Some(Fault { line: line_no, column: offset + 1, token }),
            None => first_fault(text.skip(line_len(text) as int), step(scope, line), line_no + 1),
        }
    }
}

#[via_fn]
proof fn first_fault_decreases(text: Seq<u8>, scope: Scope, line_no: nat) {
    lemma_line_len(text);
}

/// `slots` with slot `i` filled with `color` if it was empty: what came
/// first stays.
pub open spec fn first_wins(slots: Seq<Option<Color>>, i: int, color: Option<Color>) -> Seq<
    Option<Color>,
> {
    if slots[i] is None {
        slots.update(i, color)
    } else {
        slots
    }
}

/// `slots` after the colour tokens of `rest`, from colour `k` on, are
/// gathered into the slots that are still empty.
pub open spec fn gathered_tokens(
    rest: Seq<u8>,
    d: Directive,
    k: nat,
    slots: Seq<Option<Color>>,
) -> Seq<Option<Color>>
    decreases d.spec_arity() - k,
{
    if k >= d.spec_arity() || blank_run(rest) >= rest.len() {
        slots
    } else {
        gathered_tokens(
            after_word(rest),
            d,
            k + 1,
            first_wins(slots, d.spec_base() + k, parsed(first_word(rest))),
        )
    }
}

/// `slots` after the colours of one line are gathered.
pub open spec fn gathered_line(line: Seq<u8>, scope: Scope, slots: Seq<Option<Color>>) -> Seq<
    Option<Color>,
> {
    match directive_at(scope, line) {
        Some(d) => gathered_tokens(after_word(line), d, 0, slots),
        None => slots,
    }
}

/// `slots` after the colours of a text are gathered, line by line.
pub open spec fn gathered(text: Seq<u8>, scope: Scope, slots: Seq<Option<Color>>) -> Seq<
    Option<Color>,
>
    decreases text.len(),
    via gathered_decreases
{
    if text.len() == 0 {
        slots
    } else {
        let line = text.take(line_len(text) as int);
        gathered(
            text.skip(line_len(text) as int),
            step(scope, line),
            gathered_line(line, scope, slots),
        )
    }
}

#[via_fn]
proof fn gathered_decreases(text: Seq<u8>, scope: Scope, slots: Seq<Option<Color>>) {
    lemma_line_len(text);
}

/// Appends the rewritten form of one line to `out`, or reports the line's
/// first malformed colour token with the number of bytes before it.
fn restyle_line(line: &[u8], context: &Context, theme: &Theme, out: &mut Vec<u8>) -> (r: Result<
    (),
    (usize, Vec<u8>),
>)
    ensures
        match r {
            Ok(()) => line_fault(line@, context@) is None && final(out)@ == old(out)@
                + restyled_line(line@, context@, theme@.slots),
            Err(f) => line_fault(line@, context@) == Some((f.0 as nat, f.1@)) && f.0 < line@.len(),
        },
{
    let (b, e) = word_bounds(line);
    let d = match context.directive(slice_subrange(line, b, e)) {
        Some(d) => d,
        None => {
            append(out, line);
            return Ok(());
        },
    };
    append(out, slice_subrange(line, 0, e));
    let mut rest = tail(line, e);
    let mut offset: usize = e;
    let mut k: usize = 0;
    let ghost slots = theme@.slots;
    let arity = d.arity();
    assert(line.len() <= usize::MAX);
    let span = word_bounds(rest);
    let mut start: usize = span.0;
    let mut end: usize = span.1;
    while k < arity && start < rest.len()
        invariant
            arity == d.spec_arity(),
            slots == theme@.slots,
            k <= arity,
            line@.len() <= usize::MAX,
            directive_at(context@, line@) == Some(d),
            offset + rest@.len() == line@.len(),
            start == blank_run(rest@),
            end == word_end(rest@),
            start <= end <= rest@.len(),
            token_fault(after_word(line@), d, 0, word_end(line@)) == token_fault(
                rest@,
                d,
                k as nat,
                offset as nat,
            ),
            old(out)@ + restyled_line(line@, context@, slots) == out@ + restyled_tokens(
                rest@,
                d,
                k as nat,
                slots,
            ),
        decreases arity - k,
    {
        proof {
            lemma_first_word(rest@);
        }
        let word = slice_subrange(rest, start, end);
        if Color::parse_token(word).is_none() {
            return Err((offset + start, slice_to_vec(word)));
        }
        append(out, slice_subrange(rest, 0, start));
        match theme.color_at(d.base() + k) {
            Some(c) => {
                let t = c.token();
                append(out, t.as_slice());
            },
            None => {
                append(out, word);
            },
        }
        assert(out@ + restyled_tokens(after_word(rest@), d, (k + 1) as nat, slots) =~= old(out)@
            + restyled_line(line@, context@, slots));
        offset = offset + end;
        rest = tail(rest, end);
        k = k + 1;
        let span = word_bounds(rest);
        start = span.0;
        end = span.1;
    }
    append(out, rest);
    Ok(())
}

/// Applies a theme to a configuration.
///
/// The result is the configuration with every colour token of every
/// directive replaced by the canonical token of its slot's colour, where the
/// slot has one. Nothing else changes. Where a directive holds a malformed
/// colour token, the first such token is reported and there is no result.
pub fn apply(config: &[u8], theme: &Theme) -> (r: Result<Vec<u8>, InvalidColorToken>)
    ensures
        match r {
            Ok(out) => first_fault(config@, Scope::top(), 1) is None && out@ == restyled(
                config@,
                Scope::top(),
                theme@.slots,
            ),
            Err(e) => first_fault(config@, Scope::top(), 1) == Some(e@),
        },
{
    let mut out: Vec<u8> = Vec::new();
    let mut rest = config;
    let mut context = Context::top();
    let mut done: usize = 0;
    while rest.len() > 0
        invariant
            done + rest@.len() <= config@.len(),
            context.depth <= done,
            first_fault(config@, Scope::top(), 1) == first_fault(
                rest@,
                context@,
                (done + 1) as nat,
            ),
            restyled(config@, Scope::top(), theme@.slots) == out@ + restyled(
                rest@,
                context@,
                theme@.slots,
            ),
        decreases rest@.len(),
    {
        proof {
            lemma_line_len(rest@);
        }
        let n = first_line(rest);
        let line = slice_subrange(rest, 0, n);
        assert(config.len() <= usize::MAX);
        match restyle_line(line, &context, theme, &mut out) {
            Err(f) => {
                return Err(InvalidColorToken { line: done + 1, column: f.0 + 1, token: f.1 });
            },
            Ok(()) => {},
        }
        assert(out@ + restyled(rest@.skip(n as int), step(context@, line@), theme@.slots)
            =~= restyled(config@, Scope::top(), theme@.slots));
        context = context.after(line);
        rest = tail(rest, n);
        done = done + 1;
    }
    assert(out@ =~= out@ + restyled(rest@, context@, theme@.slots));
    Ok(out)
}

/// Gathers the colours of one line into the slots of `theme` that are still
/// empty, or reports the line's first malformed colour token.
fn gather_line(line: &[u8], context: &Context, theme: &mut Theme) -> (r: Result<
    (),
    (usize, Vec<u8>),
>)
    ensures
        final(theme)@.meta == old(theme)@.meta,
        match r {
            Ok(()) => line_fault(line@, context@) is None && final(theme)@.slots == gathered_line(
                line@,
                context@,
                old(theme)@.slots,
            ),
            Err(f) => line_fault(line@, context@) == Some((f.0 as nat, f.1@)) && f.0 < line@.len(),
        },
{
    let (b, e) = word_bounds(line);
    let d = match context.directive(slice_subrange(line, b, e)) {
        Some(d) => d,
        None => {
            return Ok(());
        },
    };
    let mut rest = tail(line, e);
    let mut offset: usize = e;
    let mut k: usize = 0;
    let arity = d.arity();
    assert(line.len() <= usize::MAX);
    let span = word_bounds(rest);
    let mut start: usize = span.0;
    let mut end: usize = span.1;
    while k < arity && start < rest.len()
        invariant
            arity == d.spec_arity(),
            k <= arity,
            line@.len() <= usize::MAX,
            directive_at(context@, line@) == Some(d),
            theme@.meta == old(theme)@.meta,
            offset + rest@.len() == line@.len(),
            start == blank_run(rest@),
            end == word_end(rest@),
            start <= end <= rest@.len(),
            token_fault(after_word(line@), d, 0, word_end(line@)) == token_fault(
                rest@,
                d,
                k as nat,
                offset as nat,
            ),
            gathered_line(line@, context@, old(theme)@.slots) == gathered_tokens(
                rest@,
                d,
                k as nat,
                theme@.slots,
            ),
        decreases arity - k,
    {
        proof {
            lemma_first_word(rest@);
        }
        let word = slice_subrange(rest, start, end);
        let color = match Color::parse_token(word) {
            Some(c) => c,
            None => {
                return Err((offset + start, slice_to_vec(word)));
            },
        };
        match Slot::new(d, k) {
            Some(slot) => {
                if theme.get(slot).is_none() {
                    theme.set(slot, Some(color));
                }
            },
            None => {},
        }
        offset = offset + end;
        rest = tail(rest, end);
        k = k + 1;
        let span = word_bounds(rest);
        start = span.0;
        end = span.1;
    }
    Ok(())
}

/// Reads the colours of a configuration into a theme.
///
/// Each slot gets the colour of the first token that stands at its position
/// in a directive; a slot whose position occurs nowhere stays empty. The
/// theme says nothing about itself. A malformed colour token in a directive
/// is reported as by `apply`, and there is no theme.
pub fn extract(config: &[u8]) -> (r: Result<Theme, InvalidColorToken>)
    ensures
        match r {
            Ok(theme) => first_fault(config@, Scope::top(), 1) is None && theme@.slots
                == gathered(config@, Scope::top(), no_colors()) && theme@.meta == (MetaView {
                name: None,
                description: None,
                author: None,
            }),
            Err(e) => first_fault(config@, Scope::top(), 1) == Some(e@),
        },
{
    let mut theme = Theme::new(Meta::empty());
    let mut rest = config;
    let mut context = Context::top();
    let mut done: usize = 0;
    while rest.len() > 0
        invariant
            done + rest@.len() <= config@.len(),
            context.depth <= done,
            theme@.meta == (MetaView { name: None, description: None, author: None }),
            first_fault(config@, Scope::top(), 1) == first_fault(
                rest@,
                context@,
                (done + 1) as nat,
            ),
            gathered(config@, Scope::top(), no_colors()) == gathered(
                rest@,
                context@,
                theme@.slots,
            ),
        decreases rest@.len(),
    {
        proof {
            lemma_line_len(rest@);
        }
        let n = first_line(rest);
        let line = slice_subrange(rest, 0, n);
        assert(config.len() <= usize::MAX);
        match gather_line(line, &context, &mut theme) {
            Err(f) => {
                return Err(InvalidColorToken { line: done + 1, column: f.0 + 1, token: f.1 });
            },
            Ok(()) => {},
        }
        context = context.after(line);
        rest = tail(rest, n);
        done = done + 1;
    }
    Ok(theme)
}

} // verus!
