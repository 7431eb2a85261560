//! What holds of every rewrite and of every extraction.
//!
//! The laws are stated over the functions that the contracts of `apply` and
//! `extract` are stated over: `restyled`, `first_fault` and `gathered`.

use vstd::prelude::*;
use crate::color::{color_token, is_color_token, lemma_token_round_trip, lemma_token_solid, parsed, Color};
use crate::grammar::{directive_at, step, Scope};
use crate::lexer::{
    after_word, all_blank, blank_run, first_word, gap, is_blank, lemma_blank_run, lemma_compose,
    lemma_first_line, lemma_first_word, lemma_line_len, lemma_line_len_concat, line_len,
    single_line, solid, word_end, word_may_end_before, NEWLINE,
};
use crate::rewriter::{
    first_fault, first_wins, gathered, gathered_line, gathered_tokens, line_fault, restyled,
    restyled_line, restyled_tokens, substitute, token_fault,
};
use crate::theme::{no_colors, Directive, SLOT_COUNT};

verus! {

/// The number of lines of a text.
pub open spec fn line_count(text: Seq<u8>) -> nat
    decreases text.len(),
    via line_count_decreases
{
    if text.len() == 0 {
        0
    } else {
        1 + line_count(text.skip(line_len(text) as int))
    }
}

#[via_fn]
proof fn line_count_decreases(text: Seq<u8>) {
    lemma_line_len(text);
}

/// Line `i` of a text, counting from 0.
pub open spec fn line_at(text: Seq<u8>, i: nat) -> Seq<u8>
    decreases i,
{
    if i == 0 {
        text.take(line_len(text) as int)
    } else {
        line_at(text.skip(line_len(text) as int), (i - 1) as nat)
    }
}

/// The scope in which line `i` of a text stands, where the first line
/// stands in `scope`.
pub open spec fn scope_at(text: Seq<u8>, scope: Scope, i: nat) -> Scope
    decreases i,
{
    if i == 0 {
        scope
    } else {
        scope_at(
            text.skip(line_len(text) as int),
            step(scope, text.take(line_len(text) as int)),
            (i - 1) as nat,
        )
    }
}

/// The colour that extraction finds at a position after a theme was applied:
/// the theme's, where the position holds a colour and the theme has one for
/// it, else what was found there before.
pub open spec fn restamped(found: Option<Color>, themed: Option<Color>) -> Option<Color> {
    if found is Some && themed is Some {
        themed
    } else {
        found
    }
}

/// `restamped`, slot by slot.
pub open spec fn restamped_all(found: Seq<Option<Color>>, themed: Seq<Option<Color>>) -> Seq<
    Option<Color>,
> {
    Seq::new(found.len(), |i: int| restamped(found[i], themed[i]))
}

/// What stands in the output for a word is a word.
proof fn lemma_substitute_solid(token: Seq<u8>, color: Option<Color>)
    requires
        token.len() > 0,
        solid(token),
    ensures
        substitute(token, color).len() > 0,
        solid(substitute(token, color)),
        forall|i: int|
            0 <= i < substitute(token, color).len() ==> #[trigger] substitute(token, color)[i]
                != NEWLINE,
{
    match color {
        Some(c) => {
            lemma_token_round_trip(c);
            lemma_token_solid(color_token(c));
        },
        None => {},
    }
}

/// The rewritten tokens keep the shape of what they were: empty only where
/// that was empty, a blank in front where that had one, a line feed at the
/// end where that had one, and none elsewhere if that had none elsewhere.
proof fn lemma_tokens_shape(rest: Seq<u8>, d: Directive, k: nat, slots: Seq<Option<Color>>)
    ensures
        restyled_tokens(rest, d, k, slots).len() == 0 <==> rest.len() == 0,
        word_may_end_before(rest) ==> word_may_end_before(restyled_tokens(rest, d, k, slots)),
        rest.len() > 0 ==> (restyled_tokens(rest, d, k, slots).last() == NEWLINE <==> rest.last()
            == NEWLINE),
        single_line(rest) ==> single_line(restyled_tokens(rest, d, k, slots)),
    decreases d.spec_arity() - k,
{
    let r = restyled_tokens(rest, d, k, slots);
    if k >= d.spec_arity() || blank_run(rest) >= rest.len() {
    } else {
        lemma_first_word(rest);
        lemma_blank_run(rest);
        let g = gap(rest);
        let w = first_word(rest);
        let a = after_word(rest);
        let h = substitute(w, slots[d.spec_base() + k]);
        let r2 = restyled_tokens(a, d, k + 1, slots);
        lemma_substitute_solid(w, slots[d.spec_base() + k]);
        lemma_tokens_shape(a, d, k + 1, slots);
        assert(r == g + h + r2);
        if g.len() > 0 {
            assert(r[0] == g[0]);
            assert(g[0] == rest[0]);
        } else {
            assert(r[0] == h[0]);
            assert(w[0] == rest[0]);
        }
        if a.len() > 0 {
            assert(a.last() == rest.last());
            assert(r.last() == r2.last());
        } else {
            assert(r.last() == h.last());
            assert(w.last() == rest.last());
        }
        if single_line(rest) {
            if a.len() > 0 {
                assert forall|i: int| 0 <= i < a.len() - 1 implies #[trigger] a[i] != NEWLINE by {
                    assert(a[i] == rest[i + word_end(rest)]);
                }
            }
            assert forall|i: int| 0 <= i < r.len() - 1 implies #[trigger] r[i] != NEWLINE by {
                if i < g.len() {
                    assert(r[i] == g[i]);
                    assert(g[i] == rest[i]);
                } else if i < g.len() + h.len() {
                    assert(r[i] == h[i - g.len()]);
                } else {
                    assert(r[i] == r2[i - g.len() - h.len()]);
                }
            }
        }
    }
}

/// Rewritten tokens are read back as they were written: the gap, what was
/// substituted, and the rewritten rest.
proof fn lemma_tokens_read_back(rest: Seq<u8>, d: Directive, k: nat, slots: Seq<Option<Color>>)
    requires
        k < d.spec_arity(),
        blank_run(rest) < rest.len(),
    ensures
        ({
            let r = restyled_tokens(rest, d, k, slots);
            &&& blank_run(r) == blank_run(rest)
            &&& blank_run(r) < r.len()
            &&& gap(r) == gap(rest)
            &&& first_word(r) == substitute(first_word(rest), slots[d.spec_base() + k])
            &&& after_word(r) == restyled_tokens(after_word(rest), d, k + 1, slots)
        }),
{
    lemma_first_word(rest);
    lemma_blank_run(rest);
    let g = gap(rest);
    let h = substitute(first_word(rest), slots[d.spec_base() + k]);
    let r2 = restyled_tokens(after_word(rest), d, k + 1, slots);
    lemma_substitute_solid(first_word(rest), slots[d.spec_base() + k]);
    lemma_tokens_shape(after_word(rest), d, k + 1, slots);
    assert(all_blank(g)) by {
        assert forall|i: int| 0 <= i < g.len() implies is_blank(#[trigger] g[i]) by {
            assert(g[i] == rest[i]);
        }
    }
    lemma_compose(g, h, r2);
}

/// What is substituted for a colour token is a colour token, and
/// substituting again changes nothing.
proof fn lemma_substitute_settled(token: Seq<u8>, color: Option<Color>)
    requires
        is_color_token(token),
    ensures
        is_color_token(substitute(token, color)),
        substitute(substitute(token, color), color) == substitute(token, color),
        parsed(substitute(token, color)) == restamped(parsed(token), color),
{
    match color {
        Some(c) => {
            lemma_token_round_trip(c);
        },
        None => {},
    }
}

/// Rewritten tokens hold no malformed colour, and rewriting them again
/// changes nothing.
proof fn lemma_tokens_settled(
    rest: Seq<u8>,
    d: Directive,
    k: nat,
    slots: Seq<Option<Color>>,
    offset: nat,
    other: nat,
)
    requires
        token_fault(rest, d, k, offset) is None,
    ensures
        token_fault(restyled_tokens(rest, d, k, slots), d, k, other) is None,
        restyled_tokens(restyled_tokens(rest, d, k, slots), d, k, slots) == restyled_tokens(
            rest,
            d,
            k,
            slots,
        ),
    decreases d.spec_arity() - k,
{
    if k >= d.spec_arity() || blank_run(rest) >= rest.len() {
    } else {
        let r = restyled_tokens(rest, d, k, slots);
        lemma_tokens_read_back(rest, d, k, slots);
        lemma_substitute_settled(first_word(rest), slots[d.spec_base() + k]);
        lemma_tokens_settled(
            after_word(rest),
            d,
            k + 1,
            slots,
            offset + word_end(rest),
            other + word_end(r),
        );
    }
}

/// Gathering from rewritten tokens gives what gathering from the tokens
/// before the rewrite gives, restamped with the theme.
proof fn lemma_tokens_gathered(
    rest: Seq<u8>,
    d: Directive,
    k: nat,
    slots: Seq<Option<Color>>,
    found: Seq<Option<Color>>,
    offset: nat,
)
    requires
        token_fault(rest, d, k, offset) is None,
        slots.len() == SLOT_COUNT,
        found.len() == SLOT_COUNT,
    ensures
        gathered_tokens(rest, d, k, found).len() == SLOT_COUNT,
        gathered_tokens(restyled_tokens(rest, d, k, slots), d, k, restamped_all(found, slots))
            == restamped_all(gathered_tokens(rest, d, k, found), slots),
    decreases d.spec_arity() - k,
{
    if k >= d.spec_arity() || blank_run(rest) >= rest.len() {
    } else {
        let r = restyled_tokens(rest, d, k, slots);
        let i = d.spec_base() + k;
        lemma_tokens_read_back(rest, d, k, slots);
        lemma_substitute_settled(first_word(rest), slots[i]);
        let next = first_wins(found, i, parsed(first_word(rest)));
        assert(first_wins(restamped_all(found, slots), i, parsed(first_word(r))) =~= restamped_all(
            next,
            slots,
        ));
        lemma_tokens_gathered(after_word(rest), d, k + 1, slots, next, offset + word_end(rest));
    }
}

/// A rewritten line has the first word of the line it was, and the
/// rewritten tokens behind it.
proof fn lemma_line_read_back(line: Seq<u8>, scope: Scope, slots: Seq<Option<Color>>)
    ensures
        ({
            let l = restyled_line(line, scope, slots);
            &&& first_word(l) == first_word(line)
            &&& word_end(l) == word_end(line)
            &&& l.take(word_end(l) as int) == line.take(word_end(line) as int)
            &&& directive_at(scope, l) == directive_at(scope, line)
            &&& step(scope, l) == step(scope, line)
            &&& directive_at(scope, line) matches Some(d) ==> after_word(l) == restyled_tokens(
                after_word(line),
                d,
                0,
                slots,
            )
        }),
{
    let l = restyled_line(line, scope, slots);
    match directive_at(scope, line) {
        None => {},
        Some(d) => {
            lemma_first_word(line);
            lemma_blank_run(line);
            let r = restyled_tokens(after_word(line), d, 0, slots);
            lemma_tokens_shape(after_word(line), d, 0, slots);
            if blank_run(line) >= line.len() {
                assert(after_word(line).len() == 0);
                assert(l =~= line);
            } else {
                let g = gap(line);
                let w = first_word(line);
                assert(all_blank(g)) by {
                    assert forall|i: int| 0 <= i < g.len() implies is_blank(#[trigger] g[i]) by {
                        assert(g[i] == line[i]);
                    }
                }
                assert(line.take(word_end(line) as int) =~= g + w);
                assert(l =~= g + w + r);
                lemma_compose(g, w, r);
                assert(l.take(word_end(l) as int) =~= g + w);
            }
        },
    }
}

/// A rewritten line is a single line where the line was one, with a line
/// feed at its end where the line had one.
proof fn lemma_line_shape(line: Seq<u8>, scope: Scope, slots: Seq<Option<Color>>)
    requires
        single_line(line),
    ensures
        single_line(restyled_line(line, scope, slots)),
        restyled_line(line, scope, slots).last() == NEWLINE <==> line.last() == NEWLINE,
{
    let l = restyled_line(line, scope, slots);
    match directive_at(scope, line) {
        None => {},
        Some(d) => {
            lemma_first_word(line);
            let head = line.take(word_end(line) as int);
            let a = after_word(line);
            let r = restyled_tokens(a, d, 0, slots);
            lemma_tokens_shape(a, d, 0, slots);
            assert(l == head + r);
            if a.len() > 0 {
                assert(a.last() == line.last());
                assert(l.last() == r.last());
                assert forall|i: int| 0 <= i < a.len() - 1 implies #[trigger] a[i] != NEWLINE by {
                    assert(a[i] == line[i + word_end(line)]);
                }
                assert forall|i: int| 0 <= i < l.len() - 1 implies #[trigger] l[i] != NEWLINE by {
                    if i < head.len() {
                        assert(l[i] == head[i]);
                        assert(head[i] == line[i]);
                    } else {
                        assert(l[i] == r[i - head.len()]);
                    }
                }
            } else {
                assert(l =~= line);
            }
        },
    }
}

/// The rewrite of a text begins with the rewrite of its first line, and the
/// rewrite of the rest follows.
proof fn lemma_restyled_unfold(text: Seq<u8>, scope: Scope, slots: Seq<Option<Color>>)
    requires
        text.len() > 0,
    ensures
        ({
            let line = text.take(line_len(text) as int);
            let rest = text.skip(line_len(text) as int);
            let out = restyled(text, scope, slots);
            let l = restyled_line(line, scope, slots);
            &&& out.len() > 0
            &&& line_len(out) == l.len()
            &&& out.take(line_len(out) as int) == l
            &&& out.skip(line_len(out) as int) == restyled(rest, step(scope, line), slots)
            &&& (restyled(rest, step(scope, line), slots).len() == 0 <==> rest.len() == 0)
        }),
{
    let line = text.take(line_len(text) as int);
    let rest = text.skip(line_len(text) as int);
    let l = restyled_line(line, scope, slots);
    let tail = restyled(rest, step(scope, line), slots);
    lemma_first_line(text);
    lemma_line_shape(line, scope, slots);
    if rest.len() > 0 {
        lemma_first_line(rest);
        lemma_line_shape(rest.take(line_len(rest) as int), step(scope, line), slots);
    }
    lemma_line_len_concat(l, tail);
}

/// Line by line: the rewrite has as many lines as the text, each the rewrite
/// of the line it was, in the scope it stood in.
proof fn lemma_lines(text: Seq<u8>, scope: Scope, slots: Seq<Option<Color>>, i: nat)
    ensures
        line_count(restyled(text, scope, slots)) == line_count(text),
        i < line_count(text) ==> scope_at(restyled(text, scope, slots), scope, i) == scope_at(
            text,
            scope,
            i,
        ),
        i < line_count(text) ==> line_at(restyled(text, scope, slots), i) == restyled_line(
            line_at(text, i),
            scope_at(text, scope, i),
            slots,
        ),
    decreases text.len(), i,
{
    if text.len() > 0 {
        let line = text.take(line_len(text) as int);
        let rest = text.skip(line_len(text) as int);
        lemma_line_len(text);
        lemma_restyled_unfold(text, scope, slots);
        lemma_line_read_back(line, scope, slots);
        if i == 0 {
            lemma_lines(rest, step(scope, line), slots, 0);
        } else {
            lemma_lines(rest, step(scope, line), slots, (i - 1) as nat);
        }
    }
}

/// Applying a theme to a text that it was applied to changes nothing, and
/// finds no malformed colour.
proof fn lemma_settled(text: Seq<u8>, scope: Scope, slots: Seq<Option<Color>>, n: nat, m: nat)
    requires
        first_fault(text, scope, n) is None,
    ensures
        first_fault(restyled(text, scope, slots), scope, m) is None,
        restyled(restyled(text, scope, slots), scope, slots) == restyled(text, scope, slots),
    decreases text.len(),
{
    if text.len() > 0 {
        let line = text.take(line_len(text) as int);
        let rest = text.skip(line_len(text) as int);
        let l = restyled_line(line, scope, slots);
        lemma_line_len(text);
        lemma_restyled_unfold(text, scope, slots);
        lemma_line_read_back(line, scope, slots);
        match directive_at(scope, line) {
            Some(d) => {
                lemma_tokens_settled(after_word(line), d, 0, slots, word_end(line), word_end(l));
            },
            None => {},
        }
        assert(line_fault(l, scope) is None);
        assert(restyled_line(l, scope, slots) == l);
        lemma_settled(rest, step(scope, line), slots, n + 1, m + 1);
    }
}

/// Gathering from the rewrite of a text gives what gathering from the text
/// gives, restamped with the theme.
proof fn lemma_gathered(
    text: Seq<u8>,
    scope: Scope,
    slots: Seq<Option<Color>>,
    found: Seq<Option<Color>>,
    n: nat,
)
    requires
        first_fault(text, scope, n) is None,
        slots.len() == SLOT_COUNT,
        found.len() == SLOT_COUNT,
    ensures
        gathered(text, scope, found).len() == SLOT_COUNT,
        gathered(restyled(text, scope, slots), scope, restamped_all(found, slots)) == restamped_all(
            gathered(text, scope, found),
            slots,
        ),
    decreases text.len(),
{
    if text.len() > 0 {
        let line = text.take(line_len(text) as int);
        let rest = text.skip(line_len(text) as int);
        let l = restyled_line(line, scope, slots);
        lemma_line_len(text);
        lemma_restyled_unfold(text, scope, slots);
        lemma_line_read_back(line, scope, slots);
        match directive_at(scope, line) {
            Some(d) => {
                lemma_tokens_gathered(after_word(line), d, 0, slots, found, word_end(line));
            },
            None => {},
        }
        assert(gathered_line(l, scope, restamped_all(found, slots)) == restamped_all(
            gathered_line(line, scope, found),
            slots,
        ));
        lemma_gathered(rest, step(scope, line), slots, gathered_line(line, scope, found), n + 1);
    }
}

/// Tokens for which the theme has no colour stay as they are.
proof fn lemma_tokens_untouched(rest: Seq<u8>, d: Directive, k: nat, slots: Seq<Option<Color>>)
    requires
        forall|i: int| 0 <= i < SLOT_COUNT ==> slots[i] is None,
    ensures
        restyled_tokens(rest, d, k, slots) == rest,
    decreases d.spec_arity() - k,
{
    if k >= d.spec_arity() || blank_run(rest) >= rest.len() {
    } else {
        lemma_first_word(rest);
        lemma_tokens_untouched(after_word(rest), d, k + 1, slots);
        assert(slots[d.spec_base() + k] is None);
    }
}

/// A theme without colours changes no text.
proof fn lemma_untouched(text: Seq<u8>, scope: Scope, slots: Seq<Option<Color>>)
    requires
        forall|i: int| 0 <= i < SLOT_COUNT ==> slots[i] is None,
    ensures
        restyled(text, scope, slots) == text,
    decreases text.len(),
{
    if text.len() > 0 {
        let line = text.take(line_len(text) as int);
        let rest = text.skip(line_len(text) as int);
        lemma_line_len(text);
        match directive_at(scope, line) {
            Some(d) => {
                lemma_first_word(line);
                lemma_tokens_untouched(after_word(line), d, 0, slots);
                assert(restyled_line(line, scope, slots) =~= line);
            },
            None => {},
        }
        lemma_untouched(rest, step(scope, line), slots);
        assert(line + rest =~= text);
    }
}

/// A theme without colours changes nothing: whatever the configuration
/// holds, the rewrite is the configuration, byte for byte.
pub proof fn law_empty_theme_changes_nothing(text: Seq<u8>)
    ensures
        restyled(text, Scope::top(), no_colors()) == text,
{
    lemma_untouched(text, Scope::top(), no_colors());
}

/// Minimal diff. The rewrite of a configuration has the lines of the
/// configuration, one for one: each directive line with its colour tokens
/// replaced, each in the scope of the line it comes from. The rewrite
/// neither joins nor splits lines, and moves no block.
pub proof fn law_line_for_line(text: Seq<u8>, slots: Seq<Option<Color>>, i: nat)
    requires
        i < line_count(text),
    ensures
        line_count(restyled(text, Scope::top(), slots)) == line_count(text),
        scope_at(restyled(text, Scope::top(), slots), Scope::top(), i) == scope_at(
            text,
            Scope::top(),
            i,
        ),
        line_at(restyled(text, Scope::top(), slots), i) == restyled_line(
            line_at(text, i),
            scope_at(text, Scope::top(), i),
            slots,
        ),
{
    lemma_lines(text, Scope::top(), slots, i);
}

/// Byte preservation. A line that is no directive in its scope stands in
/// the rewrite as it stood in the configuration, byte for byte, blanks and
/// line ending included.
pub proof fn law_opaque_lines_are_kept(text: Seq<u8>, slots: Seq<Option<Color>>, i: nat)
    requires
        i < line_count(text),
        directive_at(scope_at(text, Scope::top(), i), line_at(text, i)) is None,
    ensures
        line_at(restyled(text, Scope::top(), slots), i) == line_at(text, i),
{
    lemma_lines(text, Scope::top(), slots, i);
}

/// Idempotence. Applying a theme to the result of applying it succeeds and
/// changes nothing.
pub proof fn law_apply_is_idempotent(text: Seq<u8>, slots: Seq<Option<Color>>)
    requires
        first_fault(text, Scope::top(), 1) is None,
    ensures
        first_fault(restyled(text, Scope::top(), slots), Scope::top(), 1) is None,
        restyled(restyled(text, Scope::top(), slots), Scope::top(), slots) == restyled(
            text,
            Scope::top(),
            slots,
        ),
{
    lemma_settled(text, Scope::top(), slots, 1, 1);
}

/// Extraction after application. A slot that extraction fills from the
/// configuration is filled, after the theme was applied, with the theme's
/// colour where the theme has one, and else as before; a slot whose position
/// the configuration lacks stays empty.
pub proof fn law_extract_sees_the_theme(text: Seq<u8>, slots: Seq<Option<Color>>)
    requires
        first_fault(text, Scope::top(), 1) is None,
        slots.len() == SLOT_COUNT,
    ensures
        first_fault(restyled(text, Scope::top(), slots), Scope::top(), 1) is None,
        gathered(restyled(text, Scope::top(), slots), Scope::top(), no_colors()) == restamped_all(
            gathered(text, Scope::top(), no_colors()),
            slots,
        ),
{
    lemma_settled(text, Scope::top(), slots, 1, 1);
    lemma_gathered(text, Scope::top(), slots, no_colors(), 1);
    assert(restamped_all(no_colors(), slots) =~= no_colors());
}

/// Round trip. Where the theme has a colour for exactly the slots whose
/// positions the configuration holds, extraction after application gives
/// the theme's colours back.
pub proof fn law_round_trip(text: Seq<u8>, slots: Seq<Option<Color>>)
    requires
        first_fault(text, Scope::top(), 1) is None,
        slots.len() == SLOT_COUNT,
        forall|s: int|
            0 <= s < SLOT_COUNT ==> (#[trigger] slots[s] is Some <==> gathered(
                text,
                Scope::top(),
                no_colors(),
            )[s] is Some),
    ensures
        gathered(restyled(text, Scope::top(), slots), Scope::top(), no_colors()) == slots,
{
    law_extract_sees_the_theme(text, slots);
    lemma_gathered(text, Scope::top(), slots, no_colors(), 1);
    assert(restamped_all(gathered(text, Scope::top(), no_colors()), slots) =~= slots);
}

} // verus!
