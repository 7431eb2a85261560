//! Lexical structure of a configuration: lines, blanks and words.
//!
//! Every function here looks at the front of a byte string; what follows a
//! line or a word is the string with that front skipped.

use vstd::prelude::*;
use vstd::slice::slice_subrange;

verus! {

/// The line feed that ends a line.
pub const NEWLINE: u8 = 10;

/// Space, tab, carriage return and line feed separate words.
pub open spec fn is_blank(b: u8) -> bool {
    b == 32 || b == 9 || b == 13 || b == 10
}

/// The number of blank bytes that `s` begins with.
pub open spec fn blank_run(s: Seq<u8>) -> nat
    decreases s.len(),
{
    if s.len() > 0 && is_blank(s[0]) {
        1 + blank_run(s.skip(1))
    } else {
        0
    }
}

/// The number of bytes that are not blank that `s` begins with.
pub open spec fn word_run(s: Seq<u8>) -> nat
    decreases s.len(),
{
    if s.len() > 0 && !is_blank(s[0]) {
        1 + word_run(s.skip(1))
    } else {
        0
    }
}

/// The length of the first line of `s`, its line feed included. The last
/// line of a text may lack the line feed.
pub open spec fn line_len(s: Seq<u8>) -> nat
    decreases s.len(),
{
    if s.len() == 0 {
        0
    } else if s[0] == NEWLINE {
        1
    } else {
        1 + line_len(s.skip(1))
    }
}

/// The last byte of `s` that is not blank, if there is one.
pub open spec fn last_solid(s: Seq<u8>) -> Option<u8>
    decreases s.len(),
{
    if s.len() == 0 {
        None
    } else if !is_blank(s.last()) {
        Some(s.last())
    } else {
        last_solid(s.drop_last())
    }
}

/// Where the first word of `s` ends: after the leading blanks and the word
/// that follows them.
pub open spec fn word_end(s: Seq<u8>) -> nat {
    blank_run(s) + word_run(s.skip(blank_run(s) as int))
}

/// The blanks that `s` begins with.
pub open spec fn gap(s: Seq<u8>) -> Seq<u8> {
    s.take(blank_run(s) as int)
}

/// The first word of `s`; empty where `s` is blank.
pub open spec fn first_word(s: Seq<u8>) -> Seq<u8> {
    s.subrange(blank_run(s) as int, word_end(s) as int)
}

/// What follows the first word of `s`.
pub open spec fn after_word(s: Seq<u8>) -> Seq<u8> {
    s.skip(word_end(s) as int)
}

/// A string that is not all blank has a first word: it is not empty, holds
/// no blank, lies inside the string, and a blank or the end follows it.
pub proof fn lemma_first_word(s: Seq<u8>)
    ensures
        blank_run(s) <= word_end(s) <= s.len(),
        blank_run(s) < s.len() ==> blank_run(s) < word_end(s),
        first_word(s).len() == word_end(s) - blank_run(s),
        forall|i: int| 0 <= i < first_word(s).len() ==> !is_blank(#[trigger] first_word(s)[i]),
        word_end(s) < s.len() ==> is_blank(s[word_end(s) as int]),
        s =~= gap(s) + first_word(s) + after_word(s),
{
    lemma_blank_run(s);
    let t = s.skip(blank_run(s) as int);
    lemma_word_run(t);
    assert forall|i: int| 0 <= i < first_word(s).len() implies !is_blank(
        #[trigger] first_word(s)[i],
    ) by {
        assert(first_word(s)[i] == t[i]);
    }
    if word_end(s) < s.len() {
        assert(s[word_end(s) as int] == t[word_run(t) as int]);
    }
    if blank_run(s) < s.len() {
        assert(t[0] == s[blank_run(s) as int]);
    }
}

/// A run of blanks ends inside the string, at a byte that is not blank or at
/// the end, and everything before that is blank.
pub proof fn lemma_blank_run(s: Seq<u8>)
    ensures
        blank_run(s) <= s.len(),
        forall|i: int| 0 <= i < blank_run(s) ==> is_blank(#[trigger] s[i]),
        blank_run(s) < s.len() ==> !is_blank(s[blank_run(s) as int]),
    decreases s.len(),
{
    if s.len() > 0 && is_blank(s[0]) {
        let t = s.skip(1);
        lemma_blank_run(t);
        assert forall|i: int| 0 <= i < blank_run(s) implies is_blank(#[trigger] s[i]) by {
            if i > 0 {
                assert(s[i] == t[i - 1]);
            }
        }
        if blank_run(s) < s.len() {
            assert(s[blank_run(s) as int] == t[blank_run(t) as int]);
        }
    }
}

/// A word ends inside the string, at a blank or at the end, and holds no
/// blank.
pub proof fn lemma_word_run(s: Seq<u8>)
    ensures
        word_run(s) <= s.len(),
        forall|i: int| 0 <= i < word_run(s) ==> !is_blank(#[trigger] s[i]),
        word_run(s) < s.len() ==> is_blank(s[word_run(s) as int]),
    decreases s.len(),
{
    if s.len() > 0 && !is_blank(s[0]) {
        let t = s.skip(1);
        lemma_word_run(t);
        assert forall|i: int| 0 <= i < word_run(s) implies !is_blank(#[trigger] s[i]) by {
            if i > 0 {
                assert(s[i] == t[i - 1]);
            }
        }
        if word_run(s) < s.len() {
            assert(s[word_run(s) as int] == t[word_run(t) as int]);
        }
    }
}

/// The first line of a text that is not empty is not empty, lies inside the
/// text, holds no line feed before its last byte, and ends with a line feed
/// unless it is the whole text.
pub proof fn lemma_line_len(s: Seq<u8>)
    ensures
        line_len(s) <= s.len(),
        s.len() > 0 ==> line_len(s) >= 1,
        forall|i: int| 0 <= i < line_len(s) - 1 ==> #[trigger] s[i] != NEWLINE,
        line_len(s) < s.len() ==> s[line_len(s) - 1] == NEWLINE,
    decreases s.len(),
{
    if s.len() > 0 && s[0] != NEWLINE {
        let t = s.skip(1);
        lemma_line_len(t);
        assert forall|i: int| 0 <= i < line_len(s) - 1 implies #[trigger] s[i] != NEWLINE by {
            if i > 0 {
                assert(s[i] == t[i - 1]);
            }
        }
        if line_len(s) < s.len() {
            assert(s[line_len(s) - 1] == t[line_len(t) - 1]);
        }
    }
}

/// Every byte of `s` is blank.
pub open spec fn all_blank(s: Seq<u8>) -> bool {
    forall|i: int| 0 <= i < s.len() ==> is_blank(#[trigger] s[i])
}

/// No byte of `s` is blank.
pub open spec fn solid(s: Seq<u8>) -> bool {
    forall|i: int| 0 <= i < s.len() ==> !is_blank(#[trigger] s[i])
}

/// `s` is empty or begins with a blank: a word may end before it.
pub open spec fn word_may_end_before(s: Seq<u8>) -> bool {
    s.len() == 0 || is_blank(s[0])
}

/// `l` is not empty and holds no line feed, unless as its last byte.
pub open spec fn single_line(l: Seq<u8>) -> bool {
    l.len() > 0 && forall|i: int| 0 <= i < l.len() - 1 ==> #[trigger] l[i] != NEWLINE
}

/// Blanks in front of something that is not blank are counted as they are.
pub proof fn lemma_blank_run_concat(a: Seq<u8>, y: Seq<u8>)
    requires
        all_blank(a),
        y.len() == 0 || !is_blank(y[0]),
    ensures
        blank_run(a + y) == a.len(),
    decreases a.len(),
{
    if a.len() == 0 {
        assert(a + y =~= y);
    } else {
        let t = a.skip(1);
        assert((a + y)[0] == a[0]);
        assert((a + y).skip(1) =~= t + y);
        assert forall|i: int| 0 <= i < t.len() implies is_blank(#[trigger] t[i]) by {
            assert(t[i] == a[i + 1]);
        }
        lemma_blank_run_concat(t, y);
    }
}

/// A word in front of a blank, or of nothing, is measured as it is.
pub proof fn lemma_word_run_concat(h: Seq<u8>, y: Seq<u8>)
    requires
        solid(h),
        word_may_end_before(y),
    ensures
        word_run(h + y) == h.len(),
    decreases h.len(),
{
    if h.len() == 0 {
        assert(h + y =~= y);
    } else {
        let t = h.skip(1);
        assert((h + y)[0] == h[0]);
        assert((h + y).skip(1) =~= t + y);
        assert forall|i: int| 0 <= i < t.len() implies !is_blank(#[trigger] t[i]) by {
            assert(t[i] == h[i + 1]);
        }
        lemma_word_run_concat(t, y);
    }
}

/// Blanks, a word and a rest that the word may end before, put together, are
/// read back as that gap, that word and that rest.
pub proof fn lemma_compose(g: Seq<u8>, h: Seq<u8>, y: Seq<u8>)
    requires
        all_blank(g),
        solid(h),
        h.len() > 0,
        word_may_end_before(y),
    ensures
        blank_run(g + h + y) == g.len(),
        word_end(g + h + y) == g.len() + h.len(),
        gap(g + h + y) == g,
        first_word(g + h + y) == h,
        after_word(g + h + y) == y,
{
    let s = g + h + y;
    assert(s =~= g + (h + y));
    assert((h + y)[0] == h[0]);
    lemma_blank_run_concat(g, h + y);
    assert(s.skip(g.len() as int) =~= h + y);
    lemma_word_run_concat(h, y);
    assert(gap(s) =~= g);
    assert(first_word(s) =~= h);
    assert(after_word(s) =~= y);
}

/// A single line in front of a text is that text's first line, where the
/// line ends with a line feed or nothing follows it.
pub proof fn lemma_line_len_concat(l: Seq<u8>, x: Seq<u8>)
    requires
        single_line(l),
        l.last() == NEWLINE || x.len() == 0,
    ensures
        line_len(l + x) == l.len(),
        (l + x).take(l.len() as int) == l,
        (l + x).skip(l.len() as int) == x,
    decreases l.len(),
{
    let s = l + x;
    assert(s.take(l.len() as int) =~= l);
    assert(s.skip(l.len() as int) =~= x);
    assert(s[0] == l[0]);
    if l.len() == 1 {
        if l[0] != NEWLINE {
            assert(s.skip(1).len() == 0);
            assert(line_len(s.skip(1)) == 0);
        }
    } else {
        let t = l.skip(1);
        assert(l[0] != NEWLINE);
        assert(s.skip(1) =~= t + x);
        assert(t.last() == l.last());
        assert forall|i: int| 0 <= i < t.len() - 1 implies #[trigger] t[i] != NEWLINE by {
            assert(t[i] == l[i + 1]);
        }
        lemma_line_len_concat(t, x);
    }
}

/// The first line of a text that is not empty is a single line.
pub proof fn lemma_first_line(s: Seq<u8>)
    requires
        s.len() > 0,
    ensures
        1 <= line_len(s) <= s.len(),
        single_line(s.take(line_len(s) as int)),
        line_len(s) < s.len() ==> s.take(line_len(s) as int).last() == NEWLINE,
{
    lemma_line_len(s);
}

/// Whether a byte separates words.
pub fn blank(b: u8) -> (r: bool)
    ensures
        r == is_blank(b),
{
    b == 32 || b == 9 || b == 13 || b == 10
}

/// Counts the blanks at the front of `s`.
pub fn leading_blanks(s: &[u8]) -> (n: usize)
    ensures
        n == blank_run(s@),
        n <= s@.len(),
{
    let mut i: usize = 0;
    assert(s@.skip(0) =~= s@);
    while i < s.len() && blank(s[i])
        invariant
            i <= s@.len(),
            blank_run(s@) == i + blank_run(s@.skip(i as int)),
        decreases s@.len() - i,
    {
        assert(s@.skip(i as int).skip(1) =~= s@.skip(i + 1));
        i += 1;
    }
    i
}

/// Measures the word at the front of `s`.
pub fn leading_word(s: &[u8]) -> (n: usize)
    ensures
        n == word_run(s@),
        n <= s@.len(),
{
    let mut i: usize = 0;
    assert(s@.skip(0) =~= s@);
    while i < s.len() && !blank(s[i])
        invariant
            i <= s@.len(),
            word_run(s@) == i + word_run(s@.skip(i as int)),
        decreases s@.len() - i,
    {
        assert(s@.skip(i as int).skip(1) =~= s@.skip(i + 1));
        i += 1;
    }
    i
}

/// Measures the first line of `s`.
pub fn first_line(s: &[u8]) -> (n: usize)
    ensures
        n == line_len(s@),
        n <= s@.len(),
{
    let mut i: usize = 0;
    assert(s@.skip(0) =~= s@);
    while i < s.len()
        invariant
            i <= s@.len(),
            line_len(s@) == i + line_len(s@.skip(i as int)),
        decreases s@.len() - i,
    {
        assert(s@.skip(i as int).skip(1) =~= s@.skip(i + 1));
        if s[i] == NEWLINE {
            return i + 1;
        }
        i += 1;
    }
    i
}

/// Finds the last byte of `s` that is not blank.
pub fn trailing_solid(s: &[u8]) -> (r: Option<u8>)
    ensures
        r == last_solid(s@),
{
    let mut n: usize = s.len();
    assert(s@.take(n as int) =~= s@);
    while n > 0
        invariant
            n <= s@.len(),
            last_solid(s@) == last_solid(s@.take(n as int)),
        decreases n,
    {
        assert(s@.take(n as int).drop_last() =~= s@.take(n - 1));
        if !blank(s[n - 1]) {
            return Some(s[n - 1]);
        }
        n -= 1;
    }
    assert(s@.take(0).len() == 0);
    None
}

/// Whether two byte strings are the same.
pub fn same_bytes(a: &[u8], b: &[u8]) -> (r: bool)
    ensures
        r == (a@ == b@),
{
    if a.len() != b.len() {
        return false;
    }
    let mut i: usize = 0;
    while i < a.len()
        invariant
            i <= a@.len(),
            a@.len() == b@.len(),
            forall|j: int| 0 <= j < i ==> a@[j] == b@[j],
        decreases a@.len() - i,
    {
        if a[i] != b[i] {
            return false;
        }
        i += 1;
    }
    assert(a@ =~= b@);
    true
}

/// Appends `bytes` to `out`.
pub fn append(out: &mut Vec<u8>, bytes: &[u8])
    ensures
        final(out)@ == old(out)@ + bytes@,
{
    let mut i: usize = 0;
    while i < bytes.len()
        invariant
            i <= bytes@.len(),
            out@ == old(out)@ + bytes@.take(i as int),
        decreases bytes@.len() - i,
    {
        out.push(bytes[i]);
        assert(bytes@.take(i + 1) =~= bytes@.take(i as int).push(bytes@[i as int]));
        i += 1;
    }
    assert(bytes@.take(bytes@.len() as int) =~= bytes@);
}

/// Finds the first word of `s`: where it starts and where it ends.
pub fn word_bounds(s: &[u8]) -> (r: (usize, usize))
    ensures
        r.0 == blank_run(s@),
        r.1 == word_end(s@),
        r.0 <= r.1 <= s@.len(),
{
    let b = leading_blanks(s);
    let rest = tail(s, b);
    let w = leading_word(rest);
    assert(b + w <= s.len());
    (b, b + w)
}

/// The part of `s` from `from` on.
pub(crate) fn tail(s: &[u8], from: usize) -> (r: &[u8])
    requires
        from <= s@.len(),
    ensures
        r@ == s@.skip(from as int),
{
    slice_subrange(s, from, s.len())
}

} // verus!
