//! Colours and their hexadecimal tokens (`#rrggbb`, `#rrggbbaa`).

use vstd::prelude::*;
use vstd::slice::slice_to_vec;
use vstd::string::*;
use crate::error::{Fault, InvalidColorToken};

verus! {

/// An RGB colour with 8-bit channels and an optional 8-bit alpha channel.
#[derive(Clone, Copy, Debug, PartialEq, Eq)]
pub struct Color {
    pub red: u8,
    pub green: u8,
    pub blue: u8,
    pub alpha: Option<u8>,
}

/// The byte `#`, which opens every colour token.
pub const HASH: u8 = 35;

/// `b` is one of `0-9`, `a-f`, `A-F`.
pub open spec fn is_hex_digit(b: u8) -> bool {
    (48 <= b <= 57) || (97 <= b <= 102) || (65 <= b <= 70)
}

/// The number that the hexadecimal digit `b` stands for.
pub open spec fn hex_value(b: u8) -> int {
    if 48 <= b <= 57 {
        b - 48
    } else if 97 <= b <= 102 {
        b - 87
    } else {
        b - 55
    }
}

/// The lowercase hexadecimal digit for `v`, where `0 <= v < 16`.
pub open spec fn hex_digit(v: int) -> u8 {
    if v < 10 {
        (48 + v) as u8
    } else {
        (87 + v) as u8
    }
}

/// The channel that two hexadecimal digits spell.
pub open spec fn hex_pair(high: u8, low: u8) -> u8 {
    (hex_value(high) * 16 + hex_value(low)) as u8
}

/// `token` is `#` followed by exactly six or exactly eight hexadecimal digits.
pub open spec fn is_color_token(token: Seq<u8>) -> bool {
    &&& (token.len() == 7 || token.len() == 9)
    &&& token[0] == HASH
    &&& forall|i: int| 1 <= i < token.len() ==> is_hex_digit(#[trigger] token[i])
}

/// The colour that a well-formed token spells.
pub open spec fn token_color(token: Seq<u8>) -> Color {
    Color {
        red: hex_pair(token[1], token[2]),
        green: hex_pair(token[3], token[4]),
        blue: hex_pair(token[5], token[6]),
        alpha: if token.len() == 9 {
            Some(hex_pair(token[7], token[8]))
        } else {
            None
        },
    }
}

/// What a token parses to: its colour, or nothing where it is malformed.
pub open spec fn parsed(token: Seq<u8>) -> Option<Color> {
    if is_color_token(token) {
        Some(token_color(token))
    } else {
        None
    }
}

/// The two lowercase digits of one channel.
pub open spec fn channel_digits(v: u8) -> Seq<u8> {
    seq![hex_digit(v as int / 16), hex_digit(v as int % 16)]
}

/// The canonical token of a colour: lowercase, with the alpha digits only
/// where the colour has an alpha channel.
pub open spec fn color_token(c: Color) -> Seq<u8> {
    seq![HASH] + channel_digits(c.red) + channel_digits(c.green) + channel_digits(c.blue) + (match c.alpha {
        Some(a) => channel_digits(a),
        None => Seq::<u8>::empty(),
    })
}

/// The characters of an ASCII byte string.
pub open spec fn ascii_text(bytes: Seq<u8>) -> Seq<char> {
    Seq::new(bytes.len(), |i: int| bytes[i] as char)
}

/// The canonical token of a colour as text.
pub open spec fn hex_text(c: Color) -> Seq<char> {
    ascii_text(color_token(c))
}

/// The canonical token of a colour parses back to that colour.
pub proof fn lemma_token_round_trip(c: Color)
    ensures
        is_color_token(color_token(c)),
        parsed(color_token(c)) == Some(c),
{
    let t = color_token(c);
    lemma_channel_round_trip(c.red);
    lemma_channel_round_trip(c.green);
    lemma_channel_round_trip(c.blue);
    match c.alpha {
        Some(a) => {
            lemma_channel_round_trip(a);
            assert(t.len() == 9);
        },
        None => {
            assert(t.len() == 7);
        },
    }
    assert forall|i: int| 1 <= i < t.len() implies is_hex_digit(#[trigger] t[i]) by {}
}

/// A colour token is not empty and holds neither a blank nor a line feed.
pub proof fn lemma_token_solid(token: Seq<u8>)
    requires
        is_color_token(token),
    ensures
        token.len() > 0,
        forall|i: int|
            0 <= i < token.len() ==> {
                let b = #[trigger] token[i];
                b != 32 && b != 9 && b != 13 && b != 10
            },
{
    assert forall|i: int| 0 <= i < token.len() implies {
        let b = #[trigger] token[i];
        b != 32 && b != 9 && b != 13 && b != 10
    } by {
        if i > 0 {
            assert(is_hex_digit(token[i]));
        }
    }
}

/// The digits of a channel are hexadecimal digits that spell the channel.
pub proof fn lemma_channel_round_trip(v: u8)
    ensures
        is_hex_digit(channel_digits(v)[0]),
        is_hex_digit(channel_digits(v)[1]),
        hex_pair(channel_digits(v)[0], channel_digits(v)[1]) == v,
{
}

fn digit_value(b: u8) -> (r: Option<u8>)
    ensures
        r is Some <==> is_hex_digit(b),
        r matches Some(v) ==> v == hex_value(b) && v < 16,
{
    if 48 <= b && b <= 57 {
        Some(b - 48)
    } else if 97 <= b && b <= 102 {
        Some(b - 87)
    } else if 65 <= b && b <= 70 {
        Some(b - 55)
    } else {
        None
    }
}

fn pair_value(high: u8, low: u8) -> (r: Option<u8>)
    ensures
        r is Some <==> is_hex_digit(high) && is_hex_digit(low),
        r matches Some(v) ==> v == hex_pair(high, low),
{
    match (digit_value(high), digit_value(low)) {
        (Some(h), Some(l)) => Some(h * 16 + l),
        _ => None,
    }
}

fn digit_byte(v: u8) -> (r: u8)
    requires
        v < 16,
    ensures
        r == hex_digit(v as int),
{
    if v < 10 {
        48 + v
    } else {
        87 + v
    }
}

fn push_channel(out: &mut Vec<u8>, v: u8)
    ensures
        final(out)@ == old(out)@ + channel_digits(v),
{
    out.push(digit_byte(v / 16));
    out.push(digit_byte(v % 16));
    assert(out@ =~= old(out)@ + channel_digits(v));
}

fn digit_text(v: u8) -> (r: &'static str)
    requires
        v < 16,
    ensures
        r@ == seq![hex_digit(v as int) as char],
{
    proof {
        reveal_strlit("0");
        reveal_strlit("1");
        reveal_strlit("2");
        reveal_strlit("3");
        reveal_strlit("4");
        reveal_strlit("5");
        reveal_strlit("6");
        reveal_strlit("7");
        reveal_strlit("8");
        reveal_strlit("9");
        reveal_strlit("a");
        reveal_strlit("b");
        reveal_strlit("c");
        reveal_strlit("d");
        reveal_strlit("e");
        reveal_strlit("f");
    }
    let r = if v == 0 {
        "0"
    } else if v == 1 {
        "1"
    } else if v == 2 {
        "2"
    } else if v == 3 {
        "3"
    } else if v == 4 {
        "4"
    } else if v == 5 {
        "5"
    } else if v == 6 {
        "6"
    } else if v == 7 {
        "7"
    } else if v == 8 {
        "8"
    } else if v == 9 {
        "9"
    } else if v == 10 {
        "a"
    } else if v == 11 {
        "b"
    } else if v == 12 {
        "c"
    } else if v == 13 {
        "d"
    } else if v == 14 {
        "e"
    } else {
        "f"
    };
    assert(r@ =~= seq![hex_digit(v as int) as char]);
    r
}

fn append_channel(out: &mut String, v: u8)
    ensures
        final(out)@ == old(out)@ + ascii_text(channel_digits(v)),
{
    out.append(digit_text(v / 16));
    out.append(digit_text(v % 16));
    assert(out@ =~= old(out)@ + ascii_text(channel_digits(v)));
}

impl Color {
    /// An opaque colour from its three channels.
    pub fn rgb(red: u8, green: u8, blue: u8) -> (c: Color)
        ensures
            c == (Color { red, green, blue, alpha: None }),
    {
        Color { red, green, blue, alpha: None }
    }

    /// Reads a colour token given as bytes.
    pub fn parse_token(token: &[u8]) -> (r: Option<Color>)
        ensures
            r == parsed(token@),
    {
        let n: usize = token.len();
        if n != 7 && n != 9 {
            return None;
        }
        if token[0] != HASH {
            return None;
        }
        let red = match pair_value(token[1], token[2]) {
            Some(v) => v,
            None => { return None; },
        };
        let green = match pair_value(token[3], token[4]) {
            Some(v) => v,
            None => { return None; },
        };
        let blue = match pair_value(token[5], token[6]) {
            Some(v) => v,
            None => { return None; },
        };
        let alpha = if n == 9 {
            match pair_value(token[7], token[8]) {
                Some(v) => Some(v),
                None => { return None; },
            }
        } else {
            None
        };
        Some(Color { red, green, blue, alpha })
    }

    /// Reads a colour token: `#` and six or eight hexadecimal digits, of
    /// either case. Anything else is refused.
    pub fn parse(token: &str) -> (r: Result<Color, InvalidColorToken>)
        ensures
            match r {
                Ok(c) => parsed(token.spec_bytes()) == Some(c),
                Err(e) => parsed(token.spec_bytes()) is None && e@ == (Fault {
                    line: 0,
                    column: 0,
                    token: token.spec_bytes(),
                }),
            },
    {
        let bytes = token.as_bytes();
        match Color::parse_token(bytes) {
            Some(c) => Ok(c),
            None => Err(InvalidColorToken { line: 0, column: 0, token: slice_to_vec(bytes) }),
        }
    }

    /// The canonical token of this colour: `#`, then two lowercase
    /// hexadecimal digits for each channel, the alpha channel last and only
    /// where the colour has one.
    pub fn to_hex(&self) -> (out: String)
        ensures
            out@ == hex_text(*self),
    {
        proof {
            reveal_strlit("#");
        }
        let mut out = String::from_str("#");
        append_channel(&mut out, self.red);
        append_channel(&mut out, self.green);
        append_channel(&mut out, self.blue);
        match self.alpha {
            Some(a) => {
                append_channel(&mut out, a);
            },
            None => {},
        }
        assert(out@ =~= hex_text(*self));
        out
    }

    /// The canonical token of this colour, as bytes.
    pub fn token(&self) -> (out: Vec<u8>)
        ensures
            out@ == color_token(*self),
    {
        let mut out: Vec<u8> = Vec::new();
        out.push(HASH);
        push_channel(&mut out, self.red);
        push_channel(&mut out, self.green);
        push_channel(&mut out, self.blue);
        match self.alpha {
            Some(a) => {
                push_channel(&mut out, a);
            },
            None => {},
        }
        assert(out@ =~= color_token(*self));
        out
    }
}

} // verus!
