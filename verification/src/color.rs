//! RGBA colours and their `#RGB`, `#RGBA`, `#RRGGBB` and `#RRGGBBAA`
//! spellings.

use crate::text::{
    chars_of, hex_digit_value, hex_value, is_hex, is_hex_digit, is_white_space,
    lemma_trimmed_removes_surrounding_space, lemma_upper_hex_round_trip, push_char, trim_bounds,
    trimmed, upper_hex, upper_hex_char,
};
use vstd::prelude::*;

verus! {

/// A colour with 8-bit red, green, blue and alpha channels.
#[derive(Clone, Copy, Debug, PartialEq, Eq, Structural)]
pub struct Rgba {
    pub r: u8,
    pub g: u8,
    pub b: u8,
    pub a: u8,
}

/// The digits of a colour spelling: surrounding white space removed, then
/// one leading `#` if there is one.
pub open spec fn colour_digits(input: Seq<char>) -> Seq<char> {
    let t = trimmed(input);
    if t.len() > 0 && t[0] == '#' {
        t.drop_first()
    } else {
        t
    }
}

/// The value of the two-digit hexadecimal number at position `i` of `d`.
pub open spec fn pair_value(d: Seq<char>, i: int) -> int {
    16 * hex_digit_value(d[i]) + hex_digit_value(d[i + 1])
}

/// The colour that `input` spells, if any: 3, 4, 6 or 8 hexadecimal digits;
/// a short digit `x` stands for `xx`, and a missing alpha is opaque.
pub open spec fn parsed_colour(input: Seq<char>) -> Option<Rgba> {
    let d = colour_digits(input);
    if !(d.len() == 3 || d.len() == 4 || d.len() == 6 || d.len() == 8) || !(forall|i: int|
        0 <= i < d.len() ==> is_hex_digit(#[trigger] d[i])) {
        None
    } else if d.len() <= 4 {
        Some(
            Rgba {
                r: (17 * hex_digit_value(d[0])) as u8,
                g: (17 * hex_digit_value(d[1])) as u8,
                b: (17 * hex_digit_value(d[2])) as u8,
                a: if d.len() == 4 {
                    (17 * hex_digit_value(d[3])) as u8
                } else {
                    255
                },
            },
        )
    } else {
        Some(
            Rgba {
                r: pair_value(d, 0) as u8,
                g: pair_value(d, 2) as u8,
                b: pair_value(d, 4) as u8,
                a: if d.len() == 8 {
                    pair_value(d, 6) as u8
                } else {
                    255
                },
            },
        )
    }
}

/// The two upper-case hexadecimal digits of `x`.
pub open spec fn byte_text(x: u8) -> Seq<char> {
    seq![upper_hex_char(x as int / 16), upper_hex_char(x as int % 16)]
}

/// `#RRGGBB` for an opaque colour, `#RRGGBBAA` otherwise, in upper case.
pub open spec fn colour_text(c: Rgba) -> Seq<char> {
    let rgb = seq!['#'] + byte_text(c.r) + byte_text(c.g) + byte_text(c.b);
    if c.a == 255 {
        rgb
    } else {
        rgb + byte_text(c.a)
    }
}

fn push_byte(s: &mut String, x: u8)
    ensures
        final(s)@ == old(s)@ + byte_text(x),
{
    push_char(s, upper_hex(x / 16));
    push_char(s, upper_hex(x % 16));
    assert(final(s)@ =~= old(s)@ + byte_text(x));
}

impl Rgba {
    /// Reads a colour written as 3, 4, 6 or 8 hexadecimal digits, with an
    /// optional leading `#` and surrounding white space.
    pub fn parse_hex(input: &str) -> (out: Option<Self>)
        ensures
            out == parsed_colour(input@),
    {
        let chars = chars_of(input);
        let (start, end) = trim_bounds(&chars);
        let ghost t = chars@.subrange(start as int, end as int);
        let mut s = start;
        if s < end && chars[s] == '#' {
            s = s + 1;
        }
        let ghost d = chars@.subrange(s as int, end as int);
        assert(d =~= colour_digits(input@));
        let n = end - s;
        assert(d.len() == n);
        if !(n == 3 || n == 4 || n == 6 || n == 8) {
            assert(colour_digits(input@).len() == n);
            assert(parsed_colour(input@) is None);
            return None;
        }
        let mut k = s;
        while k < end
            invariant
                s <= k <= end <= chars@.len(),
                d == chars@.subrange(s as int, end as int),
                d == colour_digits(input@),
                d.len() == 3 || d.len() == 4 || d.len() == 6 || d.len() == 8,
                forall|i: int| 0 <= i < k - s ==> is_hex_digit(#[trigger] d[i]),
            decreases end - k,
        {
            if !is_hex(chars[k]) {
                assert(!is_hex_digit(d[k - s]));
                return None;
            }
            k = k + 1;
        }
        if n <= 4 {
            let r = hex_value(chars[s]) * 17;
            let g = hex_value(chars[s + 1]) * 17;
            let b = hex_value(chars[s + 2]) * 17;
            let a = if n == 4 {
                hex_value(chars[s + 3]) * 17
            } else {
                255
            };
            Some(Rgba { r, g, b, a })
        } else {
            let r = hex_value(chars[s]) * 16 + hex_value(chars[s + 1]);
            let g = hex_value(chars[s + 2]) * 16 + hex_value(chars[s + 3]);
            let b = hex_value(chars[s + 4]) * 16 + hex_value(chars[s + 5]);
            let a = if n == 8 {
                hex_value(chars[s + 6]) * 16 + hex_value(chars[s + 7])
            } else {
                255
            };
            Some(Rgba { r, g, b, a })
        }
    }

    /// The colour as `#RRGGBB`, or `#RRGGBBAA` when it is not fully opaque,
    /// with upper-case digits.
    pub fn hex(self) -> (out: String)
        ensures
            out@ == colour_text(self),
    {
        let mut out = String::new();
        push_char(&mut out, '#');
        push_byte(&mut out, self.r);
        push_byte(&mut out, self.g);
        push_byte(&mut out, self.b);
        if self.a != 255 {
            push_byte(&mut out, self.a);
        }
        assert(out@ =~= colour_text(self));
        out
    }
}

/// A colour is written as `#` and upper-case hexadecimal digits: six of
/// them when it is opaque, eight when it is not.
pub proof fn lemma_colour_text_shape(c: Rgba)
    ensures
        colour_text(c)[0] == '#',
        c.a == 255 ==> colour_text(c).len() == 7,
        c.a != 255 ==> colour_text(c).len() == 9,
        forall|i: int|
            1 <= i < colour_text(c).len() ==> ('0' <= #[trigger] colour_text(c)[i] <= '9') || ('A'
                <= colour_text(c)[i] <= 'F'),
{
    let t = colour_text(c);
    assert forall|x: u8, j: int| 0 <= j < 2 implies ('0' <= #[trigger] byte_text(x)[j] <= '9') || (
    'A' <= byte_text(x)[j] <= 'F') by {
        lemma_upper_hex_round_trip(x as int / 16);
        lemma_upper_hex_round_trip(x as int % 16);
    }
    assert forall|i: int| 1 <= i < t.len() implies ('0' <= #[trigger] t[i] <= '9') || ('A' <= t[i]
        <= 'F') by {
        let k = (i - 1) / 2;
        let x = if k == 0 {
            c.r
        } else if k == 1 {
            c.g
        } else if k == 2 {
            c.b
        } else {
            c.a
        };
        assert(t[i] == byte_text(x)[(i - 1) % 2]);
    }
}

/// Writing a colour with [`Rgba::hex`] and reading it back with
/// [`Rgba::parse_hex`] gives the same colour.
pub proof fn lemma_hex_round_trip(c: Rgba)
    ensures
        parsed_colour(colour_text(c)) == Some(c),
{
    let t = colour_text(c);
    assert forall|x: u8| #![auto]
        {
            &&& is_hex_digit(byte_text(x)[0])
            &&& is_hex_digit(byte_text(x)[1])
            &&& !is_white_space(byte_text(x)[0])
            &&& !is_white_space(byte_text(x)[1])
            &&& 16 * hex_digit_value(byte_text(x)[0]) + hex_digit_value(byte_text(x)[1]) == x
        } by {
        lemma_upper_hex_round_trip(x as int / 16);
        lemma_upper_hex_round_trip(x as int % 16);
    }
    assert forall|i: int| 0 <= i < t.len() implies !is_white_space(#[trigger] t[i]) by {
        if i > 0 {
            let k = (i - 1) / 2;
            let x = if k == 0 {
                c.r
            } else if k == 1 {
                c.g
            } else if k == 2 {
                c.b
            } else {
                c.a
            };
            assert(t[i] == byte_text(x)[(i - 1) % 2]);
        }
    }
    lemma_no_white_space_trimmed(t);
    let d = colour_digits(t);
    assert(d =~= t.drop_first());
    assert forall|i: int| 0 <= i < d.len() implies is_hex_digit(#[trigger] d[i]) by {
        let k = i / 2;
        let x = if k == 0 {
            c.r
        } else if k == 1 {
            c.g
        } else if k == 2 {
            c.b
        } else {
            c.a
        };
        assert(d[i] == byte_text(x)[i % 2]);
    }
    assert(pair_value(d, 0) == c.r);
    assert(pair_value(d, 2) == c.g);
    assert(pair_value(d, 4) == c.b);
    if c.a != 255 {
        assert(pair_value(d, 6) == c.a);
    }
}

pub(crate) proof fn lemma_digits_read_alike(d: Seq<char>)
    requires
        forall|i: int| 0 <= i < d.len() ==> is_hex_digit(#[trigger] d[i]),
    ensures
        colour_digits(d) == d,
        colour_digits(seq!['#'] + d) == d,
{
    assert forall|i: int| 0 <= i < d.len() implies !is_white_space(#[trigger] d[i]) && d[i] != '#' by {
        assert(is_hex_digit(d[i]));
    }
    lemma_no_white_space_trimmed(d);
    let h = seq!['#'] + d;
    assert forall|i: int| 0 <= i < h.len() implies !is_white_space(#[trigger] h[i]) by {
        if i > 0 {
            assert(h[i] == d[i - 1]);
        }
    }
    lemma_no_white_space_trimmed(h);
    assert(h.drop_first() =~= d);
}

/// The leading `#` is optional, and a short spelling stands for the long
/// one with every digit doubled: `#RGB` is `#RRGGBB` and `#RGBA` is
/// `#RRGGBBAA`; a spelling without alpha is opaque, as if it ended in `FF`.
pub proof fn lemma_spellings_agree(r: char, g: char, b: char, a: char)
    requires
        is_hex_digit(r),
        is_hex_digit(g),
        is_hex_digit(b),
        is_hex_digit(a),
    ensures
        parsed_colour(seq![r, g, b]) == parsed_colour(seq!['#', r, g, b]),
        parsed_colour(seq!['#', r, g, b]) == parsed_colour(seq!['#', r, r, g, g, b, b]),
        parsed_colour(seq!['#', r, g, b, a]) == parsed_colour(seq!['#', r, r, g, g, b, b, a, a]),
        parsed_colour(seq!['#', r, r, g, g, b, b]) == parsed_colour(
            seq!['#', r, r, g, g, b, b, 'F', 'F'],
        ),
        parsed_colour(seq!['#', r, g, b]) matches Some(c) && c.a == 255,
{
    let short = seq![r, g, b];
    let short_a = seq![r, g, b, a];
    let long = seq![r, r, g, g, b, b];
    let long_a = seq![r, r, g, g, b, b, a, a];
    let long_f = seq![r, r, g, g, b, b, 'F', 'F'];
    lemma_digits_read_alike(short);
    lemma_digits_read_alike(short_a);
    lemma_digits_read_alike(long);
    lemma_digits_read_alike(long_a);
    lemma_digits_read_alike(long_f);
    assert(seq!['#'] + short =~= seq!['#', r, g, b]);
    assert(seq!['#'] + short_a =~= seq!['#', r, g, b, a]);
    assert(seq!['#'] + long =~= seq!['#', r, r, g, g, b, b]);
    assert(seq!['#'] + long_a =~= seq!['#', r, r, g, g, b, b, a, a]);
    assert(seq!['#'] + long_f =~= seq!['#', r, r, g, g, b, b, 'F', 'F']);
    assert(pair_value(long, 0) == 17 * hex_digit_value(r));
    assert(pair_value(long, 2) == 17 * hex_digit_value(g));
    assert(pair_value(long, 4) == 17 * hex_digit_value(b));
    assert(pair_value(long_a, 6) == 17 * hex_digit_value(a));
    assert(pair_value(long_f, 6) == 255);
}

/// White space around a spelling is ignored.
pub proof fn lemma_surrounding_space_ignored(before: Seq<char>, spelling: Seq<char>, after: Seq<char>)
    requires
        forall|i: int| 0 <= i < before.len() ==> is_white_space(#[trigger] before[i]),
        forall|i: int| 0 <= i < after.len() ==> is_white_space(#[trigger] after[i]),
        forall|i: int| 0 <= i < spelling.len() ==> !is_white_space(#[trigger] spelling[i]),
    ensures
        parsed_colour(before + spelling + after) == parsed_colour(spelling),
{
    if spelling.len() > 0 {
        assert(!is_white_space(spelling[spelling.len() - 1]));
    }
    lemma_trimmed_removes_surrounding_space(before, spelling, after);
    lemma_no_white_space_trimmed(spelling);
}

proof fn lemma_no_white_space_trimmed(t: Seq<char>)
    requires
        forall|i: int| 0 <= i < t.len() ==> !is_white_space(#[trigger] t[i]),
    ensures
        trimmed(t) == t,
{
    if t.len() > 0 {
        assert(!is_white_space(t[0]));
        assert(!is_white_space(t.last()));
    }
}

} // verus!
