//! The escape encoding used to paint single characters: an RGB foreground
//! prefix, the character, and a foreground reset, written digit by digit so
//! that the emitted bytes are pinned down exactly.
use vstd::prelude::*;
use vstd::arithmetic::div_mod::lemma_div_denominator;

use crate::color::Rgb;

verus! {

/// The decimal digit character for `d`.
pub open spec fn digit_char(d: nat) -> char {
    if d == 0 {
        '0'
    } else if d == 1 {
        '1'
    } else if d == 2 {
        '2'
    } else if d == 3 {
        '3'
    } else if d == 4 {
        '4'
    } else if d == 5 {
        '5'
    } else if d == 6 {
        '6'
    } else if d == 7 {
        '7'
    } else if d == 8 {
        '8'
    } else {
        '9'
    }
}

/// The decimal digits of `n`, most significant first, without leading
/// zeros.
pub open spec fn dec_digits(n: nat) -> Seq<char>
    decreases n,
{
    if n < 10 {
        seq![digit_char(n)]
    } else {
        dec_digits(n / 10).push(digit_char(n % 10))
    }
}

/// The escape prefix that sets an RGB foreground color.
pub open spec fn color_prefix(r: u8, g: u8, b: u8) -> Seq<char> {
    seq!['\u{1b}', '[', '3', '8', ';', '2', ';'] + dec_digits(r as nat) + seq![';'] + dec_digits(
        g as nat,
    ) + seq![';'] + dec_digits(b as nat) + seq!['m']
}

/// The escape that resets the foreground color.
pub open spec fn color_reset() -> Seq<char> {
    seq!['\u{1b}', '[', '3', '9', 'm']
}

/// One painted cell: prefix, the character, reset.
pub open spec fn styled_cell(c: Rgb, ch: char) -> Seq<char> {
    color_prefix(c.r, c.g, c.b) + seq![ch] + color_reset()
}

/// The escape that clears the cursor's line.
pub open spec fn clear_line_seq() -> Seq<char> {
    seq!['\u{1b}', '[', '2', 'K']
}

fn push_digit(v: &mut Vec<char>, d: u8)
    requires
        d < 10,
    ensures
        final(v)@ == old(v)@.push(digit_char(d as nat)),
{
    let c = match d {
        0 => '0',
        1 => '1',
        2 => '2',
        3 => '3',
        4 => '4',
        5 => '5',
        6 => '6',
        7 => '7',
        8 => '8',
        _ => '9',
    };
    v.push(c);
}

/// Appends the decimal digits of `n`.
pub fn push_dec(v: &mut Vec<char>, n: u8)
    ensures
        final(v)@ == old(v)@ + dec_digits(n as nat),
{
    if n >= 100 {
        proof {
            lemma_div_denominator(n as int, 10, 10);
            assert(dec_digits(n as nat) == dec_digits(n as nat / 10).push(
                digit_char(n as nat % 10),
            ));
            assert(dec_digits(n as nat / 10) == dec_digits(n as nat / 100).push(
                digit_char((n as nat / 10) % 10),
            ));
        }
        push_digit(v, n / 100);
        push_digit(v, (n / 10) % 10);
        push_digit(v, n % 10);
        proof {
            assert(final(v)@ =~= old(v)@ + dec_digits(n as nat));
        }
    } else if n >= 10 {
        proof {
            assert(dec_digits(n as nat) == dec_digits(n as nat / 10).push(
                digit_char(n as nat % 10),
            ));
            assert(dec_digits(n as nat / 10) == seq![digit_char(n as nat / 10)]);
        }
        push_digit(v, n / 10);
        push_digit(v, n % 10);
        proof {
            assert(final(v)@ =~= old(v)@ + dec_digits(n as nat));
        }
    } else {
        push_digit(v, n);
        proof {
            assert(final(v)@ =~= old(v)@ + dec_digits(n as nat));
        }
    }
}

/// Appends the decimal digits of a wide count.
pub fn push_udec(v: &mut Vec<char>, n: u128)
    ensures
        final(v)@ == old(v)@ + dec_digits(n as nat),
    decreases n,
{
    if n < 10 {
        push_digit(v, n as u8);
        proof {
            assert(final(v)@ =~= old(v)@ + dec_digits(n as nat));
        }
    } else {
        push_udec(v, n / 10);
        push_digit(v, (n % 10) as u8);
        proof {
            assert(final(v)@ =~= old(v)@ + dec_digits(n as nat));
        }
    }
}

/// Appends one painted cell.
pub fn push_styled(v: &mut Vec<char>, color: Rgb, ch: char)
    ensures
        final(v)@ == old(v)@ + styled_cell(color, ch),
{
    v.push('\u{1b}');
    v.push('[');
    v.push('3');
    v.push('8');
    v.push(';');
    v.push('2');
    v.push(';');
    push_dec(v, color.r);
    v.push(';');
    push_dec(v, color.g);
    v.push(';');
    push_dec(v, color.b);
    v.push('m');
    v.push(ch);
    v.push('\u{1b}');
    v.push('[');
    v.push('3');
    v.push('9');
    v.push('m');
    proof {
        assert(final(v)@ =~= old(v)@ + styled_cell(color, ch));
    }
}

/// Appends the clear-line escape.
pub fn push_clear_line(v: &mut Vec<char>)
    ensures
        final(v)@ == old(v)@ + clear_line_seq(),
{
    v.push('\u{1b}');
    v.push('[');
    v.push('2');
    v.push('K');
    proof {
        assert(final(v)@ =~= old(v)@ + clear_line_seq());
    }
}

/// Relies on `String`'s `FromIterator<char>`: the collected string holds
/// exactly the characters of the vector, in order.
#[verifier::external_body]
pub(crate) fn chars_to_string(v: &Vec<char>) -> (s: String)
    ensures
        s@ == v@,
{
    v.iter().collect()
}

} // verus!
