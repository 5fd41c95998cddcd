//! URL scheme.

use vstd::prelude::*;
use proptest::test_runner::TestRng;
use crate::request_line::source::{draw_bool, draw_index};
use crate::request_line::target::components::host::domain::{
    alphanumeric_at, alphanumeric_from, is_alphanumeric, is_letter, letter_from,
};
use crate::request_line::text::{lower, push_char};

verus! {

/// The text with its capital ASCII letters made small.
pub open spec fn lowered(text: Seq<char>) -> Seq<char> {
    text.map_values(|c: char| lower(c))
}

/// The text is `http` or `https`, in any mix of small and capital letters.
pub open spec fn is_http_scheme(text: Seq<char>) -> bool {
    lowered(text) == seq!['h', 't', 't', 'p'] || lowered(text) == seq!['h', 't', 't', 'p', 's']
}

/// The small or the capital form of a small ASCII letter.
pub open spec fn cased(small: char, capital: bool) -> char {
    if capital {
        (small as int - 32) as char
    } else {
        small
    }
}

fn cased_letter(small: u8, capital: bool) -> (c: char)
    requires
        97 <= small <= 122,
    ensures
        c == cased(small as char, capital),
        lower(c) == small as char,
{
    if capital {
        (small - 32) as char
    } else {
        small as char
    }
}

/// `http`, or `https` where `secure` holds, each letter a capital where
/// `capitals` says so; the fifth of them speaks of the `s`.
pub fn http_scheme_from(capitals: [bool; 5], secure: bool) -> (scheme: String)
    ensures
        scheme@ == seq![
            cased('h', capitals@[0]),
            cased('t', capitals@[1]),
            cased('t', capitals@[2]),
            cased('p', capitals@[3]),
        ] + if secure {
            seq![cased('s', capitals@[4])]
        } else {
            seq![]
        },
        is_http_scheme(scheme@),
{
    let mut scheme = String::new();
    push_char(&mut scheme, cased_letter(104, capitals[0]));
    push_char(&mut scheme, cased_letter(116, capitals[1]));
    push_char(&mut scheme, cased_letter(116, capitals[2]));
    push_char(&mut scheme, cased_letter(112, capitals[3]));
    if secure {
        push_char(&mut scheme, cased_letter(115, capitals[4]));
    }
    proof {
        let plain = seq![
            cased('h', capitals@[0]),
            cased('t', capitals@[1]),
            cased('t', capitals@[2]),
            cased('p', capitals@[3]),
        ];
        if secure {
            assert(scheme@ =~= plain + seq![cased('s', capitals@[4])]);
            assert(lowered(scheme@) =~= seq!['h', 't', 't', 'p', 's']);
        } else {
            assert(scheme@ =~= plain + Seq::<char>::empty());
            assert(lowered(scheme@) =~= seq!['h', 't', 't', 'p']);
        }
    }
    scheme
}

/// Draws the scheme of HTTP or of HTTPS, with each letter small or capital.
pub fn http_scheme(rng: &mut TestRng) -> (scheme: String)
    ensures
        is_http_scheme(scheme@),
{
    let capitals: [bool; 5] = [
        draw_bool(rng),
        draw_bool(rng),
        draw_bool(rng),
        draw_bool(rng),
        draw_bool(rng),
    ];
    let secure: bool = draw_bool(rng);
    http_scheme_from(capitals, secure)
}

/// A letter, a digit, `+`, `-` or `.`: what a scheme holds after its first
/// letter.
pub open spec fn is_scheme_char(c: char) -> bool {
    is_alphanumeric(c) || c == '+' || c == '-' || c == '.'
}

/// The text is a scheme as the generator makes them: a letter, then one
/// character of those that may follow it.
pub open spec fn is_any_scheme(text: Seq<char>) -> bool {
    text.len() == 2 && is_letter(text[0]) && is_scheme_char(text[1])
}

/// The character of a scheme with the given number: the 62 letters and
/// digits, then `+`, `-` and `.`.
pub fn scheme_char_from(index: u8) -> (c: char)
    requires
        index < 65,
    ensures
        c == if index < 62 {
            alphanumeric_at(index as int)
        } else if index == 62 {
            '+'
        } else if index == 63 {
            '-'
        } else {
            '.'
        },
        is_scheme_char(c),
{
    if index < 62 {
        alphanumeric_from(index)
    } else if index == 62 {
        '+'
    } else if index == 63 {
        '-'
    } else {
        '.'
    }
}

/// The scheme of the two characters.
pub fn any_scheme_from(first: char, second: char) -> (scheme: String)
    ensures
        scheme@ == seq![first, second],
{
    let mut scheme = String::new();
    push_char(&mut scheme, first);
    push_char(&mut scheme, second);
    assert(scheme@ =~= seq![first, second]);
    scheme
}

/// Draws any valid scheme of two characters.
pub fn any_scheme(rng: &mut TestRng) -> (scheme: String)
    ensures
        is_any_scheme(scheme@),
{
    let first: char = letter_from(draw_index(rng, 52) as u8);
    let second: char = scheme_char_from(draw_index(rng, 65) as u8);
    any_scheme_from(first, second)
}

} // verus!
