//! A single unreserved character.

use vstd::prelude::*;
use proptest::test_runner::TestRng;
use crate::request_line::source::draw_index;
use crate::request_line::text::push_char;
use crate::request_line::url_char::{is_unreserved, unreserved_chars};

verus! {

/// Draws one unreserved character, each with the same chance.
pub fn unreserved(rng: &mut TestRng) -> (text: String)
    ensures
        text@.len() == 1,
        is_unreserved(text@[0]),
{
    let chars = unreserved_chars();
    let index: usize = draw_index(rng, chars.len());
    let c: char = chars[index];
    proof {
        assert(chars@.contains(c));
    }
    let mut text = String::new();
    push_char(&mut text, c);
    text
}

} // verus!
