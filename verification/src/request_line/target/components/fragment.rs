//! URL fragment.

use vstd::prelude::*;
use proptest::test_runner::TestRng;
use crate::request_line::character_class::CharacterClass;
use crate::request_line::target::components::CharacterClasses;
use crate::request_line::url_char::{
    class_text, is_component_text, is_sub_delim, is_unreserved, lemma_component_text_same_set,
    push_member, push_sub_delims, unreserved_chars,
};

verus! {

/// `unreserved / sub-delims / ":" / "@" / "/" / "?"`: what a fragment holds
/// as it is.
pub open spec fn is_fragment_char(c: char) -> bool {
    is_unreserved(c) || is_sub_delim(c) || c == ':' || c == '@' || c == '/' || c == '?'
}

/// The class of the characters of a fragment.
pub fn fragment_class() -> (class: CharacterClass)
    ensures
        class.wf(),
        forall|c: char| #[trigger] class.is_safe(c) <==> is_fragment_char(c),
{
    let mut safe = unreserved_chars();
    push_sub_delims(&mut safe);
    push_member(&mut safe, ':');
    push_member(&mut safe, '@');
    push_member(&mut safe, '/');
    push_member(&mut safe, '?');
    CharacterClass::new(safe.as_slice())
}

/// A fragment has no more generated characters than this.
pub const FRAGMENT_CHARS: usize = 125;

/// The text is a fragment as the generator makes them.
pub open spec fn is_fragment(text: Seq<char>) -> bool {
    is_component_text(|c: char| is_fragment_char(c), text, 0, FRAGMENT_CHARS as int)
}

/// Draws a URL fragment.
pub fn fragment(rng: &mut TestRng, classes: &CharacterClasses) -> (text: String)
    ensures
        is_fragment(text@),
{
    let class = classes.fragment();
    let text = class_text(rng, class, 0, FRAGMENT_CHARS);
    proof {
        lemma_component_text_same_set(
            |c: char| class.is_safe(c),
            |c: char| is_fragment_char(c),
            text@,
            0,
            FRAGMENT_CHARS as int,
        );
    }
    text
}

} // verus!
