//! One character of a URL component: a safe character as it is, or an unsafe
//! one as its escape sequence.

use vstd::prelude::*;
use vstd::string::StringExecFns;
use proptest::test_runner::TestRng;
use crate::request_line::character_class::CharacterClass;
use crate::request_line::code_points::{
    lemma_canonical_bound, lemma_increasing_bound, CodePointRange, FIRST_SCALAR,
};
use crate::request_line::percent::{
    lemma_percent_groups_decoded, lemma_percent_round_trip, percent_encode, percent_encoded,
    percent_groups, utf8_of,
};
use crate::request_line::source::{
    draw_count, draw_index, draw_u32, draw_weighted, total_weight,
};
use crate::request_line::text::{free_of, hex_digit_value, push_char};

verus! {

/// `ALPHA / DIGIT / "-" / "." / "_" / "~"`
pub open spec fn is_unreserved(c: char) -> bool {
    ||| 'a' <= c <= 'z'
    ||| 'A' <= c <= 'Z'
    ||| '0' <= c <= '9'
    ||| c == '-'
    ||| c == '.'
    ||| c == '_'
    ||| c == '~'
}

/// `"!" / "$" / "&" / "'" / "(" / ")" / "*" / "+" / "," / ";" / "="`
pub open spec fn is_sub_delim(c: char) -> bool {
    ||| c == '!'
    ||| c == '$'
    ||| c == '&'
    ||| c == '\''
    ||| c == '('
    ||| c == ')'
    ||| c == '*'
    ||| c == '+'
    ||| c == ','
    ||| c == ';'
    ||| c == '='
}

/// What one more element does to the elements of a sequence.
pub proof fn lemma_contains_push(s: Seq<char>, pushed: char, c: char)
    ensures
        s.push(pushed).contains(c) <==> s.contains(c) || c == pushed,
{
    let longer = s.push(pushed);
    if s.contains(c) {
        let i = choose|i: int| 0 <= i < s.len() && s[i] == c;
        assert(longer[i] == c);
    }
    if c == pushed {
        assert(longer[s.len() as int] == c);
    }
    if longer.contains(c) {
        let i = choose|i: int| 0 <= i < longer.len() && longer[i] == c;
        if i < s.len() {
            assert(s[i] == c);
        }
    }
}

/// Appends one character to a set under construction.
pub fn push_member(chars: &mut Vec<char>, member: char)
    ensures
        final(chars)@.len() == old(chars)@.len() + 1,
        forall|c: char|
            #[trigger] final(chars)@.contains(c) <==> old(chars)@.contains(c) || c == member,
{
    let ghost before = chars@;
    chars.push(member);
    proof {
        assert forall|c: char| chars@.contains(c) <==> before.contains(c) || c == member by {
            lemma_contains_push(before, member, c);
        }
    }
}

/// Appends the ASCII characters from `lo` to `hi` to a set under
/// construction.
pub fn push_members(chars: &mut Vec<char>, lo: u8, hi: u8)
    requires
        lo <= hi < 128,
    ensures
        final(chars)@.len() == old(chars)@.len() + (hi - lo + 1),
        forall|c: char|
            #[trigger] final(chars)@.contains(c) <==> old(chars)@.contains(c) || lo <= (c as int)
                <= hi,
{
    let ghost before = chars@;
    let mut next: u8 = lo;
    while next <= hi
        invariant
            lo <= next <= hi + 1,
            hi < 128,
            chars@.len() == before.len() + (next - lo),
            forall|c: char|
                #[trigger] chars@.contains(c) <==> before.contains(c) || lo <= (c as int) < next,
        decreases hi + 1 - next,
    {
        push_member(chars, next as char);
        next = next + 1;
    }
}

/// The unreserved characters.
pub fn unreserved_chars() -> (chars: Vec<char>)
    ensures
        chars@.len() == 66,
        forall|c: char| #[trigger] chars@.contains(c) <==> is_unreserved(c),
{
    let mut chars: Vec<char> = Vec::new();
    push_members(&mut chars, 97, 122);
    push_members(&mut chars, 65, 90);
    push_members(&mut chars, 48, 57);
    push_member(&mut chars, '-');
    push_member(&mut chars, '.');
    push_member(&mut chars, '_');
    push_member(&mut chars, '~');
    chars
}

/// Appends the sub-delimiters to a set under construction.
pub fn push_sub_delims(chars: &mut Vec<char>)
    ensures
        final(chars)@.len() == old(chars)@.len() + 11,
        forall|c: char|
            #[trigger] final(chars)@.contains(c) <==> old(chars)@.contains(c) || is_sub_delim(c),
{
    push_member(chars, '!');
    push_member(chars, '$');
    push_member(chars, '&');
    push_member(chars, '\'');
    push_member(chars, '(');
    push_member(chars, ')');
    push_member(chars, '*');
    push_member(chars, '+');
    push_member(chars, ',');
    push_member(chars, ';');
    push_member(chars, '=');
}

/// A generated character.
#[derive(Debug, Clone, PartialEq, Eq)]
pub enum UrlChar {
    /// A safe character, written as it is.
    Normal(char),
    /// The escape sequence of an unsafe character.
    PercentEncoded(String),
}

impl UrlChar {
    /// What the character adds to the text of its component.
    pub open spec fn text(&self) -> Seq<char> {
        match self {
            UrlChar::Normal(c) => seq![*c],
            UrlChar::PercentEncoded(escape) => escape@,
        }
    }
}

/// The texts of the characters, one after another.
pub open spec fn chars_text(chars: Seq<UrlChar>) -> Seq<char>
    decreases chars.len(),
{
    if chars.len() == 0 {
        seq![]
    } else {
        chars_text(chars.drop_last()) + chars.last().text()
    }
}

/// Renders the characters one after another: a safe one as itself, an escape
/// sequence as it stands.
pub fn url_chars_to_string(chars: Vec<UrlChar>) -> (text: String)
    ensures
        text@ == chars_text(chars@),
{
    let mut text = String::new();
    let mut i: usize = 0;
    while i < chars.len()
        invariant
            i <= chars.len(),
            text@ == chars_text(chars@.take(i as int)),
        decreases chars.len() - i,
    {
        proof {
            let next = chars@.take(i + 1);
            assert(next.drop_last() =~= chars@.take(i as int));
            assert(next.last() == chars@[i as int]);
        }
        match &chars[i] {
            UrlChar::Normal(c) => push_char(&mut text, *c),
            UrlChar::PercentEncoded(escape) => text.append(escape.as_str()),
        }
        i = i + 1;
    }
    proof {
        assert(chars@.take(chars.len() as int) =~= chars@);
    }
    text
}

/// The generated character is one of a component whose safe characters are
/// those that `is_safe` holds of: a safe character as itself, or the escape
/// sequence of a character that is not safe.
pub open spec fn generated_from(is_safe: spec_fn(char) -> bool, generated: UrlChar) -> bool {
    match generated {
        UrlChar::Normal(c) => is_safe(c),
        UrlChar::PercentEncoded(escape) => exists|c: char|
            !is_safe(c) && escape@ == #[trigger] percent_encoded(c),
    }
}

/// Every character of the sequence is one of the component.
pub open spec fn all_generated_from(is_safe: spec_fn(char) -> bool, chars: Seq<UrlChar>) -> bool {
    forall|i: int| 0 <= i < chars.len() ==> generated_from(is_safe, #[trigger] chars[i])
}

/// The text is that of `min` to `max` generated characters of the component,
/// one after another.
pub open spec fn is_component_text(
    is_safe: spec_fn(char) -> bool,
    text: Seq<char>,
    min: int,
    max: int,
) -> bool {
    exists|chars: Seq<UrlChar>|
        min <= chars.len() <= max && all_generated_from(is_safe, chars) && text
            == #[trigger] chars_text(chars)
}

/// Which character of a class to produce.
#[derive(Debug, Clone, Copy, PartialEq, Eq)]
pub enum CharChoice {
    /// The safe character at `index`, in ascending order.
    Safe { index: usize },
    /// The unsafe character at `offset` in the range at `range`.
    Unsafe { range: usize, offset: u32 },
}

/// Of a hundred characters, how many are safe ones on average.
pub const SAFE_WEIGHT: u32 = 98;

/// Of a hundred characters, how many are escape sequences on average.
pub const UNSAFE_WEIGHT: u32 = 2;

impl CharacterClass {
    /// The choice names a character of the class.
    pub open spec fn admits(&self, choice: CharChoice) -> bool {
        match choice {
            CharChoice::Safe { index } => index < self.safe().len(),
            CharChoice::Unsafe { range, offset } => range < self.unsafe_ranges().len() && offset
                < self.unsafe_ranges()[range as int].size(),
        }
    }

    /// The generated character is one of the class: a safe character as
    /// itself, or the escape sequence of an unsafe one.
    pub open spec fn generates(&self, generated: UrlChar) -> bool {
        generated_from(|c: char| self.is_safe(c), generated)
    }

    /// The character that `choice` names: a safe one as it is, an unsafe one
    /// percent-encoded.
    pub fn url_char_from(&self, choice: CharChoice) -> (generated: UrlChar)
        requires
            self.admits(choice),
        ensures
            match choice {
                CharChoice::Safe { index } => generated == UrlChar::Normal(
                    self.safe()[index as int],
                ),
                CharChoice::Unsafe { range, offset } => generated matches UrlChar::PercentEncoded(
                    escape,
                ) && escape@ == percent_encoded(
                    self.unsafe_ranges()[range as int].nth(offset as int),
                ),
            },
            self.generates(generated),
    {
        match choice {
            CharChoice::Safe { index } => {
                let c: char = self.safe_chars()[index];
                UrlChar::Normal(c)
            },
            CharChoice::Unsafe { range, offset } => {
                let unsafe_range: CodePointRange = self.ranges()[range];
                let c: char = unsafe_range.get(offset);
                proof {
                    assert(self.unsafe_ranges()[range as int].contains(c));
                    self.lemma_partition(c);
                }
                UrlChar::PercentEncoded(percent_encode(c))
            },
        }
    }

    /// The weights of the two kinds of character: the fixed ones, but zero
    /// for a kind of which the class has no character.
    pub fn weights(&self) -> (weights: Vec<u32>)
        ensures
            weights@ == seq![
                if self.safe().len() > 0 {
                    SAFE_WEIGHT
                } else {
                    0u32
                },
                if self.unsafe_ranges().len() > 0 {
                    UNSAFE_WEIGHT
                } else {
                    0u32
                },
            ],
    {
        let mut weights: Vec<u32> = Vec::new();
        weights.push(if self.safe_chars().len() > 0 { SAFE_WEIGHT } else { 0 });
        weights.push(if self.ranges().len() > 0 { UNSAFE_WEIGHT } else { 0 });
        assert(weights@ =~= seq![
            if self.safe().len() > 0 {
                SAFE_WEIGHT
            } else {
                0u32
            },
            if self.unsafe_ranges().len() > 0 {
                UNSAFE_WEIGHT
            } else {
                0u32
            },
        ]);
        weights
    }
}

/// Draws one character of the class: a safe one, each with the same chance,
/// or the escape sequence of an unsafe one, drawn by its range and then within
/// it. The two kinds have the chances that `CharacterClass::weights` gives
/// them, so a kind that the class lacks is never drawn.
pub fn safe_and_percent_encoded_char(rng: &mut TestRng, class: &CharacterClass) -> (generated:
    UrlChar)
    ensures
        class.generates(generated),
{
    let weights = class.weights();
    let ranges = class.ranges();
    proof {
        reveal_with_fuel(total_weight, 3);
        assert(weights@.drop_last() =~= seq![weights@[0]]);
        assert(weights@.drop_last().drop_last() =~= Seq::<u32>::empty());
        class.lemma_partition(FIRST_SCALAR);
        if class.safe().len() > 0 {
            lemma_increasing_bound(class.safe(), 0);
        }
        if class.unsafe_ranges().len() > 0 {
            lemma_canonical_bound(class.unsafe_ranges(), 0);
        }
    }
    let kind: usize = draw_weighted(rng, &weights);
    let choice: CharChoice = if kind == 0 {
        CharChoice::Safe { index: draw_index(rng, class.safe_chars().len()) }
    } else {
        let range: usize = draw_index(rng, ranges.len());
        let unsafe_range: CodePointRange = ranges[range];
        let offset: u32 = draw_u32(rng, 0, unsafe_range.len() - 1);
        CharChoice::Unsafe { range, offset }
    };
    class.url_char_from(choice)
}

/// Draws a number of characters from `min..=max`, then that many characters
/// of the class.
pub fn url_chars(rng: &mut TestRng, class: &CharacterClass, min: usize, max: usize) -> (chars:
    Vec<UrlChar>)
    requires
        min <= max,
    ensures
        min <= chars.len() <= max,
        all_generated_from(|c: char| class.is_safe(c), chars@),
{
    let count: usize = draw_count(rng, min, max);
    let mut chars: Vec<UrlChar> = Vec::new();
    while chars.len() < count
        invariant
            chars.len() <= count,
            all_generated_from(|c: char| class.is_safe(c), chars@),
        decreases count - chars.len(),
    {
        let generated = safe_and_percent_encoded_char(rng, class);
        chars.push(generated);
    }
    chars
}

/// Draws the text of a component: a number of characters from `min..=max`,
/// each drawn from the class, rendered one after another.
pub fn class_text(rng: &mut TestRng, class: &CharacterClass, min: usize, max: usize) -> (text:
    String)
    requires
        min <= max,
    ensures
        is_component_text(|c: char| class.is_safe(c), text@, min as int, max as int),
{
    let chars = url_chars(rng, class, min, max);
    let ghost drawn = chars@;
    let text = url_chars_to_string(chars);
    assert(text@ == chars_text(drawn));
    text
}

/// Two descriptions of one set of safe characters admit the same characters.
pub proof fn lemma_generated_from_same_set(
    is_safe: spec_fn(char) -> bool,
    same: spec_fn(char) -> bool,
    generated: UrlChar,
)
    requires
        forall|c: char| #[trigger] is_safe(c) <==> same(c),
        generated_from(is_safe, generated),
    ensures
        generated_from(same, generated),
{
    match generated {
        UrlChar::Normal(c) => {},
        UrlChar::PercentEncoded(escape) => {
            let c = choose|c: char| !is_safe(c) && escape@ == #[trigger] percent_encoded(c);
            assert(!same(c) && escape@ == percent_encoded(c));
        },
    }
}

/// Two descriptions of one set of safe characters admit the same texts.
pub proof fn lemma_component_text_same_set(
    is_safe: spec_fn(char) -> bool,
    same: spec_fn(char) -> bool,
    text: Seq<char>,
    min: int,
    max: int,
)
    requires
        forall|c: char| #[trigger] is_safe(c) <==> same(c),
        is_component_text(is_safe, text, min, max),
    ensures
        is_component_text(same, text, min, max),
{
    let chars = choose|chars: Seq<UrlChar>|
        min <= chars.len() <= max && all_generated_from(is_safe, chars) && text
            == #[trigger] chars_text(chars);
    assert forall|i: int| 0 <= i < chars.len() implies generated_from(
        same,
        #[trigger] chars[i],
    ) by {
        lemma_generated_from_same_set(is_safe, same, chars[i]);
    }
    assert(text == chars_text(chars));
}

/// An escape sequence is made of `%` and hexadecimal digits alone.
pub proof fn lemma_percent_groups_chars(bytes: Seq<u8>, i: int)
    requires
        0 <= i < percent_groups(bytes).len(),
    ensures
        percent_groups(bytes)[i] == '%' || hex_digit_value(percent_groups(bytes)[i]) is Some,
    decreases bytes.len(),
{
    if bytes.len() > 0 {
        let init = percent_groups(bytes.drop_last());
        if i < init.len() {
            lemma_percent_groups_chars(bytes.drop_last(), i);
        }
    }
}

/// A generated character adds at least one character to the text, and none
/// that is neither safe, nor `%`, nor a hexadecimal digit.
pub proof fn lemma_generated_text(is_safe: spec_fn(char) -> bool, generated: UrlChar, i: int)
    requires
        generated_from(is_safe, generated),
        0 <= i < generated.text().len(),
    ensures
        is_safe(generated.text()[i]) || generated.text()[i] == '%' || hex_digit_value(
            generated.text()[i],
        ) is Some,
{
    match generated {
        UrlChar::Normal(c) => {},
        UrlChar::PercentEncoded(escape) => {
            let c = choose|c: char| !is_safe(c) && escape@ == #[trigger] percent_encoded(c);
            lemma_percent_groups_chars(utf8_of(c), i);
        },
    }
}

/// A generated character adds at least one character to the text.
pub proof fn lemma_generated_text_nonempty(is_safe: spec_fn(char) -> bool, generated: UrlChar)
    requires
        generated_from(is_safe, generated),
    ensures
        generated.text().len() >= 1,
{
    match generated {
        UrlChar::Normal(c) => {},
        UrlChar::PercentEncoded(escape) => {
            let c = choose|c: char| !is_safe(c) && escape@ == #[trigger] percent_encoded(c);
            lemma_percent_round_trip(c);
            lemma_percent_groups_decoded(utf8_of(c));
        },
    }
}

/// The text of generated characters holds only safe characters, `%` and
/// hexadecimal digits, and is at least as long as there are characters.
pub proof fn lemma_chars_text(is_safe: spec_fn(char) -> bool, chars: Seq<UrlChar>)
    requires
        all_generated_from(is_safe, chars),
    ensures
        chars_text(chars).len() >= chars.len(),
        forall|i: int|
            0 <= i < chars_text(chars).len() ==> is_safe(#[trigger] chars_text(chars)[i])
                || chars_text(chars)[i] == '%' || hex_digit_value(chars_text(chars)[i]) is Some,
    decreases chars.len(),
{
    if chars.len() > 0 {
        let init = chars.drop_last();
        assert forall|i: int| 0 <= i < init.len() implies generated_from(
            is_safe,
            #[trigger] init[i],
        ) by {
            assert(init[i] == chars[i]);
        }
        lemma_chars_text(is_safe, init);
        lemma_generated_text_nonempty(is_safe, chars.last());
        let text = chars_text(chars);
        let head = chars_text(init);
        assert forall|i: int| 0 <= i < text.len() implies is_safe(#[trigger] text[i]) || text[i]
            == '%' || hex_digit_value(text[i]) is Some by {
            if i < head.len() {
                assert(text[i] == head[i]);
            } else {
                assert(text[i] == chars.last().text()[i - head.len()]);
                lemma_generated_text(is_safe, chars.last(), i - head.len());
            }
        }
    }
}

/// The text of a component is free of every character that is neither safe
/// there, nor `%`, nor a hexadecimal digit; and it is at least `min` long.
pub proof fn lemma_component_text_free_of(
    is_safe: spec_fn(char) -> bool,
    text: Seq<char>,
    min: int,
    max: int,
    other: char,
)
    requires
        is_component_text(is_safe, text, min, max),
        !is_safe(other),
        other != '%',
        hex_digit_value(other) is None,
    ensures
        free_of(text, other),
        text.len() >= min,
{
    let chars = choose|chars: Seq<UrlChar>|
        min <= chars.len() <= max && all_generated_from(is_safe, chars) && text
            == #[trigger] chars_text(chars);
    lemma_chars_text(is_safe, chars);
}

} // verus!
