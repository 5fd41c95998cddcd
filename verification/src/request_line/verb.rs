//! HTTP request verb.

use vstd::prelude::*;
use vstd::string::{StrSliceExecFns, StringExecFns};
use proptest::test_runner::TestRng;
use crate::request_line::code_points::{CodePointRange, FIRST_SCALAR, LAST_SCALAR};
use crate::request_line::source::{draw_count, draw_u32, draw_index};
use crate::request_line::text::{lower, push_char, upper};

verus! {

/// `GET`: transfer a current representation of the target resource.
pub const GET_VERB: &'static str = "GET";

/// `HEAD`: same as GET, but do not transfer the response content.
pub const HEAD_VERB: &'static str = "HEAD";

/// `POST`: perform resource-specific processing on the request content.
pub const POST_VERB: &'static str = "POST";

/// `PUT`: replace all current representations of the target resource with the request
/// content.
pub const PUT_VERB: &'static str = "PUT";

/// `DELETE`: remove all current representations of the target resource.
pub const DELETE_VERB: &'static str = "DELETE";

/// `CONNECT`: establish a tunnel to the server identified by the target resource.
pub const CONNECT_VERB: &'static str = "CONNECT";

/// `OPTIONS`: describe the communication options for the target resource.
pub const OPTIONS_VERB: &'static str = "OPTIONS";

/// `TRACE`: perform a message loop-back test along the path to the target resource.
pub const TRACE_VERB: &'static str = "TRACE";

/// `PATCH`: apply partial modifications to a resource.
pub const PATCH_VERB: &'static str = "PATCH";

/// How many verbs there are.
pub const VERB_COUNT: usize = 9;

/// The verb with the given number, from nought to eight.
pub open spec fn verb_text(index: int) -> Seq<char> {
    if index == 0 {
        seq!['G', 'E', 'T']
    } else if index == 1 {
        seq!['H', 'E', 'A', 'D']
    } else if index == 2 {
        seq!['P', 'O', 'S', 'T']
    } else if index == 3 {
        seq!['P', 'U', 'T']
    } else if index == 4 {
        seq!['D', 'E', 'L', 'E', 'T', 'E']
    } else if index == 5 {
        seq!['C', 'O', 'N', 'N', 'E', 'C', 'T']
    } else if index == 6 {
        seq!['O', 'P', 'T', 'I', 'O', 'N', 'S']
    } else if index == 7 {
        seq!['T', 'R', 'A', 'C', 'E']
    } else {
        seq!['P', 'A', 'T', 'C', 'H']
    }
}

/// The text is one of the verbs, in capital letters as they are.
pub open spec fn is_http_verb(text: Seq<char>) -> bool {
    exists|index: int| 0 <= index < VERB_COUNT && text == #[trigger] verb_text(index)
}

/// The verb with the given number as a string slice.
pub fn verb_at(index: usize) -> (verb: &'static str)
    requires
        index < VERB_COUNT,
    ensures
        verb@ == verb_text(index as int),
{
    proof {
        reveal_strlit("GET");
        reveal_strlit("HEAD");
        reveal_strlit("POST");
        reveal_strlit("PUT");
        reveal_strlit("DELETE");
        reveal_strlit("CONNECT");
        reveal_strlit("OPTIONS");
        reveal_strlit("TRACE");
        reveal_strlit("PATCH");
    }
    let verb: &'static str = if index == 0 {
        GET_VERB
    } else if index == 1 {
        HEAD_VERB
    } else if index == 2 {
        POST_VERB
    } else if index == 3 {
        PUT_VERB
    } else if index == 4 {
        DELETE_VERB
    } else if index == 5 {
        CONNECT_VERB
    } else if index == 6 {
        OPTIONS_VERB
    } else if index == 7 {
        TRACE_VERB
    } else {
        PATCH_VERB
    };
    assert(verb@ =~= verb_text(index as int));
    verb
}

/// The verb with the given number, from nought to eight.
pub fn request_verb_from(index: usize) -> (verb: String)
    requires
        index < VERB_COUNT,
    ensures
        verb@ == verb_text(index as int),
        is_http_verb(verb@),
{
    String::from_str(verb_at(index))
}

/// Draws a correct HTTP request verb, each with the same chance.
pub fn request_verb(rng: &mut TestRng) -> (verb: String)
    ensures
        is_http_verb(verb@),
{
    request_verb_from(draw_index(rng, VERB_COUNT))
}

/// The text with its small ASCII letters made capital.
pub open spec fn uppered(text: Seq<char>) -> Seq<char> {
    text.map_values(|c: char| upper(c))
}

/// The text with the characters at the places that `small` marks made small.
pub open spec fn with_small_at(text: Seq<char>, small: Seq<bool>) -> Seq<char> {
    Seq::new(
        text.len(),
        |i: int|
            if small[i] {
                lower(text[i])
            } else {
                text[i]
            },
    )
}

/// Some place is marked.
pub open spec fn any_marked(small: Seq<bool>) -> bool {
    exists|i: int| 0 <= i < small.len() && #[trigger] small[i]
}

fn lower_char(c: char) -> (small: char)
    ensures
        small == lower(c),
{
    if 'A' <= c && c <= 'Z' {
        ((c as u8) + 32) as char
    } else {
        c
    }
}

/// The text with the characters at the places that `small` marks made small:
/// a verb in the wrong case, where the text is a verb and a place is marked.
pub fn request_verb_wrong_case_from(verb: &str, small: &Vec<bool>) -> (wrong: String)
    requires
        small.len() == verb@.len(),
    ensures
        wrong@ == with_small_at(verb@, small@),
{
    let mut wrong_case_verb = String::new();
    let count: usize = verb.unicode_len();
    let mut i: usize = 0;
    while i < count
        invariant
            i <= count,
            count == verb@.len(),
            small.len() == count,
            wrong_case_verb@ == with_small_at(verb@, small@).take(i as int),
        decreases count - i,
    {
        let c: char = verb.get_char(i);
        if small[i] {
            push_char(&mut wrong_case_verb, lower_char(c));
        } else {
            push_char(&mut wrong_case_verb, c);
        }
        i = i + 1;
        assert(wrong_case_verb@ =~= with_small_at(verb@, small@).take(i as int));
    }
    assert(wrong_case_verb@ =~= with_small_at(verb@, small@));
    wrong_case_verb
}

/// A verb is made of capital letters, three to seven of them.
pub proof fn lemma_verb_capitals(index: int)
    requires
        0 <= index < VERB_COUNT,
    ensures
        3 <= verb_text(index).len() <= 7,
        forall|k: int|
            0 <= k < verb_text(index).len() ==> 'A' <= #[trigger] verb_text(index)[k] <= 'Z',
{
}

/// HTTP verbs are case sensitive: a verb with a letter made small is no verb,
/// and differs from one only in case.
pub proof fn lemma_wrong_case_is_no_verb(index: int, small: Seq<bool>)
    requires
        0 <= index < VERB_COUNT,
        small.len() == verb_text(index).len(),
        any_marked(small),
    ensures
        !is_http_verb(with_small_at(verb_text(index), small)),
        uppered(with_small_at(verb_text(index), small)) == verb_text(index),
{
    let verb = verb_text(index);
    let wrong = with_small_at(verb, small);
    lemma_verb_capitals(index);
    assert(uppered(wrong) =~= verb);
    let at = choose|i: int| 0 <= i < small.len() && #[trigger] small[i];
    assert('a' <= wrong[at] <= 'z');
    assert forall|other: int| 0 <= other < VERB_COUNT implies wrong != #[trigger] verb_text(
        other,
    ) by {
        lemma_verb_capitals(other);
        if wrong.len() == verb_text(other).len() {
            assert('A' <= verb_text(other)[at] <= 'Z');
        }
    }
}

/// Two to the power of `n`.
pub open spec fn pow2(n: nat) -> nat
    decreases n,
{
    if n == 0 {
        1
    } else {
        2 * pow2((n - 1) as nat)
    }
}

/// The marks that the digits of `mask` in base two make, the lowest digit
/// first: a place is marked where the digit is one.
pub open spec fn marks_of(mask: nat, count: nat) -> Seq<bool>
    decreases count,
{
    if count == 0 {
        seq![]
    } else {
        seq![mask % 2 == 1] + marks_of(mask / 2, (count - 1) as nat)
    }
}

/// A mask that is not zero and has no more than `count` digits marks a place.
pub proof fn lemma_marks_of(mask: nat, count: nat)
    requires
        mask < pow2(count),
    ensures
        marks_of(mask, count).len() == count,
        mask > 0 ==> any_marked(marks_of(mask, count)),
    decreases count,
{
    if count > 0 {
        lemma_marks_of(mask / 2, (count - 1) as nat);
        let marks = marks_of(mask, count);
        let rest = marks_of(mask / 2, (count - 1) as nat);
        if mask > 0 {
            if mask % 2 == 1 {
                assert(marks[0]);
            } else {
                let at = choose|i: int| 0 <= i < rest.len() && #[trigger] rest[i];
                assert(marks[at + 1] == rest[at]);
            }
        }
    }
}

/// The marks that the digits of `mask` in base two make.
pub fn marks_from(mask: u32, count: usize) -> (marks: Vec<bool>)
    ensures
        marks@ == marks_of(mask as nat, count as nat),
{
    let mut marks: Vec<bool> = Vec::new();
    let mut rest: u32 = mask;
    while marks.len() < count
        invariant
            marks.len() <= count,
            marks@ + marks_of(rest as nat, (count - marks.len()) as nat) == marks_of(
                mask as nat,
                count as nat,
            ),
        decreases count - marks.len(),
    {
        let ghost before = marks@;
        marks.push(rest % 2 == 1);
        proof {
            assert(marks@ + marks_of((rest / 2) as nat, (count - marks.len()) as nat) =~= before
                + marks_of(rest as nat, (count - before.len()) as nat));
        }
        rest = rest / 2;
    }
    proof {
        assert(marks@ + Seq::<bool>::empty() =~= marks@);
    }
    marks
}

/// Two to the power of `n`.
fn power_of_two(n: usize) -> (power: u32)
    requires
        n <= 7,
    ensures
        power == pow2(n as nat),
        1 <= power <= 128,
{
    let mut power: u32 = 1;
    let mut i: usize = 0;
    proof {
        lemma_pow2_grows(0, 7);
    }
    while i < n
        invariant
            i <= n <= 7,
            power == pow2(i as nat),
            1 <= power <= pow2(7),
            pow2(7) == 128,
        decreases n - i,
    {
        proof {
            lemma_pow2_grows(i as nat + 1, 7);
        }
        power = power * 2;
        i = i + 1;
    }
    power
}

/// A higher power of two is no smaller.
proof fn lemma_pow2_grows(low: nat, high: nat)
    requires
        low <= high,
    ensures
        pow2(low) <= pow2(high),
        pow2(7) == 128,
    decreases high,
{
    reveal_with_fuel(pow2, 8);
    if low < high {
        lemma_pow2_grows(low, (high - 1) as nat);
    }
}

/// Draws an HTTP request verb in the wrong case: a verb with one or more of
/// its letters made small, every choice of letters with the same chance.
///
/// HTTP verbs are case sensitive and they should be in upper case.
pub fn request_verb_wrong_case(rng: &mut TestRng) -> (wrong: String)
    ensures
        !is_http_verb(wrong@),
        is_http_verb(uppered(wrong@)),
{
    let index: usize = draw_index(rng, VERB_COUNT);
    let verb: &'static str = verb_at(index);
    proof {
        lemma_verb_capitals(index as int);
    }
    let count: usize = verb.unicode_len();
    let masks: u32 = power_of_two(count);
    proof {
        lemma_pow2_grows(1, count as nat);
        assert(pow2(1) == 2) by {
            reveal_with_fuel(pow2, 2);
        }
    }
    let mask: u32 = draw_u32(rng, 1, masks - 1);
    let small = marks_from(mask, count);
    proof {
        lemma_marks_of(mask as nat, count as nat);
        lemma_wrong_case_is_no_verb(index as int, small@);
    }
    request_verb_wrong_case_from(verb, &small)
}

/// Whether the text is one of the verbs, in capital letters as they are.
pub fn is_valid_verb(input: &str) -> (valid: bool)
    ensures
        valid == is_http_verb(input@),
{
    let text = String::from_str(input);
    let mut index: usize = 0;
    while index < VERB_COUNT
        invariant
            index <= VERB_COUNT,
            text@ == input@,
            forall|other: int| 0 <= other < index ==> input@ != #[trigger] verb_text(other),
        decreases VERB_COUNT - index,
    {
        let verb = String::from_str(verb_at(index));
        if text == verb {
            assert(input@ == verb_text(index as int));
            return true;
        }
        index = index + 1;
    }
    false
}

/// The text as an invalid verb: itself, unless it is a verb.
pub fn request_verb_wrong_from(input: String) -> (wrong: Option<String>)
    ensures
        wrong == if is_http_verb(input@) {
            None
        } else {
            Some(input)
        },
{
    if is_valid_verb(input.as_str()) {
        None
    } else {
        Some(input)
    }
}

/// A drawn text has no more characters than this.
pub const WRONG_VERB_CHARS: usize = 32;

/// Draws any character but the line feed, each with the same chance.
fn any_char(rng: &mut TestRng) -> (c: char)
    ensures
        c != '\n',
{
    let all = CodePointRange { lo: FIRST_SCALAR, hi: LAST_SCALAR };
    let drawn: u32 = draw_u32(rng, 0, all.len() - 2);
    let offset: u32 = if drawn >= 10 {
        drawn + 1
    } else {
        drawn
    };
    all.get(offset)
}

/// Draws an invalid HTTP verb: any text of up to 32 characters without a line
/// feed, but the empty text in place of one that is a verb.
pub fn request_verb_wrong(rng: &mut TestRng) -> (wrong: String)
    ensures
        !is_http_verb(wrong@),
{
    let count: usize = draw_count(rng, 0, WRONG_VERB_CHARS);
    let mut input = String::new();
    let mut i: usize = 0;
    while i < count
        invariant
            i <= count,
        decreases count - i,
    {
        push_char(&mut input, any_char(rng));
        i = i + 1;
    }
    match request_verb_wrong_from(input) {
        Some(wrong) => wrong,
        None => {
            let wrong = String::new();
            proof {
                assert forall|index: int| 0 <= index < VERB_COUNT implies wrong@
                    != #[trigger] verb_text(index) by {
                    lemma_verb_capitals(index);
                }
            }
            wrong
        },
    }
}

} // verus!
