//! Domain names: labels of letters, digits and hyphens, with dots between
//! them.

use vstd::prelude::*;
use vstd::string::StringExecFns;
use proptest::test_runner::TestRng;
use crate::request_line::source::{draw_bool, draw_count, draw_index};
use crate::request_line::text::{
    free_of, join, join_strings, lemma_split_join, push_char, split, texts,
};

verus! {

/// An ASCII letter, small or capital.
pub open spec fn is_letter(c: char) -> bool {
    'a' <= c <= 'z' || 'A' <= c <= 'Z'
}

/// An ASCII letter or digit.
pub open spec fn is_alphanumeric(c: char) -> bool {
    is_letter(c) || '0' <= c <= '9'
}

/// An ASCII letter or digit, or a hyphen: what a label is made of.
pub open spec fn is_label_char(c: char) -> bool {
    is_alphanumeric(c) || c == '-'
}

/// A label has no more characters than this.
pub const LABEL_CHARS: usize = 63;

/// The text is a label: one to 63 letters, digits and hyphens, a letter
/// first and no hyphen last.
pub open spec fn is_label(text: Seq<char>) -> bool {
    &&& 1 <= text.len() <= LABEL_CHARS
    &&& is_letter(text[0])
    &&& is_alphanumeric(text.last())
    &&& forall|i: int| 0 <= i < text.len() ==> is_label_char(#[trigger] text[i])
}

/// The labels of a domain: the text without the dot that may stand before
/// it, taken apart at the dots.
pub open spec fn domain_labels(text: Seq<char>) -> Seq<Seq<char>> {
    if text.len() > 0 && text[0] == '.' {
        split(text.skip(1), '.')
    } else {
        split(text, '.')
    }
}

/// The text is a domain of one to `max_label_count` labels.
pub open spec fn is_domain(text: Seq<char>, max_label_count: int) -> bool {
    &&& 1 <= domain_labels(text).len() <= max_label_count
    &&& forall|i: int|
        0 <= i < domain_labels(text).len() ==> is_label(#[trigger] domain_labels(text)[i])
}

/// The letter with the given number: the 26 small ones, then the 26 capital
/// ones.
pub fn letter_from(index: u8) -> (c: char)
    requires
        index < 52,
    ensures
        c as int == if index < 26 {
            'a' as int + index
        } else {
            'A' as int + index - 26
        },
        is_letter(c),
{
    if index < 26 {
        (97u8 + index) as char
    } else {
        (65u8 + (index - 26)) as char
    }
}

/// The letter or digit with the given number: the 52 letters, then the ten
/// digits.
pub fn alphanumeric_from(index: u8) -> (c: char)
    requires
        index < 62,
    ensures
        c as int == if index < 26 {
            'a' as int + index
        } else if index < 52 {
            'A' as int + index - 26
        } else {
            '0' as int + index - 52
        },
        is_alphanumeric(c),
{
    if index < 52 {
        letter_from(index)
    } else {
        (48u8 + (index - 52)) as char
    }
}

/// The character of a label with the given number: the 62 letters and
/// digits, then the hyphen.
pub fn label_char_from(index: u8) -> (c: char)
    requires
        index < 63,
    ensures
        c == if index < 62 {
            alphanumeric_at(index as int)
        } else {
            '-'
        },
        is_label_char(c),
{
    if index < 62 {
        alphanumeric_from(index)
    } else {
        '-'
    }
}

/// The letter or digit with the given number.
pub open spec fn alphanumeric_at(index: int) -> char {
    if index < 26 {
        ('a' as int + index) as char
    } else if index < 52 {
        ('A' as int + index - 26) as char
    } else {
        ('0' as int + index - 52) as char
    }
}

/// A label of its first character and what follows it.
pub fn domain_label_from(first: char, remainder: String) -> (label: String)
    ensures
        label@ == seq![first] + remainder@,
{
    let mut label = String::new();
    push_char(&mut label, first);
    label.append(remainder.as_str());
    assert(label@ =~= seq![first] + remainder@);
    label
}

/// What follows the first character of a label is this, one time in two: no
/// character or one.
pub const SHORT_REMAINDER_CHARS: usize = 1;

/// And else this many letters, digits and hyphens at most, before a last
/// letter or digit.
pub const LONG_REMAINDER_CHARS: usize = 61;

/// Draws what follows the first character of a label: a letter or digit or
/// nothing; or up to 61 letters, digits and hyphens and then a letter or
/// digit.
fn domain_label_remainder(rng: &mut TestRng) -> (remainder: String)
    ensures
        remainder@.len() <= LABEL_CHARS - 1,
        forall|i: int| 0 <= i < remainder@.len() ==> is_label_char(#[trigger] remainder@[i]),
        remainder@.len() > 0 ==> is_alphanumeric(remainder@.last()),
{
    let mut remainder = String::new();
    if draw_bool(rng) {
        let count: usize = draw_count(rng, 0, SHORT_REMAINDER_CHARS);
        if count == 1 {
            push_char(&mut remainder, alphanumeric_from(draw_index(rng, 62) as u8));
        }
    } else {
        let count: usize = draw_count(rng, 0, LONG_REMAINDER_CHARS);
        let mut i: usize = 0;
        while i < count
            invariant
                i <= count <= LONG_REMAINDER_CHARS,
                remainder@.len() == i,
                forall|k: int|
                    0 <= k < remainder@.len() ==> is_label_char(#[trigger] remainder@[k]),
            decreases count - i,
        {
            push_char(&mut remainder, label_char_from(draw_index(rng, 63) as u8));
            i = i + 1;
        }
        push_char(&mut remainder, alphanumeric_from(draw_index(rng, 62) as u8));
    }
    remainder
}

/// Draws a label.
pub fn domain_label(rng: &mut TestRng) -> (label: String)
    ensures
        is_label(label@),
{
    let first: char = letter_from(draw_index(rng, 52) as u8);
    let remainder = domain_label_remainder(rng);
    domain_label_from(first, remainder)
}

/// A domain of its labels, with dots between them and after `root`, which is
/// a dot or nothing.
pub fn domain_from(root: String, labels: Vec<String>) -> (domain: String)
    ensures
        domain@ == root@ + join(texts(labels@), seq!['.']),
{
    proof {
        reveal_strlit(".");
        assert("."@ =~= seq!['.']);
    }
    let mut domain = root;
    let joined = join_strings(&labels, ".");
    domain.append(joined.as_str());
    domain
}

/// A label holds no dot.
pub proof fn lemma_label_plain(label: Seq<char>)
    requires
        is_label(label),
    ensures
        free_of(label, '.'),
        label[0] != '.',
{
    assert forall|i: int| 0 <= i < label.len() implies #[trigger] label[i] != '.' by {
        assert(is_label_char(label[i]));
    }
}

/// Labels joined by dots, with or without a dot before them, are a domain of
/// those labels.
pub proof fn lemma_domain_of_labels(dotted: bool, labels: Seq<Seq<char>>)
    requires
        labels.len() >= 1,
        forall|i: int| 0 <= i < labels.len() ==> is_label(#[trigger] labels[i]),
    ensures
        domain_labels(
            (if dotted {
                seq!['.']
            } else {
                seq![]
            }) + join(labels, seq!['.']),
        ) == labels,
{
    let joined = join(labels, seq!['.']);
    assert forall|i: int| 0 <= i < labels.len() implies free_of(#[trigger] labels[i], '.') by {
        lemma_label_plain(labels[i]);
    }
    lemma_split_join(labels, '.');
    lemma_join_first(labels, seq!['.']);
    lemma_label_plain(labels[0]);
    if dotted {
        assert((seq!['.'] + joined).skip(1) =~= joined);
    } else {
        assert(Seq::<char>::empty() + joined =~= joined);
        assert(joined[0] == labels[0][0]);
    }
}

/// What is joined begins with its first piece.
pub proof fn lemma_join_first(pieces: Seq<Seq<char>>, sep: Seq<char>)
    requires
        pieces.len() >= 1,
    ensures
        join(pieces, sep).len() >= pieces[0].len(),
        join(pieces, sep).take(pieces[0].len() as int) == pieces[0],
    decreases pieces.len(),
{
    if pieces.len() == 1 {
        assert(join(pieces, sep).take(pieces[0].len() as int) =~= pieces[0]);
    } else {
        lemma_join_first(pieces.drop_last(), sep);
        let head = join(pieces.drop_last(), sep);
        assert(pieces.drop_last()[0] == pieces[0]);
        assert(join(pieces, sep).take(pieces[0].len() as int) =~= head.take(
            pieces[0].len() as int,
        ));
    }
}

/// Draws a domain of one to `max_label_count` labels, one time in two with a
/// dot before them.
pub fn domain(rng: &mut TestRng, max_label_count: usize) -> (domain: String)
    requires
        1 <= max_label_count,
    ensures
        is_domain(domain@, max_label_count as int),
{
    let mut root = String::new();
    let dotted: bool = draw_bool(rng);
    if dotted {
        push_char(&mut root, '.');
    }
    let count: usize = draw_count(rng, 1, max_label_count);
    let mut labels: Vec<String> = Vec::new();
    while labels.len() < count
        invariant
            labels.len() <= count,
            forall|i: int| 0 <= i < labels.len() ==> is_label(#[trigger] texts(labels@)[i]),
        decreases count - labels.len(),
    {
        let ghost before = texts(labels@);
        let label = domain_label(rng);
        labels.push(label);
        proof {
            assert(texts(labels@) =~= before.push(label@));
        }
    }
    proof {
        lemma_domain_of_labels(dotted, texts(labels@));
        assert(root@ =~= if dotted {
            seq!['.']
        } else {
            seq![]
        });
    }
    domain_from(root, labels)
}

} // verus!
