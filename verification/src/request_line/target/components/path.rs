//! URL path: its raw text and the path that a parser makes of it by removing
//! dot segments.

use vstd::prelude::*;
use vstd::string::StringExecFns;
use proptest::test_runner::TestRng;
use crate::request_line::character_class::CharacterClass;
use crate::request_line::source::{draw_bool, draw_count};
use crate::request_line::target::components::CharacterClasses;
use crate::request_line::text::{
    free_of, join, join_strings, lemma_split_first_len, lemma_split_join, split, texts,
};
use crate::request_line::url_char::{
    class_text, is_component_text, is_sub_delim, is_unreserved, lemma_component_text_free_of,
    lemma_component_text_same_set, push_member, push_sub_delims, unreserved_chars,
};

verus! {

/// The segment `.`, which stands for the place itself.
pub open spec fn dot() -> Seq<char> {
    seq!['.']
}

/// The segment `..`, which stands for one place up.
pub open spec fn dot_dot() -> Seq<char> {
    seq!['.', '.']
}

/// The segment is `.` or `..`.
pub open spec fn is_dot_segment(segment: Seq<char>) -> bool {
    segment == dot() || segment == dot_dot()
}

/// The segments that are left of the first `count` raw segments once the dot
/// segments among them have been obeyed.
///
/// The first raw segment stays unless it is `.` or `..`. After it, `.` goes,
/// but as the last raw segment of all it leaves an empty segment behind, which
/// keeps the trailing slash; `..` takes the segment before it away, if there
/// is one; every other segment stays as it is.
pub open spec fn normalized_prefix(raw: Seq<Seq<char>>, count: int) -> Seq<Seq<char>>
    decreases count,
{
    if count <= 0 {
        seq![]
    } else {
        let before = normalized_prefix(raw, count - 1);
        let segment = raw[count - 1];
        if count == 1 {
            if is_dot_segment(segment) {
                before
            } else {
                before.push(segment)
            }
        } else if segment == dot() {
            if count == raw.len() {
                before.push(seq![])
            } else {
                before
            }
        } else if segment == dot_dot() {
            if before.len() > 0 {
                before.drop_last()
            } else {
                before
            }
        } else {
            before.push(segment)
        }
    }
}

/// The segments of the normalized path.
pub open spec fn normalized_segments(raw: Seq<Seq<char>>) -> Seq<Seq<char>> {
    normalized_prefix(raw, raw.len() as int)
}

/// The text of the normalized path: its segments joined by `/`, or `/` alone
/// where none is left.
pub open spec fn normalized_text(raw: Seq<Seq<char>>) -> Seq<char> {
    let segments = normalized_segments(raw);
    if segments.len() == 0 {
        seq!['/']
    } else {
        join(segments, seq!['/'])
    }
}

/// The text of a raw path: its segments joined by `/`.
pub open spec fn raw_text(raw: Seq<Seq<char>>) -> Seq<char> {
    join(raw, seq!['/'])
}

fn is_dot(segment: &String) -> (yes: bool)
    ensures
        yes == (segment@ == dot()),
{
    proof {
        reveal_strlit(".");
    }
    let literal = String::from_str(".");
    assert(literal@ =~= dot());
    *segment == literal
}

fn is_dot_dot(segment: &String) -> (yes: bool)
    ensures
        yes == (segment@ == dot_dot()),
{
    proof {
        reveal_strlit("..");
    }
    let literal = String::from_str("..");
    assert(literal@ =~= dot_dot());
    *segment == literal
}

/// The segments of the normalized path of `raw`.
pub fn normalize_segments(raw: &Vec<String>) -> (segments: Vec<String>)
    ensures
        texts(segments@) == normalized_segments(texts(raw@)),
        forall|i: int| 0 <= i < segments.len() ==> !is_dot_segment(#[trigger] segments@[i]@),
{
    let mut segments: Vec<String> = Vec::new();
    let mut i: usize = 0;
    assert(texts(segments@) =~= normalized_prefix(texts(raw@), 0));
    while i < raw.len()
        invariant
            i <= raw.len(),
            texts(segments@) == normalized_prefix(texts(raw@), i as int),
        decreases raw.len() - i,
    {
        let ghost before = texts(segments@);
        let segment: &String = &raw[i];
        assert(texts(raw@)[i as int] == segment@);
        if is_dot(segment) {
            if i > 0 && i == raw.len() - 1 {
                segments.push(String::new());
                assert(texts(segments@) =~= before.push(seq![]));
            }
        } else if is_dot_dot(segment) {
            if i > 0 && segments.len() > 0 {
                segments.pop();
                assert(texts(segments@) =~= before.drop_last());
            }
        } else {
            segments.push(segment.clone());
            assert(texts(segments@) =~= before.push(segment@));
        }
        i = i + 1;
    }
    proof {
        lemma_normalized_prefix_no_dots(texts(raw@), raw.len() as int);
        assert forall|i: int| 0 <= i < segments.len() implies !is_dot_segment(
            #[trigger] segments@[i]@,
        ) by {
            assert(texts(segments@)[i] == segments@[i]@);
        }
    }
    segments
}

/// The normalized path of the raw segments, as text.
pub fn normalize(raw: &Vec<String>) -> (normalized: String)
    ensures
        normalized@ == normalized_text(texts(raw@)),
{
    let segments = normalize_segments(raw);
    if segments.len() == 0 {
        proof {
            reveal_strlit("/");
        }
        let normalized = String::from_str("/");
        assert(normalized@ =~= seq!['/']);
        normalized
    } else {
        proof {
            reveal_strlit("/");
            assert("/"@ =~= seq!['/']);
        }
        join_strings(&segments, "/")
    }
}

/// A segment of a normalized path is never `.` or `..`.
pub proof fn lemma_normalized_prefix_no_dots(raw: Seq<Seq<char>>, count: int)
    requires
        0 <= count <= raw.len(),
    ensures
        forall|j: int|
            0 <= j < normalized_prefix(raw, count).len() ==> !is_dot_segment(
                #[trigger] normalized_prefix(raw, count)[j],
            ),
    decreases count,
{
    if count > 0 {
        lemma_normalized_prefix_no_dots(raw, count - 1);
        let before = normalized_prefix(raw, count - 1);
        let after = normalized_prefix(raw, count);
        let empty: Seq<char> = seq![];
        assert(!is_dot_segment(empty)) by {
            assert(dot().len() == 1);
            assert(dot_dot().len() == 2);
        }
        assert forall|j: int| 0 <= j < after.len() implies !is_dot_segment(#[trigger] after[j]) by {
            if j < before.len() {
                assert(after[j] == before[j]);
            }
        }
    }
}

/// A segment of a normalized path holds no character that no raw segment
/// holds.
pub proof fn lemma_normalized_prefix_free_of(raw: Seq<Seq<char>>, count: int, sep: char)
    requires
        0 <= count <= raw.len(),
        forall|i: int| 0 <= i < raw.len() ==> free_of(#[trigger] raw[i], sep),
    ensures
        forall|j: int|
            0 <= j < normalized_prefix(raw, count).len() ==> free_of(
                #[trigger] normalized_prefix(raw, count)[j],
                sep,
            ),
    decreases count,
{
    if count > 0 {
        lemma_normalized_prefix_free_of(raw, count - 1, sep);
        let before = normalized_prefix(raw, count - 1);
        let after = normalized_prefix(raw, count);
        assert(free_of(raw[count - 1], sep));
        assert forall|j: int| 0 <= j < after.len() implies free_of(#[trigger] after[j], sep) by {
            if j < before.len() {
                assert(after[j] == before[j]);
            }
        }
    }
}

/// Segments without `.` and `..` among them are their own normalized path.
pub proof fn lemma_normalized_prefix_of_plain(raw: Seq<Seq<char>>, count: int)
    requires
        0 <= count <= raw.len(),
        forall|i: int| 0 <= i < raw.len() ==> !is_dot_segment(#[trigger] raw[i]),
    ensures
        normalized_prefix(raw, count) == raw.take(count),
    decreases count,
{
    if count > 0 {
        lemma_normalized_prefix_of_plain(raw, count - 1);
        assert(!is_dot_segment(raw[count - 1]));
        assert(raw.take(count - 1).push(raw[count - 1]) =~= raw.take(count));
    } else {
        assert(raw.take(0) =~= Seq::<Seq<char>>::empty());
    }
}

/// Normalizing the segments of a normalized path changes nothing.
pub proof fn lemma_normalize_segments_idempotent(raw: Seq<Seq<char>>)
    ensures
        normalized_segments(normalized_segments(raw)) == normalized_segments(raw),
{
    let once = normalized_segments(raw);
    lemma_normalized_prefix_no_dots(raw, raw.len() as int);
    lemma_normalized_prefix_of_plain(once, once.len() as int);
    assert(once.take(once.len() as int) =~= once);
}

/// Normalization is idempotent: the text of a normalized path, taken apart at
/// its slashes and normalized again, is the same text. The raw segments are
/// segments: none of them holds a slash.
pub proof fn lemma_normalize_idempotent(raw: Seq<Seq<char>>)
    requires
        forall|i: int| 0 <= i < raw.len() ==> free_of(#[trigger] raw[i], '/'),
    ensures
        normalized_text(split(normalized_text(raw), '/')) == normalized_text(raw),
{
    let once = normalized_segments(raw);
    lemma_normalized_prefix_no_dots(raw, raw.len() as int);
    lemma_normalized_prefix_free_of(raw, raw.len() as int, '/');
    let empty: Seq<char> = seq![];
    let again = if once.len() == 0 {
        seq![empty, empty]
    } else {
        once
    };
    if once.len() == 0 {
        let slash: Seq<char> = seq!['/'];
        assert(slash.drop_last() =~= empty);
        assert(split(empty, '/') =~= seq![empty]);
        assert(split(slash, '/') =~= again);
        assert(again.drop_last() =~= seq![empty]);
        assert(join(seq![empty], slash) =~= empty);
        assert(join(again, slash) =~= slash);
        assert(!is_dot_segment(empty)) by {
            assert(dot().len() == 1);
            assert(dot_dot().len() == 2);
        }
    } else {
        lemma_split_join(once, '/');
    }
    assert(split(normalized_text(raw), '/') == again);
    lemma_normalized_prefix_of_plain(again, again.len() as int);
    assert(again.take(again.len() as int) =~= again);
}

/// URL path.
#[derive(Debug, Clone, PartialEq, Eq)]
pub struct Path {
    /// The path without its dot segments: `/foo/./bar` gives `/foo/bar`, and
    /// `/foo/../bar` gives `/bar`.
    pub normalized: String,
}

/// `unreserved / sub-delims / ":" / "@"`: what a path segment holds as it is.
pub open spec fn is_pchar(c: char) -> bool {
    is_unreserved(c) || is_sub_delim(c) || c == ':' || c == '@'
}

/// The class of the characters of a path segment.
pub fn path_class() -> (class: CharacterClass)
    ensures
        class.wf(),
        forall|c: char| #[trigger] class.is_safe(c) <==> is_pchar(c),
{
    let mut safe = unreserved_chars();
    push_sub_delims(&mut safe);
    push_member(&mut safe, ':');
    push_member(&mut safe, '@');
    CharacterClass::new(safe.as_slice())
}

/// A segment is shorter than this many generated characters.
pub const SEGMENT_CHARS: usize = 50;

/// The text is a path segment of `min` to `max` generated characters.
pub open spec fn is_segment(text: Seq<char>, min: int, max: int) -> bool {
    is_component_text(|c: char| is_pchar(c), text, min, max)
}

/// The text is a rootless path as the generator makes them: a first segment
/// that is not empty, then up to `max_segments` more, which may be.
pub open spec fn is_rootless_text(text: Seq<char>, max_segments: int) -> bool {
    let raw = split(text, '/');
    &&& 1 <= raw.len() <= max_segments + 1
    &&& is_segment(raw[0], 1, SEGMENT_CHARS - 1)
    &&& forall|i: int| 1 <= i < raw.len() ==> is_segment(#[trigger] raw[i], 0, SEGMENT_CHARS - 1)
}

/// Draws a segment of `min_chars` up to, not including, `max_chars`
/// characters.
fn segment(rng: &mut TestRng, class: &CharacterClass, min_chars: usize, max_chars: usize) -> (text:
    String)
    requires
        forall|c: char| #[trigger] class.is_safe(c) <==> is_pchar(c),
        min_chars < max_chars,
    ensures
        is_segment(text@, min_chars as int, max_chars - 1),
        free_of(text@, '/'),
        text@.len() >= min_chars,
{
    let text = class_text(rng, class, min_chars, max_chars - 1);
    proof {
        lemma_component_text_same_set(
            |c: char| class.is_safe(c),
            |c: char| is_pchar(c),
            text@,
            min_chars as int,
            max_chars - 1,
        );
        lemma_component_text_free_of(
            |c: char| is_pchar(c),
            text@,
            min_chars as int,
            max_chars - 1,
            '/',
        );
    }
    text
}

/// Draws a segment that is not empty.
fn segment_nz(rng: &mut TestRng, class: &CharacterClass, max_chars: usize) -> (text: String)
    requires
        forall|c: char| #[trigger] class.is_safe(c) <==> is_pchar(c),
        1 < max_chars,
    ensures
        is_segment(text@, 1, max_chars - 1),
        free_of(text@, '/'),
        text@.len() >= 1,
{
    segment(rng, class, 1, max_chars)
}

/// The raw segments of a rootless path: its first segment, then the others.
pub open spec fn rootless_segments(segment_nz: Seq<char>, segments: Seq<Seq<char>>) -> Seq<
    Seq<char>,
> {
    seq![segment_nz] + segments
}

/// The rootless path of the given segments: its normalized form and its raw
/// text, the segments joined by `/`.
pub fn path_rootless_from(segment_nz: String, segments: Vec<String>) -> (out: (Path, String))
    ensures
        out.1@ == raw_text(rootless_segments(segment_nz@, texts(segments@))),
        out.0.normalized@ == normalized_text(rootless_segments(segment_nz@, texts(segments@))),
{
    let ghost first = segment_nz@;
    let ghost others = texts(segments@);
    let mut raw = segments;
    raw.insert(0, segment_nz);
    proof {
        assert(texts(raw@) =~= rootless_segments(first, others));
        reveal_strlit("/");
        assert("/"@ =~= seq!['/']);
    }
    let repr = join_strings(&raw, "/");
    let normalized = normalize(&raw);
    (Path { normalized }, repr)
}

/// The absolute path over a rootless path, or over none: a slash before the
/// raw text and before the normalized form, or a slash alone.
pub fn path_absolute_from(rootless: Option<(Path, String)>) -> (out: (Path, String))
    ensures
        match rootless {
            Some((path, repr)) => out.0.normalized@ == seq!['/'] + path.normalized@ && out.1@
                == seq!['/'] + repr@,
            None => out.0.normalized@ == seq!['/'] && out.1@ == seq!['/'],
        },
{
    proof {
        reveal_strlit("/");
        assert("/"@ =~= seq!['/']);
    }
    let mut normalized = String::from_str("/");
    let mut repr = String::from_str("/");
    match rootless {
        Some((path, raw)) => {
            normalized.append(path.normalized.as_str());
            repr.append(raw.as_str());
        },
        None => {},
    }
    (Path { normalized }, repr)
}

/// Draws a rootless path of a first segment and up to `max_segments` more.
/// A parser that takes the raw text apart at its slashes and removes the dot
/// segments arrives at the normalized form.
pub fn path_rootless(rng: &mut TestRng, classes: &CharacterClasses, max_segments: usize) -> (out: (
    Path,
    String,
))
    requires
        0 < max_segments,
    ensures
        is_rootless_text(out.1@, max_segments as int),
        out.0.normalized@ == normalized_text(split(out.1@, '/')),
{
    let class = classes.path();
    let first = segment_nz(rng, class, SEGMENT_CHARS);
    let count: usize = draw_count(rng, 0, max_segments);
    let mut segments: Vec<String> = Vec::new();
    while segments.len() < count
        invariant
            forall|c: char| #[trigger] class.is_safe(c) <==> is_pchar(c),
            segments.len() <= count,
            forall|i: int|
                0 <= i < segments.len() ==> is_segment(
                    #[trigger] texts(segments@)[i],
                    0,
                    SEGMENT_CHARS - 1,
                ) && free_of(texts(segments@)[i], '/'),
        decreases count - segments.len(),
    {
        let ghost before = texts(segments@);
        let next = segment(rng, class, 0, SEGMENT_CHARS);
        segments.push(next);
        proof {
            assert(texts(segments@) =~= before.push(next@));
        }
    }
    let ghost raw = rootless_segments(first@, texts(segments@));
    proof {
        assert forall|i: int| 0 <= i < raw.len() implies free_of(#[trigger] raw[i], '/') by {
            if i > 0 {
                assert(raw[i] == texts(segments@)[i - 1]);
            }
        }
        lemma_split_join(raw, '/');
        assert forall|i: int| 1 <= i < raw.len() implies is_segment(
            #[trigger] raw[i],
            0,
            SEGMENT_CHARS - 1,
        ) by {
            assert(raw[i] == texts(segments@)[i - 1]);
        }
    }
    path_rootless_from(first, segments)
}

/// The text is an absolute path as the generator makes them: a slash, then
/// nothing or a rootless path.
pub open spec fn is_absolute_text(text: Seq<char>, max_segments: int) -> bool {
    &&& text.len() >= 1
    &&& text[0] == '/'
    &&& text.len() == 1 || is_rootless_text(text.skip(1), max_segments)
}

/// The normalized form that belongs to the raw text of an absolute path.
pub open spec fn absolute_normalized(text: Seq<char>) -> Seq<char> {
    if text.len() <= 1 {
        seq!['/']
    } else {
        seq!['/'] + normalized_text(split(text.skip(1), '/'))
    }
}

/// Draws an absolute path: a slash, and after it a rootless path or, as
/// often, nothing.
pub fn path_absolute(rng: &mut TestRng, classes: &CharacterClasses, max_segments: usize) -> (out: (
    Path,
    String,
))
    requires
        0 < max_segments,
    ensures
        is_absolute_text(out.1@, max_segments as int),
        out.0.normalized@ == absolute_normalized(out.1@),
{
    let rootless: Option<(Path, String)> = if draw_bool(rng) {
        Some(path_rootless(rng, classes, max_segments))
    } else {
        None
    };
    let ghost given = rootless;
    let out = path_absolute_from(rootless);
    proof {
        match given {
            Some((path, repr)) => {
                assert(out.1@.skip(1) =~= repr@);
                lemma_component_text_free_of(
                    |c: char| is_pchar(c),
                    split(repr@, '/')[0],
                    1,
                    SEGMENT_CHARS - 1,
                    '/',
                );
                lemma_split_first_len(repr@, '/');
            },
            None => {},
        }
    }
    out
}

} // verus!
