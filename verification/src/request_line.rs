//! HTTP request line: verb, target and version.

use vstd::prelude::*;
use vstd::string::StringExecFns;
use proptest::test_runner::TestRng;
use crate::request_line::target::components::CharacterClasses;
use crate::request_line::target::{target, RequestTarget};
use crate::request_line::text::push_char;
use crate::request_line::verb::{is_http_verb, request_verb};
use crate::request_line::version::{version, HttpVersion};

pub mod character_class;
pub mod code_points;
pub mod percent;
pub mod source;
pub mod target;
pub mod text;
pub mod url_char;
pub mod verb;
pub mod version;

verus! {

/// Http request line components.
#[derive(Debug, Clone, PartialEq, Eq)]
pub struct HttpRequestLine {
    pub verb: String,
    pub target: RequestTarget,
    pub version: HttpVersion,
}

impl HttpRequestLine {
    /// The text of the request line, given the raw text of the path of its
    /// target, which the target itself does not hold: verb, target and
    /// version, with one space between each two.
    pub open spec fn text_with(&self, path_repr: Seq<char>) -> Seq<char> {
        self.verb@ + seq![' '] + self.target.text_with(path_repr) + seq![' ']
            + self.version.text()
    }

    /// The request line is as the generator makes them, with a path of this
    /// raw text.
    pub open spec fn as_generated_with(
        &self,
        path_repr: Seq<char>,
        max_label_count: int,
        max_segments: int,
        min_queries: int,
        max_queries: int,
    ) -> bool {
        &&& is_http_verb(self.verb@)
        &&& self.target.as_generated_with(
            path_repr,
            max_label_count,
            max_segments,
            min_queries,
            max_queries,
        )
    }

    /// The request line is as the generator makes them, and `repr` is its
    /// text: with some raw text for the path, the one holds and the other is
    /// the text.
    pub open spec fn generated_as(
        &self,
        repr: Seq<char>,
        max_label_count: int,
        max_segments: int,
        min_queries: int,
        max_queries: int,
    ) -> bool {
        exists|path_repr: Seq<char>|
            self.as_generated_with(
                path_repr,
                max_label_count,
                max_segments,
                min_queries,
                max_queries,
            ) && repr == #[trigger] self.text_with(path_repr)
    }
}

/// The request line of its parts, and its text: the verb, the text of the
/// target and the text of the version, with one space between each two.
pub fn request_line_from(
    verb: String,
    target: (RequestTarget, String),
    version: (HttpVersion, String),
) -> (out: (HttpRequestLine, String))
    ensures
        out.0.verb == verb,
        out.0.target == target.0,
        out.0.version == version.0,
        out.1@ == verb@ + seq![' '] + target.1@ + seq![' '] + version.1@,
{
    let (target, target_repr) = target;
    let (version, version_repr) = version;
    let mut repr = verb.clone();
    push_char(&mut repr, ' ');
    repr.append(target_repr.as_str());
    push_char(&mut repr, ' ');
    repr.append(version_repr.as_str());
    (HttpRequestLine { verb, target, version }, repr)
}

/// Draws an HTTP request line.
///
/// # Arguments
/// * `classes`: the character classes of the URL components.
/// * `max_label_count`: maximum label count to use for domain hosts in case
///   of authority form, origin form and absolute form.
/// * `max_segments`: maximum number of segments that compose the path, after
///   its first, in case of absolute form and origin form.
/// * `min_queries`, `max_queries`: range of the number of queries to include
///   in case of absolute form and origin form.
///
/// # Returns
/// [`HttpRequestLine`] and its representation.
pub fn request_line(
    rng: &mut TestRng,
    classes: &CharacterClasses,
    max_label_count: usize,
    max_segments: usize,
    min_queries: usize,
    max_queries: usize,
) -> (out: (HttpRequestLine, String))
    requires
        1 <= max_label_count,
        0 < max_segments,
        min_queries <= max_queries,
    ensures
        out.0.generated_as(
            out.1@,
            max_label_count as int,
            max_segments as int,
            min_queries as int,
            max_queries as int,
        ),
{
    let verb = request_verb(rng);
    let target = target(rng, classes, max_label_count, max_segments, min_queries, max_queries);
    let version = version(rng);
    let ghost drawn = target;
    let out = request_line_from(verb, target, version);
    proof {
        let path_repr = choose|path_repr: Seq<char>|
            drawn.0.as_generated_with(
                path_repr,
                max_label_count as int,
                max_segments as int,
                min_queries as int,
                max_queries as int,
            ) && drawn.1@ == #[trigger] drawn.0.text_with(path_repr);
        assert(out.1@ == out.0.text_with(path_repr));
    }
    out
}

/// Why no request line can be drawn within the given bounds.
#[derive(Debug, Clone, Copy, PartialEq, Eq, Structural)]
pub enum BoundsError {
    /// A domain has a label, but `max_label_count` is zero.
    NoLabel,
    /// `max_segments` is zero.
    NoSegment,
    /// `min_queries` is above `max_queries`, so no number of queries lies
    /// between them.
    NoQueryCount,
}

/// What is wrong with the bounds, the first of them that is, or nothing.
pub open spec fn bounds_error(
    max_label_count: usize,
    max_segments: usize,
    min_queries: usize,
    max_queries: usize,
) -> Option<BoundsError> {
    if max_label_count == 0 {
        Some(BoundsError::NoLabel)
    } else if max_segments == 0 {
        Some(BoundsError::NoSegment)
    } else if min_queries > max_queries {
        Some(BoundsError::NoQueryCount)
    } else {
        None
    }
}

/// Draws an HTTP request line as [`request_line`] does, or says what is wrong
/// with the bounds. Nothing is drawn from `rng` where they are wrong.
pub fn try_request_line(
    rng: &mut TestRng,
    classes: &CharacterClasses,
    max_label_count: usize,
    max_segments: usize,
    min_queries: usize,
    max_queries: usize,
) -> (out: Result<(HttpRequestLine, String), BoundsError>)
    ensures
        match out {
            Ok(line) => bounds_error(max_label_count, max_segments, min_queries, max_queries)
                is None && line.0.generated_as(
                line.1@,
                max_label_count as int,
                max_segments as int,
                min_queries as int,
                max_queries as int,
            ),
            Err(error) => bounds_error(max_label_count, max_segments, min_queries, max_queries)
                == Some(error),
        },
{
    if max_label_count == 0 {
        Err(BoundsError::NoLabel)
    } else if max_segments == 0 {
        Err(BoundsError::NoSegment)
    } else if min_queries > max_queries {
        Err(BoundsError::NoQueryCount)
    } else {
        Ok(request_line(rng, classes, max_label_count, max_segments, min_queries, max_queries))
    }
}

} // verus!
