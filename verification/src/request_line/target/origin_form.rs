//! HTTP request target in origin form: an absolute path and, where it has
//! parameters, a query.

use vstd::prelude::*;
use vstd::string::StringExecFns;
use proptest::test_runner::TestRng;
use crate::request_line::target::components::CharacterClasses;
use crate::request_line::target::components::path::{
    absolute_normalized, is_absolute_text, path_absolute, Path,
};
use crate::request_line::target::components::query::{
    all_as_generated, query, query_text, QueryParam,
};
use crate::request_line::text::push_char;

verus! {

/// URL origin form components
#[derive(Debug, Clone, PartialEq, Eq)]
pub struct OriginForm {
    pub path: Path,
    pub query: Option<Vec<QueryParam>>,
}

/// A question mark and the text of the query, or nothing where there is no
/// query.
pub open spec fn query_suffix(query: Option<Vec<QueryParam>>) -> Seq<char> {
    match query {
        Some(params) => seq!['?'] + query_text(params@),
        None => seq![],
    }
}

/// The parameters of a query are as the generator makes them, and no fewer
/// than `min_queries` or more than `max_queries`.
pub open spec fn query_as_generated(
    query: Option<Vec<QueryParam>>,
    min_queries: int,
    max_queries: int,
) -> bool {
    query matches Some(params) ==> min_queries <= params@.len() <= max_queries
        && all_as_generated(params@)
}

impl OriginForm {
    /// The text of the target, given the raw text of its path, which the
    /// target itself does not hold.
    pub open spec fn text_with(&self, path_repr: Seq<char>) -> Seq<char> {
        path_repr + query_suffix(self.query)
    }

    /// The target is as the generator makes them, with a path of this raw
    /// text: the normalized path is what a parser makes of the raw text, and
    /// a query that is there has a parameter.
    pub open spec fn as_generated_with(
        &self,
        path_repr: Seq<char>,
        max_segments: int,
        min_queries: int,
        max_queries: int,
    ) -> bool {
        &&& is_absolute_text(path_repr, max_segments)
        &&& self.path.normalized@ == absolute_normalized(path_repr)
        &&& query_as_generated(self.query, min_queries, max_queries)
        &&& self.query matches Some(params) ==> params@.len() > 0
    }

    /// The target is as the generator makes them, and `repr` is its text:
    /// with some raw text for the path, the one holds and the other is the
    /// text.
    pub open spec fn generated_as(
        &self,
        repr: Seq<char>,
        max_segments: int,
        min_queries: int,
        max_queries: int,
    ) -> bool {
        exists|path_repr: Seq<char>|
            self.as_generated_with(path_repr, max_segments, min_queries, max_queries) && repr
                == #[trigger] self.text_with(path_repr)
    }
}

/// The target of a path and a query, and its text. A query without
/// parameters is no query, and leaves no question mark.
pub fn origin_from(path: (Path, String), query: (Vec<QueryParam>, String)) -> (out: (
    OriginForm,
    String,
))
    ensures
        out.0.path == path.0,
        out.0.query == if query.0@.len() == 0 {
            None
        } else {
            Some(query.0)
        },
        out.1@ == path.1@ + if query.0@.len() == 0 {
            seq![]
        } else {
            seq!['?'] + query.1@
        },
{
    let (path, path_repr) = path;
    let (query, query_repr) = query;
    if query.len() == 0 {
        assert(path_repr@ + Seq::<char>::empty() =~= path_repr@);
        (OriginForm { path, query: None }, path_repr)
    } else {
        let mut repr = path_repr;
        let ghost before = repr@;
        push_char(&mut repr, '?');
        repr.append(query_repr.as_str());
        assert(repr@ =~= before + (seq!['?'] + query_repr@));
        (OriginForm { path, query: Some(query) }, repr)
    }
}

/// Draws a target in origin form: an absolute path of up to `max_segments`
/// segments after its first, and a query of `min_queries` to `max_queries`
/// parameters.
pub fn origin(
    rng: &mut TestRng,
    classes: &CharacterClasses,
    max_segments: usize,
    min_queries: usize,
    max_queries: usize,
) -> (out: (OriginForm, String))
    requires
        0 < max_segments,
        min_queries <= max_queries,
    ensures
        out.0.generated_as(out.1@, max_segments as int, min_queries as int, max_queries as int),
{
    let path = path_absolute(rng, classes, max_segments);
    let query = query(rng, classes, min_queries, max_queries);
    let ghost path_repr = path.1@;
    let out = origin_from(path, query);
    proof {
        assert(out.0.as_generated_with(
            path_repr,
            max_segments as int,
            min_queries as int,
            max_queries as int,
        ));
        assert(out.1@ == out.0.text_with(path_repr));
    }
    out
}

} // verus!
