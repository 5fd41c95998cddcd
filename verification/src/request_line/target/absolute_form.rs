//! HTTP request target in absolute form:
//! `<scheme>://<authority>[<path>][?<query>][#<fragment>]`.

use vstd::prelude::*;
use vstd::string::StringExecFns;
use proptest::test_runner::TestRng;
use crate::request_line::source::draw_bool;
use crate::request_line::target::components::authority::{authority, Authority};
use crate::request_line::target::components::fragment::{fragment, is_fragment};
use crate::request_line::target::components::path::{
    absolute_normalized, is_absolute_text, path_absolute, Path,
};
use crate::request_line::target::components::query::{query, QueryParam};
use crate::request_line::target::components::scheme::{http_scheme, is_http_scheme};
use crate::request_line::target::components::{first_of, CharacterClasses};
use crate::request_line::target::origin_form::{query_as_generated, query_suffix};
use crate::request_line::text::push_char;

verus! {

/// URL absolute form components
#[derive(Debug, Clone, PartialEq, Eq)]
pub struct AbsoluteForm {
    pub scheme: String,
    pub authority: Authority,
    pub path: Option<Path>,
    pub query: Option<Vec<QueryParam>>,
    pub fragment: Option<String>,
}

/// A hash sign and the fragment, or nothing where there is no fragment.
pub open spec fn fragment_suffix(fragment: Option<String>) -> Seq<char> {
    match fragment {
        Some(fragment) => seq!['#'] + fragment@,
        None => seq![],
    }
}

/// `://`
pub open spec fn scheme_separator() -> Seq<char> {
    seq![':', '/', '/']
}

impl AbsoluteForm {
    /// The text of the target, given the raw text of its path, which the
    /// target itself does not hold; it is empty where there is no path.
    pub open spec fn text_with(&self, path_repr: Seq<char>) -> Seq<char> {
        self.scheme@ + scheme_separator() + self.authority.text() + path_repr + query_suffix(
            self.query,
        ) + fragment_suffix(self.fragment)
    }

    /// The target is as the generator makes them, with a path of this raw
    /// text.
    pub open spec fn as_generated_with(
        &self,
        path_repr: Seq<char>,
        max_label_count: int,
        max_segments: int,
        min_queries: int,
        max_queries: int,
    ) -> bool {
        &&& is_http_scheme(self.scheme@)
        &&& self.authority.as_generated(max_label_count)
        &&& match self.path {
            Some(path) => is_absolute_text(path_repr, max_segments) && path.normalized@
                == absolute_normalized(path_repr),
            None => path_repr.len() == 0,
        }
        &&& query_as_generated(self.query, min_queries, max_queries)
        &&& self.fragment matches Some(fragment) ==> is_fragment(fragment@)
    }

    /// The target is as the generator makes them, and `repr` is its text:
    /// with some raw text for the path, the one holds and the other is the
    /// text.
    pub open spec fn generated_as(
        &self,
        repr: Seq<char>,
        max_label_count: int,
        max_segments: int,
        min_queries: int,
        max_queries: int,
    ) -> bool {
        exists|path_repr: Seq<char>|
            self.as_generated_with(
                path_repr,
                max_label_count,
                max_segments,
                min_queries,
                max_queries,
            ) && repr == #[trigger] self.text_with(path_repr)
    }
}

/// The raw text of a path, empty where there is no path.
pub open spec fn raw_text_of(path: Option<(Path, String)>) -> Seq<char> {
    match path {
        Some(pair) => pair.1@,
        None => seq![],
    }
}

/// The target of its parts, and its text: scheme, `://` and the text of the
/// authority; then, of those that are there, the raw text of the path, a
/// question mark and the text of the query, and a hash sign and the fragment.
pub fn absolute_from(
    scheme: String,
    authority: (Authority, String),
    path: Option<(Path, String)>,
    query: Option<(Vec<QueryParam>, String)>,
    fragment: Option<String>,
) -> (out: (AbsoluteForm, String))
    ensures
        out.0.scheme == scheme,
        out.0.authority == authority.0,
        out.0.path == first_of(path),
        out.0.query == first_of(query),
        out.0.fragment == fragment,
        out.1@ == scheme@ + scheme_separator() + authority.1@ + raw_text_of(path) + (match query {
            Some(pair) => seq!['?'] + pair.1@,
            None => seq![],
        }) + fragment_suffix(fragment),
{
    proof {
        reveal_strlit("://");
        assert("://"@ =~= scheme_separator());
    }
    let (authority, authority_repr) = authority;
    let mut repr = scheme.clone();
    repr.append("://");
    repr.append(authority_repr.as_str());
    let ghost after_authority = repr@;
    let path: Option<Path> = match path {
        Some((path, path_repr)) => {
            repr.append(path_repr.as_str());
            Some(path)
        },
        None => None,
    };
    let ghost after_path = repr@;
    let query: Option<Vec<QueryParam>> = match query {
        Some((query, query_repr)) => {
            push_char(&mut repr, '?');
            repr.append(query_repr.as_str());
            Some(query)
        },
        None => None,
    };
    let ghost after_query = repr@;
    match &fragment {
        Some(fragment) => {
            push_char(&mut repr, '#');
            repr.append(fragment.as_str());
        },
        None => {},
    }
    proof {
        assert(repr@ =~= after_query + fragment_suffix(fragment));
    }
    (AbsoluteForm { scheme, authority, path, query, fragment }, repr)
}

/// Draws a target in absolute form: the scheme of HTTP or HTTPS, an
/// authority, and, each one time in two, an absolute path, a query and a
/// fragment.
pub fn absolute(
    rng: &mut TestRng,
    classes: &CharacterClasses,
    max_label_count: usize,
    max_segments: usize,
    min_queries: usize,
    max_queries: usize,
) -> (out: (AbsoluteForm, String))
    requires
        1 <= max_label_count,
        0 < max_segments,
        min_queries <= max_queries,
    ensures
        out.0.generated_as(
            out.1@,
            max_label_count as int,
            max_segments as int,
            min_queries as int,
            max_queries as int,
        ),
{
    let scheme = http_scheme(rng);
    let authority = authority(rng, classes, max_label_count);
    let path: Option<(Path, String)> = if draw_bool(rng) {
        Some(path_absolute(rng, classes, max_segments))
    } else {
        None
    };
    let query: Option<(Vec<QueryParam>, String)> = if draw_bool(rng) {
        Some(query(rng, classes, min_queries, max_queries))
    } else {
        None
    };
    let fragment: Option<String> = if draw_bool(rng) {
        Some(fragment(rng, classes))
    } else {
        None
    };
    let ghost path_repr: Seq<char> = raw_text_of(path);
    let out = absolute_from(scheme, authority, path, query, fragment);
    proof {
        assert(out.0.as_generated_with(
            path_repr,
            max_label_count as int,
            max_segments as int,
            min_queries as int,
            max_queries as int,
        ));
        assert(out.1@ == out.0.text_with(path_repr));
    }
    out
}

} // verus!
