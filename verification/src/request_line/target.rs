//! HTTP request target.

use vstd::prelude::*;
use proptest::test_runner::TestRng;
use crate::request_line::source::draw_index;
use crate::request_line::target::absolute_form::{absolute, AbsoluteForm};
use crate::request_line::target::asterisk_form::asterisk;
use crate::request_line::target::authority_form::{authority, AuthorityForm};
use crate::request_line::target::components::CharacterClasses;
use crate::request_line::target::origin_form::{origin, OriginForm};

pub mod absolute_form;
pub mod asterisk_form;
pub mod authority_form;
pub mod components;
pub mod origin_form;

verus! {

/// All valid HTTP request target forms.
#[derive(Debug, Clone, PartialEq, Eq)]
pub enum RequestTarget {
    Absolute(AbsoluteForm),
    Origin(OriginForm),
    Authority(AuthorityForm),
    Asterisk,
}

impl RequestTarget {
    /// The text of the target, given the raw text of its path, which the
    /// target itself does not hold. A target in authority or asterisk form
    /// has no path, and the same text whatever is given.
    pub open spec fn text_with(&self, path_repr: Seq<char>) -> Seq<char> {
        match self {
            RequestTarget::Absolute(absolute_form) => absolute_form.text_with(path_repr),
            RequestTarget::Origin(origin_form) => origin_form.text_with(path_repr),
            RequestTarget::Authority(authority_form) => authority_form.text(),
            RequestTarget::Asterisk => seq!['*'],
        }
    }

    /// The target is as the generator makes them, with a path of this raw
    /// text.
    pub open spec fn as_generated_with(
        &self,
        path_repr: Seq<char>,
        max_label_count: int,
        max_segments: int,
        min_queries: int,
        max_queries: int,
    ) -> bool {
        match self {
            RequestTarget::Absolute(absolute_form) => absolute_form.as_generated_with(
                path_repr,
                max_label_count,
                max_segments,
                min_queries,
                max_queries,
            ),
            RequestTarget::Origin(origin_form) => origin_form.as_generated_with(
                path_repr,
                max_segments,
                min_queries,
                max_queries,
            ),
            RequestTarget::Authority(authority_form) => authority_form.host.consistent(
                max_label_count,
            ),
            RequestTarget::Asterisk => true,
        }
    }

    /// The target is as the generator makes them, and `repr` is its text:
    /// with some raw text for the path, the one holds and the other is the
    /// text.
    pub open spec fn generated_as(
        &self,
        repr: Seq<char>,
        max_label_count: int,
        max_segments: int,
        min_queries: int,
        max_queries: int,
    ) -> bool {
        exists|path_repr: Seq<char>|
            self.as_generated_with(
                path_repr,
                max_label_count,
                max_segments,
                min_queries,
                max_queries,
            ) && repr == #[trigger] self.text_with(path_repr)
    }
}

/// Draws a request target in one of the four forms, each with the same
/// chance.
///
/// `max_label_count` bounds the labels of a domain, `max_segments` the
/// segments of a path after its first, and `min_queries` and `max_queries`
/// the parameters of a query.
pub fn target(
    rng: &mut TestRng,
    classes: &CharacterClasses,
    max_label_count: usize,
    max_segments: usize,
    min_queries: usize,
    max_queries: usize,
) -> (out: (RequestTarget, String))
    requires
        1 <= max_label_count,
        0 < max_segments,
        min_queries <= max_queries,
    ensures
        out.0.generated_as(
            out.1@,
            max_label_count as int,
            max_segments as int,
            min_queries as int,
            max_queries as int,
        ),
{
    let form: usize = draw_index(rng, 4);
    if form == 0 {
        let (absolute_form, repr) = absolute(
            rng,
            classes,
            max_label_count,
            max_segments,
            min_queries,
            max_queries,
        );
        let out = (RequestTarget::Absolute(absolute_form), repr);
        proof {
            let path_repr = choose|path_repr: Seq<char>|
                absolute_form.as_generated_with(
                    path_repr,
                    max_label_count as int,
                    max_segments as int,
                    min_queries as int,
                    max_queries as int,
                ) && repr@ == #[trigger] absolute_form.text_with(path_repr);
            assert(out.1@ == out.0.text_with(path_repr));
        }
        out
    } else if form == 1 {
        let (origin_form, repr) = origin(rng, classes, max_segments, min_queries, max_queries);
        let out = (RequestTarget::Origin(origin_form), repr);
        proof {
            let path_repr = choose|path_repr: Seq<char>|
                origin_form.as_generated_with(
                    path_repr,
                    max_segments as int,
                    min_queries as int,
                    max_queries as int,
                ) && repr@ == #[trigger] origin_form.text_with(path_repr);
            assert(out.1@ == out.0.text_with(path_repr));
        }
        out
    } else if form == 2 {
        let (authority_form, repr) = authority(rng, max_label_count);
        let out = (RequestTarget::Authority(authority_form), repr);
        proof {
            assert(out.1@ == out.0.text_with(Seq::<char>::empty()));
        }
        out
    } else {
        let out = (RequestTarget::Asterisk, asterisk());
        proof {
            assert(out.1@ == out.0.text_with(Seq::<char>::empty()));
        }
        out
    }
}

} // verus!
