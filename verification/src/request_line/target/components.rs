//! URL components, and the character class of each.

use vstd::prelude::*;
use crate::request_line::character_class::CharacterClass;
use crate::request_line::target::components::fragment::{fragment_class, is_fragment_char};
use crate::request_line::target::components::path::{is_pchar, path_class};
use crate::request_line::target::components::query::{is_query_char, query_class};
use crate::request_line::target::components::user_info::{is_user_info_char, user_info_class};

pub mod authority;
pub mod fragment;
pub mod host;
pub mod path;
pub mod query;
pub mod scheme;
pub mod segment;
pub mod user_info;

verus! {

/// The first of a pair, where there is a pair.
pub open spec fn first_of<A, B>(pair: Option<(A, B)>) -> Option<A> {
    match pair {
        Some(pair) => Some(pair.0),
        None => None,
    }
}

/// The character classes of the components that are generated from one: user
/// information, path segment, query and fragment.
///
/// The unsafe ranges of a class are computed when it is made, which is once
/// for each value of this type: make one, and hand it to every generator by
/// reference. It is never changed afterwards.
pub struct CharacterClasses {
    user_info: CharacterClass,
    path: CharacterClass,
    query: CharacterClass,
    fragment: CharacterClass,
}

impl CharacterClasses {
    /// The class of the characters of user information.
    pub closed spec fn user_info_class(&self) -> CharacterClass {
        self.user_info
    }

    /// The class of the characters of a path segment.
    pub closed spec fn path_class(&self) -> CharacterClass {
        self.path
    }

    /// The class of the characters of a key or a value of a query.
    pub closed spec fn query_class(&self) -> CharacterClass {
        self.query
    }

    /// The class of the characters of a fragment.
    pub closed spec fn fragment_class(&self) -> CharacterClass {
        self.fragment
    }

    /// What holds of every value of this type: each class is well formed and
    /// has the safe characters of its component, no more and no fewer.
    pub open spec fn wf(&self) -> bool {
        &&& self.user_info_class().wf()
        &&& self.path_class().wf()
        &&& self.query_class().wf()
        &&& self.fragment_class().wf()
        &&& forall|c: char| #[trigger] self.user_info_class().is_safe(c) <==> is_user_info_char(c)
        &&& forall|c: char| #[trigger] self.path_class().is_safe(c) <==> is_pchar(c)
        &&& forall|c: char| #[trigger] self.query_class().is_safe(c) <==> is_query_char(c)
        &&& forall|c: char| #[trigger] self.fragment_class().is_safe(c) <==> is_fragment_char(c)
    }

    #[verifier::type_invariant]
    spec fn well_formed(&self) -> bool {
        self.wf()
    }

    /// Computes the four classes.
    pub fn new() -> (classes: CharacterClasses)
        ensures
            classes.wf(),
    {
        CharacterClasses {
            user_info: user_info_class(),
            path: path_class(),
            query: query_class(),
            fragment: fragment_class(),
        }
    }

    /// The class of the characters of user information.
    pub fn user_info(&self) -> (class: &CharacterClass)
        ensures
            *class == self.user_info_class(),
            self.wf(),
    {
        proof {
            use_type_invariant(self);
        }
        &self.user_info
    }

    /// The class of the characters of a path segment.
    pub fn path(&self) -> (class: &CharacterClass)
        ensures
            *class == self.path_class(),
            self.wf(),
    {
        proof {
            use_type_invariant(self);
        }
        &self.path
    }

    /// The class of the characters of a key or a value of a query.
    pub fn query(&self) -> (class: &CharacterClass)
        ensures
            *class == self.query_class(),
            self.wf(),
    {
        proof {
            use_type_invariant(self);
        }
        &self.query
    }

    /// The class of the characters of a fragment.
    pub fn fragment(&self) -> (class: &CharacterClass)
        ensures
            *class == self.fragment_class(),
            self.wf(),
    {
        proof {
            use_type_invariant(self);
        }
        &self.fragment
    }
}

} // verus!
