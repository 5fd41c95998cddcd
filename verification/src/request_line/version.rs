//! HTTP request line HTTP version.

use vstd::prelude::*;
use vstd::string::StringExecFns;
use proptest::test_runner::TestRng;
use crate::request_line::source::draw_index;

verus! {

/// All valid HTTP versions.
#[derive(Debug, Clone, Copy, PartialEq, Eq, Structural)]
pub enum HttpVersion {
    Http10,
    Http11,
    Http2,
    Http3,
}

/// `HTTP/`
pub open spec fn version_prefix() -> Seq<char> {
    seq!['H', 'T', 'T', 'P', '/']
}

impl HttpVersion {
    /// The text of the version, as it stands in a request line.
    pub open spec fn text(&self) -> Seq<char> {
        version_prefix() + match self {
            HttpVersion::Http10 => seq!['1', '.', '0'],
            HttpVersion::Http11 => seq!['1', '.', '1'],
            HttpVersion::Http2 => seq!['2'],
            HttpVersion::Http3 => seq!['3'],
        }
    }

    /// The text of the version: `HTTP/1.0`, `HTTP/1.1`, `HTTP/2` or
    /// `HTTP/3`.
    pub fn to_string(&self) -> (repr: String)
        ensures
            repr@ == self.text(),
    {
        proof {
            reveal_strlit("HTTP/1.0");
            reveal_strlit("HTTP/1.1");
            reveal_strlit("HTTP/2");
            reveal_strlit("HTTP/3");
        }
        let repr = match self {
            HttpVersion::Http10 => String::from_str("HTTP/1.0"),
            HttpVersion::Http11 => String::from_str("HTTP/1.1"),
            HttpVersion::Http2 => String::from_str("HTTP/2"),
            HttpVersion::Http3 => String::from_str("HTTP/3"),
        };
        assert(repr@ =~= self.text());
        repr
    }
}

/// The version with the given number, from nought to three, oldest first.
pub open spec fn version_at(index: int) -> HttpVersion {
    if index == 0 {
        HttpVersion::Http10
    } else if index == 1 {
        HttpVersion::Http11
    } else if index == 2 {
        HttpVersion::Http2
    } else {
        HttpVersion::Http3
    }
}

/// The version with the given number and its text.
pub fn version_from(index: usize) -> (out: (HttpVersion, String))
    requires
        index < 4,
    ensures
        out.0 == version_at(index as int),
        out.1@ == out.0.text(),
{
    let version = if index == 0 {
        HttpVersion::Http10
    } else if index == 1 {
        HttpVersion::Http11
    } else if index == 2 {
        HttpVersion::Http2
    } else {
        HttpVersion::Http3
    };
    (version, version.to_string())
}

/// Draws an HTTP version, each with the same chance.
pub fn version(rng: &mut TestRng) -> (out: (HttpVersion, String))
    ensures
        out.1@ == out.0.text(),
{
    version_from(draw_index(rng, 4))
}

} // verus!
