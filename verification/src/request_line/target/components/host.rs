//! URL host: a domain, an IP v4 address or an IP v6 address in brackets.

use vstd::prelude::*;
use vstd::string::StringExecFns;
use proptest::test_runner::TestRng;
use crate::request_line::source::draw_index;
use crate::request_line::target::components::host::domain::{domain, is_domain};
use crate::request_line::target::components::host::ip_v4::{ip_v4, ipv4_value, Ipv4Address};
use crate::request_line::target::components::host::ip_v6::{ip_v6, ipv6_value, Ipv6Address};
use crate::request_line::text::push_char;

pub mod domain;
pub mod ip_v4;
pub mod ip_v6;

verus! {

/// URI host variants. Each holds the text it was rendered as, and the
/// addresses hold their value beside it.
#[derive(Debug, Clone, PartialEq, Eq)]
pub enum Host {
    Domain(String),
    Ipv6(Ipv6Address, String),
    Ipv4(Ipv4Address, String),
}

/// The address that the text of an IP v6 host stands for: the text between
/// the square brackets, read as an IP v6 address.
pub open spec fn ipv6_host_value(text: Seq<char>) -> Option<Seq<u16>> {
    if text.len() >= 2 && text[0] == '[' && text.last() == ']' {
        ipv6_value(text.subrange(1, text.len() - 1))
    } else {
        None
    }
}

impl Host {
    /// The text of the host.
    pub open spec fn text(&self) -> Seq<char> {
        match self {
            Host::Domain(repr) => repr@,
            Host::Ipv6(_, repr) => repr@,
            Host::Ipv4(_, repr) => repr@,
        }
    }

    /// Value and text agree: the text of an address reads as the address, and
    /// that of a domain is a domain of `max_label_count` labels at most.
    pub open spec fn consistent(&self, max_label_count: int) -> bool {
        match self {
            Host::Domain(repr) => is_domain(repr@, max_label_count),
            Host::Ipv6(ip, repr) => ipv6_host_value(repr@) == Some(ip.segments@),
            Host::Ipv4(ip, repr) => ipv4_value(repr@) == Some(ip.octets@),
        }
    }

    /// The text of the host.
    pub fn repr(&self) -> (repr: &String)
        ensures
            repr@ == self.text(),
    {
        match self {
            Host::Domain(repr) => repr,
            Host::Ipv6(_, repr) => repr,
            Host::Ipv4(_, repr) => repr,
        }
    }
}

/// An IP v6 address as a host: its text in square brackets.
pub fn ip_v6_host_from(ip: Ipv6Address, repr: String) -> (out: (Ipv6Address, String))
    ensures
        out.0 == ip,
        out.1@ == seq!['['] + repr@ + seq![']'],
        ipv6_host_value(out.1@) == ipv6_value(repr@),
{
    let mut text = String::new();
    push_char(&mut text, '[');
    text.append(repr.as_str());
    push_char(&mut text, ']');
    proof {
        assert(text@ =~= seq!['['] + repr@ + seq![']']);
        assert(text@.subrange(1, text@.len() - 1) =~= repr@);
    }
    (ip, text)
}

/// Draws an IP v6 host: an IP v6 address in any layout, in square brackets.
pub fn ip_v6_host(rng: &mut TestRng) -> (out: (Ipv6Address, String))
    ensures
        ipv6_host_value(out.1@) == Some(out.0.segments@),
{
    let (ip, repr) = ip_v6(rng);
    ip_v6_host_from(ip, repr)
}

/// Draws a host: a domain, an IP v4 address or an IP v6 address, each with
/// the same chance.
pub fn host(rng: &mut TestRng, max_label_count: usize) -> (host: Host)
    requires
        1 <= max_label_count,
    ensures
        host.consistent(max_label_count as int),
{
    let kind: usize = draw_index(rng, 3);
    if kind == 0 {
        Host::Domain(domain(rng, max_label_count))
    } else if kind == 1 {
        let (ip, repr) = ip_v4(rng);
        Host::Ipv4(ip, repr)
    } else {
        let (ip, repr) = ip_v6_host(rng);
        Host::Ipv6(ip, repr)
    }
}

} // verus!
