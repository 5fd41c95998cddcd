//! HTTP request target in authority form: `<host>:<port>`.

use vstd::prelude::*;
use proptest::test_runner::TestRng;
use crate::request_line::source::draw_u16;
use crate::request_line::target::components::host::{host, Host};
use crate::request_line::text::{decimal_text, push_char, push_decimal};

verus! {

/// URL authority form components
#[derive(Debug, Clone, PartialEq, Eq)]
pub struct AuthorityForm {
    pub host: Host,
    pub port: u16,
}

impl AuthorityForm {
    /// The text of the target: the text of the host, a colon, and the port
    /// in base ten.
    pub open spec fn text(&self) -> Seq<char> {
        self.host.text() + seq![':'] + decimal_text(self.port as nat)
    }
}

/// The target of a host and a port, and its text.
pub fn authority_from(host: Host, port: u16) -> (out: (AuthorityForm, String))
    ensures
        out.0.host == host,
        out.0.port == port,
        out.1@ == out.0.text(),
{
    let mut repr = host.repr().clone();
    push_char(&mut repr, ':');
    push_decimal(&mut repr, port);
    let form = AuthorityForm { host, port };
    assert(repr@ =~= form.text());
    (form, repr)
}

/// Draws a target in authority form: a host and a port.
pub fn authority(rng: &mut TestRng, max_label_count: usize) -> (out: (AuthorityForm, String))
    requires
        1 <= max_label_count,
    ensures
        out.1@ == out.0.text(),
        out.0.host.consistent(max_label_count as int),
{
    let host = host(rng, max_label_count);
    let port: u16 = draw_u16(rng);
    authority_from(host, port)
}

} // verus!
