//! URL authority: `[<user-info>@]<host>[:<port>]`.

use vstd::prelude::*;
use vstd::string::StringExecFns;
use proptest::test_runner::TestRng;
use crate::request_line::source::{draw_bool, draw_u16};
use crate::request_line::target::components::host::{host, Host};
use crate::request_line::target::components::user_info::{user_info, UserInfo};
use crate::request_line::target::components::{first_of, CharacterClasses};
use crate::request_line::text::{decimal_text, push_char, push_decimal};

verus! {

/// URL authority.
#[derive(Debug, Clone, PartialEq, Eq)]
pub struct Authority {
    pub user_info: Option<UserInfo>,
    pub host: Host,
    pub port: Option<u16>,
}

/// A colon and the port in base ten, or nothing where there is no port.
pub open spec fn port_suffix(port: Option<u16>) -> Seq<char> {
    match port {
        Some(port) => seq![':'] + decimal_text(port as nat),
        None => seq![],
    }
}

impl Authority {
    /// The text of the authority.
    pub open spec fn text(&self) -> Seq<char> {
        (match self.user_info {
            Some(user_info) => user_info.text() + seq!['@'],
            None => seq![],
        }) + self.host.text() + port_suffix(self.port)
    }

    /// User information and host are as the generator makes them.
    pub open spec fn as_generated(&self, max_label_count: int) -> bool {
        &&& self.user_info matches Some(user_info) ==> user_info.as_generated()
        &&& self.host.consistent(max_label_count)
    }
}

/// The authority of its parts, and its text: the text of the user
/// information and an `@`, where there is user information; the text of the
/// host; and a colon and the port, where there is a port.
pub fn authority_from(user_info: Option<(UserInfo, String)>, host: Host, port: Option<u16>) -> (out:
    (Authority, String))
    ensures
        out.0.user_info == first_of(user_info),
        out.0.host == host,
        out.0.port == port,
        out.1@ == (match user_info {
            Some(pair) => pair.1@ + seq!['@'],
            None => seq![],
        }) + host.text() + port_suffix(port),
{
    let mut repr = String::new();
    let user_info: Option<UserInfo> = match user_info {
        Some((user_info, user_info_repr)) => {
            repr.append(user_info_repr.as_str());
            push_char(&mut repr, '@');
            Some(user_info)
        },
        None => None,
    };
    let ghost before = repr@;
    repr.append(host.repr().as_str());
    match port {
        Some(port) => {
            push_char(&mut repr, ':');
            push_decimal(&mut repr, port);
        },
        None => {},
    }
    proof {
        assert(repr@ =~= before + host.text() + port_suffix(port));
    }
    (Authority { user_info, host, port }, repr)
}

/// Draws an authority: a host, one time in two with user information before
/// it, and one time in two with a port after it.
pub fn authority(rng: &mut TestRng, classes: &CharacterClasses, max_label_count: usize) -> (out: (
    Authority,
    String,
))
    requires
        1 <= max_label_count,
    ensures
        out.1@ == out.0.text(),
        out.0.as_generated(max_label_count as int),
{
    let user_info: Option<(UserInfo, String)> = if draw_bool(rng) {
        Some(user_info(rng, classes))
    } else {
        None
    };
    let host = host(rng, max_label_count);
    let port: Option<u16> = if draw_bool(rng) {
        Some(draw_u16(rng))
    } else {
        None
    };
    authority_from(user_info, host, port)
}

} // verus!
