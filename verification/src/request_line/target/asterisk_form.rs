//! HTTP request target in asterisk form: `*`.

use vstd::prelude::*;
use vstd::string::StringExecFns;

verus! {

/// The target in asterisk form.
pub fn asterisk() -> (repr: String)
    ensures
        repr@ == seq!['*'],
{
    proof {
        reveal_strlit("*");
    }
    let repr = String::from_str("*");
    assert(repr@ =~= seq!['*']);
    repr
}

} // verus!
