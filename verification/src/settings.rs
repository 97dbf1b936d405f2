//! The settings that a user may leave blank, and what they become then.

use vstd::prelude::*;
use crate::text::{chars_of, string_of};

verus! {

/// The port a server listens on when none is given.
pub open spec fn default_port() -> Seq<char> {
    "8080"@
}

/// The passphrase a server uses when none is set.
pub open spec fn default_server_passphrase() -> Seq<char> {
    "IWasTooDumbToSetAPassword"@
}

/// The passphrase a client uses when none is given.
pub open spec fn default_client_passphrase() -> Seq<char> {
    "IWasSoDumbIDidNotSetAPassword"@
}

/// `given`, or `default` where `given` is empty.
pub open spec fn or_default(given: Seq<char>, default: Seq<char>) -> Seq<char> {
    if given.len() == 0 {
        default
    } else {
        given
    }
}

fn given_or(given: String, default: &str) -> (r: String)
    ensures
        r@ == or_default(given@, default@),
{
    if given.as_str().is_empty() {
        string_of(&chars_of(default))
    } else {
        given
    }
}

/// The port a server listens on: the one given, or 8080.
pub fn server_port(given: String) -> (port: String)
    ensures
        port@ == or_default(given@, default_port()),
{
    given_or(given, "8080")
}

/// The passphrase a server uses: the one given, or its default.
pub fn server_passphrase(given: String) -> (passphrase: String)
    ensures
        passphrase@ == or_default(given@, default_server_passphrase()),
{
    given_or(given, "IWasTooDumbToSetAPassword")
}

/// The passphrase a client uses: the one given, or its default.
pub fn client_passphrase(given: String) -> (passphrase: String)
    ensures
        passphrase@ == or_default(given@, default_client_passphrase()),
{
    given_or(given, "IWasSoDumbIDidNotSetAPassword")
}

} // verus!
