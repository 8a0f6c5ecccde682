//! The session negotiator's decisions.
//!
//! Opening an authenticated session is network work the caller
//! performs; this module decides which credential the chosen strategy
//! needs, turns raw failure text into the message shown to the user,
//! and decides the one automatic retry: a key that turned out to need
//! a passphrase is tried once more with one.

use vstd::prelude::*;

use crate::cluster::ConnectionError;
use crate::cluster::SessionType;
use crate::strutil::contains_seq;
use crate::strutil::contains_sub;

verus! {

/// The failure reason of a connection attempt, from the stage the
/// caller observed: a transport that never opened means the host is
/// wrong; any other failure means the user or the identity file is.
pub fn classify_connection_failure(transport_failed: bool) -> (r: ConnectionError)
    ensures
        r == (if transport_failed {
            ConnectionError::WrongHost
        } else {
            ConnectionError::WrongUserOrIdentityFile
        }),
{
    if transport_failed {
        ConnectionError::WrongHost
    } else {
        ConnectionError::WrongUserOrIdentityFile
    }
}

/// The strategy a cluster record starts with: its identity file when
/// one is named, otherwise an interactive password.
pub fn initial_session_type(cluster: &crate::cluster::Cluster) -> (r: SessionType)
    ensures
        r == (if cluster.identity_file@.len() == 0 {
            SessionType::Password
        } else {
            SessionType::IdentityFile
        }),
{
    if cluster.identity_file.unicode_len() == 0 {
        SessionType::Password
    } else {
        SessionType::IdentityFile
    }
}

/// Whether the strategy reads the identity file's private key.
pub fn needs_private_key(session_type: &SessionType) -> (r: bool)
    ensures
        r == (session_type == SessionType::IdentityFile || session_type
            == SessionType::Passphrase),
{
    match session_type {
        SessionType::IdentityFile => true,
        SessionType::Passphrase => true,
        SessionType::Password => false,
    }
}

/// Whether the strategy needs a secret prompted from the user.
pub fn needs_secret(session_type: &SessionType) -> (r: bool)
    ensures
        r == (session_type == SessionType::Passphrase || session_type == SessionType::Password),
{
    match session_type {
        SessionType::IdentityFile => false,
        SessionType::Passphrase => true,
        SessionType::Password => true,
    }
}

/// The message shown for a connection failure, step by step: known
/// failure texts are replaced by a message with a hint, later checks
/// reading the message as the earlier ones left it.
pub open spec fn spec_error_message(error: Seq<char>) -> Seq<char> {
    let m0 = "Error: "@ + error;
    let m1 = if contains_seq(m0, "failed to lookup address information"@) {
        "Error: failed to lookup address information: Name or service not known.\nPlease check the hostname!"@
    } else {
        m0
    };
    let m2 = if contains_seq(m1, "Connection refused"@) {
        "Error: Connection refused.\nPlease check if the SSH port is open!"@
    } else {
        m1
    };
    let m3 = if contains_seq(m2, "Username/PublicKey"@) {
        "Error: Username/PublicKey combination invalid.\nPlease check both entries!"@
    } else {
        m2
    };
    if contains_seq(m3, "File not found"@) {
        "Error: Identity file not found.\nPlease check if the file path exists!"@
    } else {
        m3
    }
}

/// Turn a connection failure's raw text into the message shown to the
/// user, with a hint for the failures the crate knows: an address that
/// does not resolve, a refused connection, a rejected key, a missing
/// identity file.
pub fn format_error_message(error: &str) -> (r: String)
    ensures
        r@ == spec_error_message(error@),
{
    let mut m = "Error: ".to_owned();
    m.append(error);
    if contains_sub(m.as_str(), "failed to lookup address information") {
        m =
        "Error: failed to lookup address information: Name or service not known.\nPlease check the hostname!".to_owned();
    }
    if contains_sub(m.as_str(), "Connection refused") {
        m = "Error: Connection refused.\nPlease check if the SSH port is open!".to_owned();
    }
    if contains_sub(m.as_str(), "Username/PublicKey") {
        m = "Error: Username/PublicKey combination invalid.\nPlease check both entries!".to_owned();
    }
    if contains_sub(m.as_str(), "File not found") {
        m = "Error: Identity file not found.\nPlease check if the file path exists!".to_owned();
    }
    m
}

/// Whether a failed attempt is retried once with a passphrase: only
/// an identity-file attempt whose failure text says the key file
/// needs one. No other failure is retried automatically.
pub fn should_retry_with_passphrase(formatted_error: &str, session_type: &SessionType) -> (r:
    bool)
    ensures
        r == (contains_seq(formatted_error@, "keyfile auth failed"@) && session_type
            == SessionType::IdentityFile),
{
    let is_keyfile = contains_sub(formatted_error, "keyfile auth failed");
    let is_identity = match session_type {
        SessionType::IdentityFile => true,
        _ => false,
    };
    is_keyfile && is_identity
}

} // verus!
