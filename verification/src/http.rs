//! The daemon-facing request errors and their human messages, plus the base URL
//! normalisation shared by the daemon clients.

use vstd::prelude::*;
use crate::config::{decimal, decimal_chars};
use crate::text::{append_range, chars_of, owned, push_str, string_of, trim_end, trim_end_chars};

verus! {

/// Default request timeout in seconds: a wedged daemon must never hang the CLI.
pub const DEFAULT_TIMEOUT_SECS: u64 = 30;

/// A daemon request that failed. Each variant carries what its message needs.
#[derive(Debug)]
pub enum ClientError {
    /// Never opened a connection (refused, DNS failure, reset).
    Connect { url: String, cause: String },
    /// Connected, but no response within the timeout.
    Timeout { url: String, secs: u64 },
    /// The daemon answered with a non-success status and an error envelope.
    Daemon { status: u16, code: String, message: String },
    /// The response body was not the JSON we expected.
    BadResponse { cause: String },
}

/// The human message of a request error: what failed, why, and how to fix it.
pub open spec fn client_error_message(e: ClientError) -> Seq<char> {
    match e {
        ClientError::Connect { url, cause } => "cannot reach the daemon at "@ + url@
            + "\n  cause: "@ + cause@
            + "\n  fix:   is it running? set LIBRARIAN_DAEMON or pass --daemon <url>"@,
        ClientError::Timeout { url, secs } => "no response from the daemon at "@ + url@ + " within "@
            + decimal(secs as nat) + "s\n  cause: request timed out\n  fix:   is the host reachable? raise --timeout, or check the daemon"@,
        ClientError::Daemon { status, code, message } => "daemon returned "@ + decimal(status as nat)
            + " ["@ + code@ + "]"@ + if message@.len() == 0 {
            Seq::empty()
        } else {
            ": "@ + message@
        },
        ClientError::BadResponse { cause } => "unexpected response from the daemon\n  cause: "@
            + cause@ + "\n  fix:   the CLI and daemon versions may differ"@,
    }
}

fn push_decimal(out: &mut String, n: u64)
    ensures
        final(out)@ == old(out)@ + decimal(n as nat),
{
    let d = decimal_chars(n);
    append_range(out, &d, 0, d.len());
    assert(d@.subrange(0, d.len() as int) =~= d@);
}

impl ClientError {
    /// The error envelope of a non-success answer: `code` defaults to `"error"`
    /// and `message` to empty when the envelope lacks them.
    pub fn from_envelope(status: u16, code: Option<&str>, message: Option<&str>) -> (r: ClientError)
        ensures
            match r {
                ClientError::Daemon { status: s, code: c, message: m } => s == status && c@ == (
                match code {
                    Some(x) => x@,
                    None => "error"@,
                }) && m@ == (match message {
                    Some(x) => x@,
                    None => Seq::<char>::empty(),
                }),
                _ => false,
            },
    {
        let code = match code {
            Some(c) => owned(c),
            None => owned("error"),
        };
        let message = match message {
            Some(m) => owned(m),
            None => String::new(),
        };
        ClientError::Daemon { status, code, message }
    }

    /// The human message (what `Display` would print).
    pub fn message(&self) -> (r: String)
        ensures
            r@ == client_error_message(*self),
    {
        match self {
            ClientError::Connect { url, cause } => {
                let mut m = owned("cannot reach the daemon at ");
                push_str(&mut m, url.as_str());
                push_str(&mut m, "\n  cause: ");
                push_str(&mut m, cause.as_str());
                push_str(&mut m, "\n  fix:   is it running? set LIBRARIAN_DAEMON or pass --daemon <url>");
                m
            },
            ClientError::Timeout { url, secs } => {
                let mut m = owned("no response from the daemon at ");
                push_str(&mut m, url.as_str());
                push_str(&mut m, " within ");
                push_decimal(&mut m, *secs);
                push_str(
                    &mut m,
                    "s\n  cause: request timed out\n  fix:   is the host reachable? raise --timeout, or check the daemon",
                );
                m
            },
            ClientError::Daemon { status, code, message } => {
                let mut m = owned("daemon returned ");
                push_decimal(&mut m, *status as u64);
                push_str(&mut m, " [");
                push_str(&mut m, code.as_str());
                push_str(&mut m, "]");
                if message.as_str().is_empty() {
                    assert(m@ + Seq::<char>::empty() =~= m@);
                } else {
                    push_str(&mut m, ": ");
                    push_str(&mut m, message.as_str());
                }
                m
            },
            ClientError::BadResponse { cause } => {
                let mut m = owned("unexpected response from the daemon\n  cause: ");
                push_str(&mut m, cause.as_str());
                push_str(&mut m, "\n  fix:   the CLI and daemon versions may differ");
                m
            },
        }
    }
}

/// `base` without trailing `/` (`str::trim_end_matches('/')`), as the daemon
/// clients store their base URL.
pub fn trim_trailing_slashes(base: &str) -> (r: String)
    ensures
        r@ == trim_end(base@, '/'),
{
    let v = chars_of(base);
    string_of(&trim_end_chars(&v, '/'))
}

/// The URL of a daemon request: the trimmed base followed by the path.
pub fn request_url(base: &str, path: &str) -> (r: String)
    ensures
        r@ == trim_end(base@, '/') + path@,
{
    let mut u = trim_trailing_slashes(base);
    push_str(&mut u, path);
    u
}

} // verus!
