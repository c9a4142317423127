//! The shared-secret gate: which secret applies, and how a presented one is judged.
use vstd::prelude::*;
use crate::value::str_eq;

verus! {

/// The secret that stands for "no secret configured".
pub open spec fn not_set() -> Seq<char> {
    "NOT_SET"@
}

/// The secret in force: the configured one; else, in development mode (the
/// default), a fixed development secret; else the not-set marker.
pub open spec fn secret_spec(configured: Option<Seq<char>>, mode: Option<Seq<char>>) -> Seq<char> {
    match configured {
        Some(s) => s,
        None => {
            let m = match mode {
                Some(m) => m,
                None => "development"@,
            };
            if m == "development"@ { "dev_secret"@ } else { not_set() }
        },
    }
}

pub fn secret_from(configured: Option<&str>, mode: Option<&str>) -> (r: String)
    ensures
        r@ == secret_spec(
            match configured { Some(s) => Some(s@), None => None },
            match mode { Some(m) => Some(m@), None => None },
        ),
{
    match configured {
        Some(s) => String::from_str(s),
        None => {
            let development = match mode {
                Some(m) => str_eq(m, "development"),
                None => true,
            };
            if development {
                String::from_str("dev_secret")
            } else {
                String::from_str("NOT_SET")
            }
        },
    }
}

/// The verdict on a presented secret.
#[derive(Debug, Clone, Copy, PartialEq, Eq)]
pub enum SecretVerdict {
    Accepted,
    /// No secret is configured: the server cannot authorise anyone.
    NotConfigured,
    /// The presented secret is missing or wrong.
    Rejected,
}

/// Judges the secret a request presented (empty where it presented none) against
/// the secret in force.
pub fn judge_secret(got: &str, expected: &str) -> (r: SecretVerdict)
    ensures
        r == if expected@ == not_set() {
            SecretVerdict::NotConfigured
        } else if got@ != expected@ {
            SecretVerdict::Rejected
        } else {
            SecretVerdict::Accepted
        },
{
    if str_eq(expected, "NOT_SET") {
        SecretVerdict::NotConfigured
    } else if !str_eq(got, expected) {
        SecretVerdict::Rejected
    } else {
        SecretVerdict::Accepted
    }
}

} // verus!
