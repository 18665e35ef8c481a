//! Authentication-key extraction for the private HTTP tracker, and the
//! failure reasons that go on the wire. A store-level failure (unknown,
//! expired, malformed) is reported to the client under one generic
//! reason: the wire never tells the causes apart, so a client cannot
//! probe whether a key exists or has merely expired.

use vstd::prelude::*;
use crate::authentication::{spec_key_format_ok, AuthenticationError};
use crate::http_responses::Error as ResponseError;

verus! {

/// What can go wrong before a key even reaches the store.
#[derive(Clone, Copy, Debug, PartialEq, Eq, Structural)]
pub enum Error {
    /// The private tracker got a request without a key segment.
    MissingAuthKey,
    /// The segment is not a well-formed key.
    InvalidKeyFormat,
    /// The path carries no usable key segment at all.
    CannotExtractKeyParam,
}

/// The failure reason an extraction error puts on the wire; none of
/// these reveals anything about the key store.
pub open spec fn spec_failure_reason(err: Error) -> Seq<char> {
    match err {
        Error::MissingAuthKey =>
            "Authentication error: Missing authentication key param for private tracker"@,
        Error::InvalidKeyFormat =>
            "Authentication error: Invalid format for authentication key param"@,
        Error::CannotExtractKeyParam =>
            "Authentication error: Cannot extract authentication key param from URL path"@,
    }
}

impl Error {
    /// The failure reason this error puts on the wire.
    pub fn failure_reason(&self) -> (r: &'static str)
        ensures
            r@ == spec_failure_reason(*self),
    {
        match self {
            Error::MissingAuthKey => {
                "Authentication error: Missing authentication key param for private tracker"
            },
            Error::InvalidKeyFormat => {
                "Authentication error: Invalid format for authentication key param"
            },
            Error::CannotExtractKeyParam => {
                "Authentication error: Cannot extract authentication key param from URL path"
            },
        }
    }
}

/// The one reason every store-level authentication failure puts on the
/// wire: a client is never told whether the key was malformed, unknown
/// or expired.
pub open spec fn spec_generic_auth_failure_reason() -> Seq<char> {
    "Authentication error: the provided authentication key is not valid"@
}

/// The wire words for a store-level authentication failure: the same
/// generic reason whatever the cause, which stays in the error value
/// for the operator's log alone.
pub fn auth_failure_reason(e: &AuthenticationError) -> (r: &'static str)
    ensures
        r@ == spec_generic_auth_failure_reason(),
{
    let _ = e;
    "Authentication error: the provided authentication key is not valid"
}

impl From<Error> for ResponseError {
    fn from(err: Error) -> (r: Self)
        ensures
            r.failure_reason@ == spec_failure_reason(err),
    {
        ResponseError { failure_reason: err.failure_reason().to_owned() }
    }
}

impl vstd::std_specs::convert::FromSpecImpl<Error> for ResponseError {
    open spec fn obeys_from_spec() -> bool {
        false
    }

    open spec fn from_spec(err: Error) -> ResponseError {
        vstd::pervasive::arbitrary()
    }
}

impl From<AuthenticationError> for ResponseError {
    fn from(err: AuthenticationError) -> (r: Self)
        ensures
            r.failure_reason@ == spec_generic_auth_failure_reason(),
    {
        ResponseError { failure_reason: auth_failure_reason(&err).to_owned() }
    }
}

impl vstd::std_specs::convert::FromSpecImpl<AuthenticationError> for ResponseError {
    open spec fn obeys_from_spec() -> bool {
        false
    }

    open spec fn from_spec(err: AuthenticationError) -> ResponseError {
        vstd::pervasive::arbitrary()
    }
}

/// Takes the key segment a private-tracker request carried, if any:
/// absent means `MissingAuthKey`, empty means `CannotExtractKeyParam`,
/// a malformed one `InvalidKeyFormat`; a well-formed key is returned
/// as bytes.
pub fn extract_key(segment: Option<&[u8]>) -> (r: Result<Vec<u8>, Error>)
    ensures
        segment is None ==> r == Result::<Vec<u8>, Error>::Err(Error::MissingAuthKey),
        segment matches Some(s) ==> {
            &&& s@.len() == 0 ==> r == Result::<Vec<u8>, Error>::Err(Error::CannotExtractKeyParam)
            &&& s@.len() > 0 && !spec_key_format_ok(s@) ==> r == Result::<Vec<u8>, Error>::Err(
                Error::InvalidKeyFormat)
            &&& spec_key_format_ok(s@) ==> (r matches Ok(v) && v@ == s@)
        },
{
    match segment {
        None => Err(Error::MissingAuthKey),
        Some(s) => {
            if s.len() == 0 {
                return Err(Error::CannotExtractKeyParam);
            }
            if !crate::authentication::key_format_ok(s) {
                return Err(Error::InvalidKeyFormat);
            }
            let mut v: Vec<u8> = Vec::new();
            let mut i: usize = 0;
            while i < s.len()
                invariant
                    i <= s@.len(),
                    v@ == s@.take(i as int),
                decreases s@.len() - i,
            {
                v.push(s[i]);
                proof {
                    assert(v@ =~= s@.take(i + 1));
                }
                i = i + 1;
            }
            proof {
                assert(s@.take(s@.len() as int) =~= s@);
            }
            Ok(v)
        },
    }
}

} // verus!
