//! The request-facing rules: the error taxonomy, the credential-gated
//! directory listing, single-segment retrieval, and the URL reported for a
//! stored file.

use vstd::prelude::*;
use vstd::string::StringExecFns;

use crate::auth::CredentialGate;
use crate::path_check::{path_is_valid, valid_segment};
use crate::storage::StorageModel;

verus! {

/// A client-fault refusal. An unauthorized caller learns nothing beyond the
/// refusal itself: the variant carries no stored names and no hint of why
/// the credential was rejected.
#[derive(Clone, Copy, Debug, PartialEq, Eq, Structural)]
pub enum RequestError {
    /// The presented credential is not in the accepted set.
    Unauthorized,
    /// A client-supplied filename is not a safe single path segment.
    InvalidName,
}

impl RequestError {
    /// The HTTP status each refusal is reported with.
    pub open spec fn spec_status_code(&self) -> u16 {
        match self {
            RequestError::Unauthorized => 401,
            RequestError::InvalidName => 400,
        }
    }

    pub fn status_code(&self) -> (c: u16)
        ensures
            c == self.spec_status_code(),
    {
        match self {
            RequestError::Unauthorized => 401,
            RequestError::InvalidName => 400,
        }
    }
}

/// Enumerates the names stored under the root, gated by the credential gate.
/// An unauthorized caller is refused before storage is consulted, and the
/// refusal carries none of the stored names.
pub fn list(gate: &CredentialGate, presented: &str, storage: &StorageModel) -> (r: Result<
    Vec<String>,
    RequestError,
>)
    requires
        storage.wf(),
    ensures
        gate.accepts(presented@) ==> (r matches Result::Ok(names) && names.deep_view().to_set()
            == storage@.dom() && names.deep_view().no_duplicates()),
        !gate.accepts(presented@) ==> (r matches Result::Err(e) && e
            == RequestError::Unauthorized),
{
    if !gate.is_authorized(presented) {
        return Result::Err(RequestError::Unauthorized);
    }
    Result::Ok(storage.list_names())
}

/// Read-only retrieval by name. The routing layer's own traversal check: a
/// name that is not a single path segment is refused here, independently of
/// the validation done at upload time, and only a present file answers.
pub fn retrieve<'a>(storage: &'a StorageModel, name: &str) -> (r: Option<&'a Vec<u8>>)
    requires
        storage.wf(),
    ensures
        match r {
            Option::Some(d) => valid_segment(name@) && storage@.dom().contains(name@) && d@
                == storage@[name@],
            Option::None => !(valid_segment(name@) && storage@.dom().contains(name@)),
        },
{
    if !path_is_valid(name) {
        return Option::None;
    }
    storage.get(name)
}

/// The URL reported for a stored file: the request's origin, a separator,
/// and the filename.
pub fn make_url(origin: &str, name: &str) -> (r: String)
    ensures
        r@ == origin@ + seq!['/'] + name@,
{
    let mut url = String::from_str(origin);
    url.append("/");
    url.append(name);
    proof {
        reveal_strlit("/");
        assert("/"@ =~= seq!['/']);
        assert(url@ =~= origin@ + seq!['/'] + name@);
    }
    url
}

} // verus!
