//! Where the instance definitions are persisted (`instances.json`, written
//! atomically through a temporary file) and how a damaged file is
//! reported. The file itself is read and written elsewhere.

use crate::error::{is_internal_error, AppError};
use crate::text::concat;
use vstd::prelude::*;

verus! {

pub struct InstanceStore {
    pub path: String,
}

/// What `Path::with_extension(p, ext)` gives, as text.
pub uninterp spec fn path_with_extension(p: Seq<char>, ext: Seq<char>) -> Seq<char>;

/// `Path::with_extension` (lossy back to text). It panics on an extension
/// holding a path separator, which `requires` leaves out.
#[verifier::external_body]
fn with_extension(p: &str, ext: &str) -> (r: String)
    requires
        !ext@.contains('/'),
    ensures
        r@ == path_with_extension(p@, ext@),
{
    std::path::Path::new(p).with_extension(ext).to_string_lossy().into_owned()
}

impl InstanceStore {
    pub fn new(path: String) -> (r: Self)
        ensures
            r.path == path,
    {
        InstanceStore { path }
    }

    /// The temporary file a save writes before renaming it into place.
    pub fn temp_path(&self) -> (r: String)
        ensures
            r@ == path_with_extension(self.path@, "json.tmp"@),
    {
        proof {
            reveal_strlit("json.tmp");
        }
        with_extension(self.path.as_str(), "json.tmp")
    }
}

/// How an unreadable `instances.json` is reported (`cause` is the parser's
/// message).
pub fn corrupt_error(cause: &str) -> (r: AppError)
    ensures
        is_internal_error(r, "instances.json is corrupt: "@ + cause@),
{
    AppError::Internal(concat("instances.json is corrupt: ", cause))
}

} // verus!
