//! The arguments and results of the blob methods.
use vstd::prelude::*;

use crate::common::{Id, UnsignedInt};
use crate::object::SetError;

verus! {

/// The arguments of `Blob/copy`.
pub struct CopyRequest {
    pub from_account_id: Id,
    pub account_id: Id,
    pub blob_ids: Vec<Id>,
}

/// The result of `Blob/copy`: each copied blob's new id, and the failures.
pub struct CopyResponse {
    pub from_account_id: Id,
    pub account_id: Id,
    pub copied: Vec<(Id, Id)>,
    pub not_copied: Vec<(Id, SetError)>,
}

/// The variables of the download URL template.
pub struct DownloadRequest {
    pub account_id: Id,
    pub blob_id: Id,
    pub type_: String,
    pub name: String,
}

/// The answer to an upload.
pub struct UploadResponse {
    pub account_id: Id,
    pub blob_id: Id,
    pub type_: String,
    pub size: UnsignedInt,
}

} // verus!
