//! The arguments and results of the standard `/get`, `/changes`, `/set`,
//! `/copy`, `/query` and `/queryChanges` methods.
use vstd::prelude::*;

use crate::common::{Id, Int, UnsignedInt};

verus! {

/// The state of the set of records of one type in one account.
#[derive(Clone, Debug, PartialEq, Eq)]
pub struct ObjectState(pub String);

/// The arguments of `Foo/get`.
pub struct GetParams {
    pub account_id: Id,
    /// The ids to fetch; all records where absent.
    pub ids: Option<Vec<Id>>,
    /// The properties to return; all where absent.
    pub properties: Option<Vec<String>>,
}

/// The result of `Foo/get`.
pub struct GetResponse<T> {
    pub account_id: Id,
    pub state: ObjectState,
    pub list: Vec<T>,
    /// The requested ids that were not found.
    pub not_found: Vec<Id>,
}

/// The arguments of `Foo/changes`.
pub struct ChangesParams {
    pub account_id: Id,
    pub since_state: ObjectState,
    pub max_changes: Option<UnsignedInt>,
}

/// The result of `Foo/changes`.
pub struct ChangesResponse {
    pub account_id: Id,
    pub old_state: ObjectState,
    pub new_state: ObjectState,
    pub has_more_changes: bool,
    pub created: Vec<Id>,
    pub updated: Vec<Id>,
    pub destroyed: Vec<Id>,
}

/// The kinds of error a single record can meet in `Foo/set`.
#[derive(Clone, Copy, Debug, PartialEq, Eq, Structural)]
pub enum SetErrorKind {
    Forbidden,
    OverQuota,
    TooLarge,
    RateLimit,
    NotFound,
    InvalidPatch,
    WillDestroy,
    InvalidProperties,
    Singleton,
}

/// Why one record could not be created, updated or destroyed.
pub struct SetError {
    pub kind: SetErrorKind,
    pub description: Option<String>,
    /// The properties that were invalid.
    pub properties: Vec<String>,
}

/// The result of `Foo/set`: what succeeded, and per record what failed.
pub struct SetResult<T> {
    pub account_id: Id,
    pub old_state: Option<ObjectState>,
    pub new_state: ObjectState,
    pub created: Vec<(Id, T)>,
    pub updated: Vec<(Id, Option<T>)>,
    pub destroyed: Vec<Id>,
    pub not_created: Vec<(Id, SetError)>,
    pub not_updated: Vec<(Id, SetError)>,
    pub not_destroyed: Vec<(Id, SetError)>,
}

/// The arguments of `Foo/copy`.
pub struct CopyParams<T> {
    pub from_account_id: Id,
    pub if_from_in_state: Option<ObjectState>,
    pub account_id: Id,
    pub if_in_state: Option<ObjectState>,
    pub create: Vec<(Id, T)>,
    pub on_success_destroy_original: bool,
    pub destroy_from_if_in_state: Option<ObjectState>,
}

/// The result of `Foo/copy`.
pub struct CopyResponse<T> {
    pub from_account_id: Id,
    pub account_id: Id,
    pub old_state: Option<ObjectState>,
    pub new_state: ObjectState,
    pub created: Vec<(Id, T)>,
    pub not_created: Vec<(Id, SetError)>,
}

/// The state of a query's results.
#[derive(Clone, Debug, PartialEq, Eq)]
pub struct QueryState(pub String);

/// Where the window of a query's results begins.
pub enum Offset {
    /// At this position.
    Position { position: Int },
    /// At this offset from the record with this id.
    Anchor { anchor: Id, anchor_offset: Int },
    /// At the start.
    Default,
}

/// One sort criterion of a query.
pub struct Comparator {
    pub property: String,
    pub is_ascending: bool,
    pub collation: Option<String>,
}

/// The sort order where a comparator names none: ascending.
pub fn default_is_ascending() -> (r: bool)
    ensures
        r,
{
    true
}

/// How the conditions of a filter operator combine.
#[derive(Clone, Copy, Debug, PartialEq, Eq, Structural)]
pub enum Operator {
    And,
    Or,
    Not,
}

/// The result of `Foo/query`.
pub struct QueryResponse {
    pub account_id: Id,
    pub query_state: QueryState,
    pub can_calculate_changes: bool,
    pub position: UnsignedInt,
    pub ids: Vec<Id>,
    pub total: Option<UnsignedInt>,
    pub limit: Option<UnsignedInt>,
}

/// A record that entered a query's results, and where.
pub struct AddedItem {
    pub id: Id,
    pub index: UnsignedInt,
}

} // verus!
