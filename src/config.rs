//! Server limits advertised to clients.
use vstd::prelude::*;

verus! {

/// The limits the server advertises in its core capability and enforces.
#[derive(Clone, Copy, Debug, PartialEq, Eq, Structural)]
pub struct CoreCapabilities {
    /// The largest upload, in octets.
    pub max_size_upload: u64,
    /// The most concurrent requests to the upload endpoint.
    pub max_concurrent_upload: u64,
    /// The largest request to the API endpoint, in octets.
    pub max_size_request: u64,
    /// The most concurrent requests to the API endpoint.
    pub max_concurrent_requests: u64,
    /// The most method calls in one request.
    pub max_calls_in_request: u64,
    /// The most objects one `/get` call may ask for.
    pub max_objects_in_get: u64,
    /// The most objects one `/set` call may create, update or destroy.
    pub max_objects_in_set: u64,
}

impl CoreCapabilities {
    pub fn default_max_size_upload() -> (r: u64)
        ensures
            r == 50_000_000,
    {
        50_000_000
    }

    pub fn default_max_concurrent_upload() -> (r: u64)
        ensures
            r == 4,
    {
        4
    }

    pub fn default_max_size_request() -> (r: u64)
        ensures
            r == 10_000_000,
    {
        10_000_000
    }

    pub fn default_max_concurrent_requests() -> (r: u64)
        ensures
            r == 4,
    {
        4
    }

    pub fn default_max_calls_in_request() -> (r: u64)
        ensures
            r == 16,
    {
        16
    }

    pub fn default_max_objects_in_get() -> (r: u64)
        ensures
            r == 500,
    {
        500
    }

    pub fn default_max_objects_in_set() -> (r: u64)
        ensures
            r == 500,
    {
        500
    }
}

impl Default for CoreCapabilities {
    /// The suggested minimum of each limit.
    fn default() -> (r: CoreCapabilities)
        ensures
            r == (CoreCapabilities {
                max_size_upload: 50_000_000,
                max_concurrent_upload: 4,
                max_size_request: 10_000_000,
                max_concurrent_requests: 4,
                max_calls_in_request: 16,
                max_objects_in_get: 500,
                max_objects_in_set: 500,
            }),
    {
        CoreCapabilities {
            max_size_upload: Self::default_max_size_upload(),
            max_concurrent_upload: Self::default_max_concurrent_upload(),
            max_size_request: Self::default_max_size_request(),
            max_concurrent_requests: Self::default_max_concurrent_requests(),
            max_calls_in_request: Self::default_max_calls_in_request(),
            max_objects_in_get: Self::default_max_objects_in_get(),
            max_objects_in_set: Self::default_max_objects_in_set(),
        }
    }
}

} // verus!
