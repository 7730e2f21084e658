//! The scalar data types of the protocol.
use vstd::prelude::*;

verus! {

/// An integer in the range -2^53+1 <= value <= 2^53-1, the integers that a
/// double represents exactly.
#[derive(Clone, Copy, Debug, PartialEq, Eq, Structural, Hash, Default)]
pub struct Int(pub i64);

/// An `Int` that is never negative.
#[derive(Clone, Copy, Debug, PartialEq, Eq, Structural, Hash)]
pub struct UnsignedInt(pub u64);

impl From<u64> for UnsignedInt {
    fn from(value: u64) -> (r: UnsignedInt)
        ensures
            r.0 == value,
    {
        UnsignedInt(value)
    }
}

impl vstd::std_specs::convert::FromSpecImpl<u64> for UnsignedInt {
    open spec fn obeys_from_spec() -> bool {
        true
    }

    open spec fn from_spec(v: u64) -> UnsignedInt {
        UnsignedInt(v)
    }
}

/// A record id assigned by the server: 1 to 255 octets drawn from the URL
/// and filename safe base64 alphabet, without padding.
#[derive(Clone, Debug, PartialEq, Eq, Hash)]
pub struct Id(pub String);

/// A short string that changes whenever the session object changes.
#[derive(Clone, Debug, PartialEq, Eq)]
pub struct SessionState(pub String);

} // verus!
