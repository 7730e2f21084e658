//! Push events: what the server sends when something changed.
use vstd::prelude::*;
use vstd::string::*;

use crate::common::Id;
use crate::object::ObjectState;

verus! {

/// An event carries its type name on the wire.
pub trait Event: Sized {
    /// The type name of this event.
    fn event_name() -> String;

    /// This event with its type name.
    fn into_event(self) -> BuiltEvent<Self> {
        BuiltEvent { type_: Self::event_name(), inner: self }
    }
}

/// An event ready to send: its type name and its content.
pub struct BuiltEvent<T> {
    pub type_: String,
    pub inner: T,
}

/// The states that changed: per account, per data type, the new state.
pub struct StateChange {
    pub changed: Vec<(Id, Vec<(String, ObjectState)>)>,
}

impl Event for StateChange {
    fn event_name() -> (r: String) {
        String::from_str("StateChange")
    }
}

} // verus!
