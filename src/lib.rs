//! A JMAP request-processing core: the envelope codec, result-reference
//! resolution, extension dispatch, the request pipeline and the account and
//! state store, each with its contract proved by Verus.
pub mod api;
pub mod blob;
pub mod codec;
pub mod common;
pub mod config;
pub mod credentials;
pub mod errors;
pub mod events;
pub mod extensions;
pub mod json;
pub mod merge;
pub mod object;
pub mod resolver;
pub mod session;
pub mod store;
pub mod util;
