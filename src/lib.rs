//! Marshalling between a Lua-style dynamic value model and JSON-style structured
//! values, and the event protocol that drives script-defined UI handlers.
use vstd::prelude::*;

pub mod convert;
pub mod dispatch;
pub mod value;
