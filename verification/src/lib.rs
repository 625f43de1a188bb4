//! Bridge layer between a host program and an embedded dynamically typed
//! scripting runtime: the dynamic value representation, its comparison,
//! printing and serialization semantics, and the multi-value marshaling
//! container used for argument and return-value passing.

pub mod ord;
pub mod num;
pub mod text;
pub mod digits;
pub mod error;
pub mod value;
pub mod runtime;
pub mod multi;
pub mod conv;
pub mod ser;
pub mod pretty;
pub mod laws;
