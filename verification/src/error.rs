//! Recoverable failures of the boundary layer.
//!
//! Decoding errors report a value that did not match the type a conversion
//! expected; argument errors wrap a decoding error with the position of the
//! offending call argument; runtime errors carry a failure raised inside a
//! metamethod hook, propagated unchanged.  Misuse of a handle against the
//! wrong runtime instance is not represented here: it is a programming
//! error, excluded by the preconditions of every operation entry point.

use vstd::prelude::*;
use vstd::string::StringExecFns;
use crate::text::{dec_nat, push_dec_u64};

verus! {

/// An error produced while moving values across the runtime boundary.
#[derive(Debug)]
pub enum Error {
    /// A value did not match the type a conversion expected.
    FromLuaConversionError {
        /// Name of the value's variant.
        from: &'static str,
        /// Name of the host type the conversion wanted.
        to: &'static str,
    },
    /// A runtime string's bytes are not valid text.
    Utf8Error,
    /// A conversion failure while decoding a call argument, wrapped with the
    /// 1-based argument position, the optional name of the receiving
    /// callable, and the underlying failure as the cause.
    BadArgument {
        /// Name of the callable that received the argument.
        to: Option<String>,
        /// 1-based position of the argument.
        pos: usize,
        /// Name of the argument, when one is known.
        name: Option<String>,
        /// The decoding failure being wrapped.
        cause: Box<Error>,
    },
    /// An error raised inside a metamethod hook.
    RuntimeError(String),
    /// A value whose variant cannot be serialized.
    SerializeError(String),
}

/// The display text of an error.
pub open spec fn error_text(e: Error) -> Seq<char>
    decreases e,
{
    match e {
        Error::FromLuaConversionError { from, to } => "error converting "@ + from@ + " to "@
            + to@,
        Error::Utf8Error => "string is not valid text"@,
        Error::BadArgument { to, pos, name, cause } => "bad argument #"@ + dec_nat(pos as int)
            + ": "@ + error_text(*cause),
        Error::RuntimeError(s) => "runtime error: "@ + s@,
        Error::SerializeError(s) => s@,
    }
}

impl Clone for Error {
    /// A deep copy, as observing an error value from the runtime side makes
    /// one.
    fn clone(&self) -> (r: Error)
        decreases *self,
    {
        match self {
            Error::FromLuaConversionError { from, to } => Error::FromLuaConversionError {
                from: *from,
                to: *to,
            },
            Error::Utf8Error => Error::Utf8Error,
            Error::BadArgument { to, pos, name, cause } => Error::BadArgument {
                to: to.clone(),
                pos: *pos,
                name: name.clone(),
                cause: Box::new((**cause).clone()),
            },
            Error::RuntimeError(m) => Error::RuntimeError(m.clone()),
            Error::SerializeError(m) => Error::SerializeError(m.clone()),
        }
    }
}

impl Error {
    /// Renders the error as human-readable text.
    pub fn display_text(&self) -> (r: String)
        ensures
            r@ == error_text(*self),
        decreases *self,
    {
        proof {
            reveal_strlit("error converting ");
            reveal_strlit(" to ");
            reveal_strlit("string is not valid text");
            reveal_strlit("bad argument #");
            reveal_strlit(": ");
            reveal_strlit("runtime error: ");
            reveal_strlit("");
        }
        match self {
            Error::FromLuaConversionError { from, to } => {
                let mut s = String::new();
                s.append("error converting ");
                s.append(from);
                s.append(" to ");
                s.append(to);
                s
            },
            Error::Utf8Error => {
                let mut s = String::new();
                s.append("string is not valid text");
                s
            },
            Error::BadArgument { to, pos, name, cause } => {
                let mut s = String::new();
                s.append("bad argument #");
                push_dec_u64(*pos as u64, &mut s);
                s.append(": ");
                let inner = cause.display_text();
                s.append(inner.as_str());
                s
            },
            Error::RuntimeError(m) => {
                let mut s = String::new();
                s.append("runtime error: ");
                s.append(m.as_str());
                s
            },
            Error::SerializeError(m) => {
                let mut s = String::new();
                s.append(m.as_str());
                s
            },
        }
    }
}

} // verus!
