//! The conversion protocol: the four traits every host type implements to
//! cross the runtime boundary, single-value and multi-value, in both
//! directions.
//!
//! The multi-value decoding direction follows the runtime's call and
//! assignment semantics: a shorter list than the type needs is padded with
//! trailing `Nil`, and extra trailing values are ignored rather than
//! rejected.

use vstd::prelude::*;
use vstd::string::StringExecFns;
use crate::value::{Value, value_wf, variant_name_text};
use crate::runtime::Lua;
use crate::multi::MultiValue;
use crate::error::Error;
use crate::num::{Number, exact_int};

verus! {

/// Conversion of a host value into a runtime value.
pub trait IntoLua: Sized {
    /// Performs the conversion against the given runtime instance.
    fn into_lua(self, lua: &mut Lua) -> (r: Result<Value, Error>)
        requires
            old(lua).wf(),
        ensures
            final(lua).wf(),
            final(lua).id == old(lua).id,
    ;
}

/// Conversion of a runtime value into a host value.
pub trait FromLua: Sized {
    /// Performs the conversion against the given runtime instance.
    fn from_lua(value: Value, lua: &Lua) -> (r: Result<Self, Error>);

    /// Performs the conversion for a call argument: a failure is wrapped
    /// with the argument's 1-based position `i`, the name `to` of the
    /// receiving callable, and the underlying failure as the cause.
    fn from_lua_arg(value: Value, i: usize, to: Option<String>, lua: &Lua) -> (r: Result<
        Self,
        Error,
    >)
        ensures
            r is Err ==> (r->Err_0 matches Error::BadArgument {
                to: t,
                pos,
                name,
                cause,
            } && pos == i && name is None && t == to),
    {
        wrap_arg_failure(Self::from_lua(value, lua), i, to)
    }
}

/// The positional error augmentation: a successful conversion passes
/// through unchanged; a failed one comes back as an argument error carrying
/// the 1-based position `i`, no argument name, the receiving callable's
/// name, and the underlying failure as the cause.
pub fn wrap_arg_failure<T>(inner: Result<T, Error>, i: usize, to: Option<String>) -> (r: Result<
    T,
    Error,
>)
    ensures
        inner is Ok ==> r == inner,
        inner matches Result::Err(e) ==> (r matches Result::Err(
            Error::BadArgument { to: t, pos, name, cause },
        ) && pos == i && name is None && t == to && *cause == e),
{
    match inner {
        Result::Ok(v) => Result::Ok(v),
        Result::Err(e) => Result::Err(
            Error::BadArgument { to, pos: i, name: Option::None, cause: Box::new(e) },
        ),
    }
}

/// Conversion of a host value into a list of runtime values.
pub trait IntoLuaMulti: Sized {
    /// Performs the conversion against the given runtime instance.
    fn into_lua_multi(self, lua: &mut Lua) -> (r: Result<MultiValue, Error>)
        requires
            old(lua).wf(),
        ensures
            final(lua).wf(),
            final(lua).id == old(lua).id,
    ;
}

/// Conversion of a list of runtime values into a host value.  Missing
/// trailing positions are read as `Nil`; extra trailing values are ignored.
pub trait FromLuaMulti: Sized {
    /// Performs the conversion against the given runtime instance.
    fn from_lua_multi(values: MultiValue, lua: &Lua) -> (r: Result<Self, Error>);

    /// Performs the conversion for a list of call arguments beginning at
    /// 1-based position `i`, for the callable named `to`.
    fn from_lua_multi_args(values: MultiValue, i: usize, to: Option<String>, lua: &Lua) -> (r:
        Result<Self, Error>) {
        let _ = (i, to);
        Self::from_lua_multi(values, lua)
    }
}

impl IntoLua for Value {
    /// A value converts to itself.
    fn into_lua(self, lua: &mut Lua) -> (r: Result<Value, Error>)
        ensures
            *old(lua) == *final(lua),
            r == Result::<Value, Error>::Ok(self),
    {
        Result::Ok(self)
    }
}

impl IntoLua for bool {
    /// A boolean becomes a `Boolean` value.
    fn into_lua(self, lua: &mut Lua) -> (r: Result<Value, Error>)
        ensures
            *old(lua) == *final(lua),
            r == Result::<Value, Error>::Ok(Value::Boolean(self)),
    {
        Result::Ok(Value::Boolean(self))
    }
}

impl IntoLua for i64 {
    /// An integer becomes an `Integer` value.
    fn into_lua(self, lua: &mut Lua) -> (r: Result<Value, Error>)
        ensures
            *old(lua) == *final(lua),
            r == Result::<Value, Error>::Ok(Value::Integer(self)),
    {
        Result::Ok(Value::Integer(self))
    }
}

impl IntoLua for Number {
    /// A number becomes a `Number` value.
    fn into_lua(self, lua: &mut Lua) -> (r: Result<Value, Error>)
        ensures
            *old(lua) == *final(lua),
            r == Result::<Value, Error>::Ok(Value::Number(self)),
    {
        Result::Ok(Value::Number(self))
    }
}

impl IntoLua for String {
    /// Host text is interned as a runtime string.
    fn into_lua(self, lua: &mut Lua) -> (r: Result<Value, Error>)
        ensures
            r is Ok,
            r->Ok_0 is String,
            value_wf(r->Ok_0, final(lua).id, final(lua).objects@),
            vstd::utf8::valid_utf8(final(lua).str_bytes(r->Ok_0->String_0)),
            vstd::utf8::decode_utf8(final(lua).str_bytes(r->Ok_0->String_0)) == self@,
    {
        let bytes = text_to_bytes(self);
        let h = lua.create_string(bytes);
        Result::Ok(Value::String(h))
    }
}

/// Relies on `String::into_bytes`: the bytes are the text's UTF-8 encoding,
/// so they are valid UTF-8 and decode back to the same text.
#[verifier::external_body]
fn text_to_bytes(s: String) -> (r: Vec<u8>)
    ensures
        vstd::utf8::valid_utf8(r@),
        vstd::utf8::decode_utf8(r@) == s@,
{
    s.into_bytes()
}

impl FromLua for Value {
    /// A value converts from itself.
    fn from_lua(value: Value, lua: &Lua) -> (r: Result<Value, Error>)
        ensures
            r == Result::<Value, Error>::Ok(value),
    {
        Result::Ok(value)
    }

    /// Argument decoding with positional augmentation: a value always decodes as itself.
    fn from_lua_arg(value: Value, i: usize, to: Option<String>, lua: &Lua) -> (r: Result<
        Self,
        Error,
    >)
        ensures
            r == Result::<Value, Error>::Ok(value),
    {
        wrap_arg_failure(Self::from_lua(value, lua), i, to)
    }
}

impl FromLua for bool {
    /// Truthiness: `Nil` and `false` are false, every other value is true.
    fn from_lua(value: Value, lua: &Lua) -> (r: Result<bool, Error>)
        ensures
            r == Result::<bool, Error>::Ok(
                match value {
                    Value::Nil => false,
                    Value::Boolean(b) => b,
                    _ => true,
                },
            ),
    {
        match value {
            Value::Nil => Result::Ok(false),
            Value::Boolean(b) => Result::Ok(b),
            _ => Result::Ok(true),
        }
    }

    /// Argument decoding with positional augmentation: truthiness always succeeds.
    fn from_lua_arg(value: Value, i: usize, to: Option<String>, lua: &Lua) -> (r: Result<
        Self,
        Error,
    >)
        ensures
            r == Result::<bool, Error>::Ok(
                match value {
                    Value::Nil => false,
                    Value::Boolean(b) => b,
                    _ => true,
                },
            ),
    {
        wrap_arg_failure(Self::from_lua(value, lua), i, to)
    }
}

impl FromLua for i64 {
    /// An `Integer` converts as it is; a `Number` converts exactly when it
    /// denotes a machine integer; everything else is a decoding error.
    fn from_lua(value: Value, lua: &Lua) -> (r: Result<i64, Error>)
        ensures
            match value {
                Value::Integer(i) => r == Result::<i64, Error>::Ok(i),
                Value::Number(n) => match exact_int(n.bits) {
                    Option::Some(i) => r is Ok && r->Ok_0 == i,
                    Option::None => r matches Result::Err(Error::FromLuaConversionError { from, to })
                        && from@ == variant_name_text(value) && to@ == "i64"@,
                },
                _ => r matches Result::Err(Error::FromLuaConversionError { from, to }) && from@
                    == variant_name_text(value) && to@ == "i64"@,
            },
    {
        proof {
            reveal_strlit("i64");
        }
        match value {
            Value::Integer(i) => Result::Ok(i),
            Value::Number(n) => {
                match n.as_exact_i64() {
                    Option::Some(i) => Result::Ok(i),
                    Option::None => Result::Err(
                        Error::FromLuaConversionError { from: value.variant_name(), to: "i64" },
                    ),
                }
            },
            _ => Result::Err(
                Error::FromLuaConversionError { from: value.variant_name(), to: "i64" },
            ),
        }
    }

    /// Argument decoding with positional augmentation: the decoding failure is wrapped with its position.
    fn from_lua_arg(value: Value, i: usize, to: Option<String>, lua: &Lua) -> (r: Result<
        Self,
        Error,
    >)
        ensures
            match value {
                Value::Integer(n) => r == Result::<i64, Error>::Ok(n),
                Value::Number(n) => match exact_int(n.bits) {
                    Option::Some(n) => r is Ok && r->Ok_0 == n,
                    Option::None => bad_int_argument(r, value, i, to),
                },
                _ => bad_int_argument(r, value, i, to),
            },
    {
        wrap_arg_failure(Self::from_lua(value, lua), i, to)
    }
}

impl FromLua for Number {
    /// Only a `Number` converts; everything else is a decoding error.
    fn from_lua(value: Value, lua: &Lua) -> (r: Result<Number, Error>)
        ensures
            match value {
                Value::Number(n) => r is Ok && r->Ok_0 == n,
                _ => r matches Result::Err(Error::FromLuaConversionError { from, to }) && from@
                    == variant_name_text(value) && to@ == "number"@,
            },
    {
        proof {
            reveal_strlit("number");
        }
        match value {
            Value::Number(n) => Result::Ok(n),
            _ => Result::Err(
                Error::FromLuaConversionError { from: value.variant_name(), to: "number" },
            ),
        }
    }

    /// Argument decoding with positional augmentation: the decoding failure is wrapped with its position.
    fn from_lua_arg(value: Value, i: usize, to: Option<String>, lua: &Lua) -> (r: Result<
        Self,
        Error,
    >)
        ensures
            match value {
                Value::Number(n) => r is Ok && r->Ok_0 == n,
                _ => (r matches Result::Err(Error::BadArgument { to: t, pos, name, cause })
                    && pos == i && name is None && t == to && (*cause matches
                Error::FromLuaConversionError { from, to: ty } && from@ == variant_name_text(
                    value,
                ) && ty@ == "number"@)),
            },
    {
        wrap_arg_failure(Self::from_lua(value, lua), i, to)
    }
}

impl FromLua for Option<Value> {
    /// `Nil` decodes to an absent value; everything else is present.
    fn from_lua(value: Value, lua: &Lua) -> (r: Result<Option<Value>, Error>)
        ensures
            r == Result::<Option<Value>, Error>::Ok(
                match value {
                    Value::Nil => Option::<Value>::None,
                    _ => Option::Some(value),
                },
            ),
    {
        match value {
            Value::Nil => Result::Ok(Option::None),
            _ => Result::Ok(Option::Some(value)),
        }
    }

    /// Argument decoding with positional augmentation: an optional value always succeeds.
    fn from_lua_arg(value: Value, i: usize, to: Option<String>, lua: &Lua) -> (r: Result<
        Self,
        Error,
    >)
        ensures
            r == Result::<Option<Value>, Error>::Ok(
                match value {
                    Value::Nil => Option::<Value>::None,
                    _ => Option::Some(value),
                },
            ),
    {
        wrap_arg_failure(Self::from_lua(value, lua), i, to)
    }
}

/// The shape of a wrapped integer-decoding failure: an argument error at
/// the given position, with no argument name, the given callable name, and
/// the conversion failure naming the value's variant as its cause.
pub open spec fn bad_int_argument(
    r: Result<i64, Error>,
    value: Value,
    i: usize,
    to: Option<String>,
) -> bool {
    &&& r matches Result::Err(Error::BadArgument { to: t, pos, name, cause })
    &&& pos == i
    &&& name is None
    &&& t == to
    &&& (*cause matches Error::FromLuaConversionError { from, to: ty } && from@
        == variant_name_text(value) && ty@ == "i64"@)
}

/// The value at a logical position of a list, read as `Nil` past its end:
/// the runtime's padding rule.
pub open spec fn padded(values: Seq<Value>, i: int) -> Value {
    if 0 <= i < values.len() {
        values[i]
    } else {
        Value::Nil
    }
}

impl IntoLuaMulti for Value {
    /// A single value becomes a one-element list.
    fn into_lua_multi(self, lua: &mut Lua) -> (r: Result<MultiValue, Error>)
        ensures
            *old(lua) == *final(lua),
            r is Ok && r->Ok_0@ == seq![self],
    {
        let mut mv = MultiValue::new();
        mv.push_front(self);
        proof {
            assert(mv@ =~= seq![self]);
        }
        Result::Ok(mv)
    }
}

impl IntoLuaMulti for MultiValue {
    /// A list converts to itself.
    fn into_lua_multi(self, lua: &mut Lua) -> (r: Result<MultiValue, Error>)
        ensures
            *old(lua) == *final(lua),
            r is Ok && r->Ok_0@ == self@,
    {
        Result::Ok(self)
    }
}

impl IntoLuaMulti for () {
    /// The unit value becomes the empty list.
    fn into_lua_multi(self, lua: &mut Lua) -> (r: Result<MultiValue, Error>)
        ensures
            *old(lua) == *final(lua),
            r is Ok && r->Ok_0@ == Seq::<Value>::empty(),
    {
        Result::Ok(MultiValue::new())
    }
}

impl IntoLuaMulti for (Value, Value) {
    /// A pair becomes a two-element list.
    fn into_lua_multi(self, lua: &mut Lua) -> (r: Result<MultiValue, Error>)
        ensures
            *old(lua) == *final(lua),
            r is Ok && r->Ok_0@ == seq![self.0, self.1],
    {
        let (a, b) = self;
        let mut mv = MultiValue::new();
        mv.push_front(b);
        mv.push_front(a);
        proof {
            assert(mv@ =~= seq![a, b]);
        }
        Result::Ok(mv)
    }
}

impl IntoLuaMulti for (Value, Value, Value) {
    /// A triple becomes a three-element list.
    fn into_lua_multi(self, lua: &mut Lua) -> (r: Result<MultiValue, Error>)
        ensures
            *old(lua) == *final(lua),
            r is Ok && r->Ok_0@ == seq![self.0, self.1, self.2],
    {
        let (a, b, c) = self;
        let mut mv = MultiValue::new();
        mv.push_front(c);
        mv.push_front(b);
        mv.push_front(a);
        proof {
            assert(mv@ =~= seq![a, b, c]);
        }
        Result::Ok(mv)
    }
}

impl FromLuaMulti for Value {
    /// One position is read: the front value, `Nil` when the list is
    /// shorter, with every extra value ignored.
    fn from_lua_multi(values: MultiValue, lua: &Lua) -> (r: Result<Value, Error>)
        ensures
            r == Result::<Value, Error>::Ok(padded(values@, 0)),
    {
        let mut values = values;
        match values.pop_front() {
            Option::Some(v) => Result::Ok(v),
            Option::None => Result::Ok(Value::Nil),
        }
    }

    /// Performs the conversion for a list of call arguments beginning at
    /// 1-based position `i`, for the callable named `to`: the default
    /// delegation, with the position and name ignored.
    fn from_lua_multi_args(values: MultiValue, i: usize, to: Option<String>, lua: &Lua) -> (r:
        Result<Self, Error>)
        ensures
            r == Result::<Value, Error>::Ok(padded(values@, 0)),
    {
        let _ = (i, to);
        Self::from_lua_multi(values, lua)
    }
}

impl FromLuaMulti for MultiValue {
    /// The whole list is taken as it is.
    fn from_lua_multi(values: MultiValue, lua: &Lua) -> (r: Result<MultiValue, Error>)
        ensures
            r is Ok && r->Ok_0@ == values@,
    {
        Result::Ok(values)
    }

    /// Performs the conversion for a list of call arguments beginning at
    /// 1-based position `i`, for the callable named `to`: the default
    /// delegation, with the position and name ignored.
    fn from_lua_multi_args(values: MultiValue, i: usize, to: Option<String>, lua: &Lua) -> (r:
        Result<Self, Error>)
        ensures
            r is Ok && r->Ok_0@ == values@,
    {
        let _ = (i, to);
        Self::from_lua_multi(values, lua)
    }
}

impl FromLuaMulti for () {
    /// No position is read: every value is ignored.
    fn from_lua_multi(values: MultiValue, lua: &Lua) -> (r: Result<(), Error>)
        ensures
            r is Ok,
    {
        Result::Ok(())
    }

    /// Performs the conversion for a list of call arguments beginning at
    /// 1-based position `i`, for the callable named `to`: the default
    /// delegation, with the position and name ignored.
    fn from_lua_multi_args(values: MultiValue, i: usize, to: Option<String>, lua: &Lua) -> (r:
        Result<Self, Error>)
        ensures
            r is Ok,
    {
        let _ = (i, to);
        Self::from_lua_multi(values, lua)
    }
}

impl FromLuaMulti for (Value, Value) {
    /// Two positions are read, missing ones as `Nil`, extra ones ignored.
    fn from_lua_multi(values: MultiValue, lua: &Lua) -> (r: Result<(Value, Value), Error>)
        ensures
            r is Ok,
            r->Ok_0.0 == padded(values@, 0),
            r->Ok_0.1 == padded(values@, 1),
    {
        let mut values = values;
        let a = match values.pop_front() {
            Option::Some(v) => v,
            Option::None => Value::Nil,
        };
        let b = match values.pop_front() {
            Option::Some(v) => v,
            Option::None => Value::Nil,
        };
        Result::Ok((a, b))
    }

    /// Performs the conversion for a list of call arguments beginning at
    /// 1-based position `i`, for the callable named `to`: the default
    /// delegation, with the position and name ignored.
    fn from_lua_multi_args(values: MultiValue, i: usize, to: Option<String>, lua: &Lua) -> (r:
        Result<Self, Error>)
        ensures
            r is Ok,
            r->Ok_0.0 == padded(values@, 0),
            r->Ok_0.1 == padded(values@, 1),
    {
        let _ = (i, to);
        Self::from_lua_multi(values, lua)
    }
}

impl FromLuaMulti for (Value, Value, Value) {
    /// Three positions are read, missing ones as `Nil`, extra ones ignored.
    fn from_lua_multi(values: MultiValue, lua: &Lua) -> (r: Result<(Value, Value, Value), Error>)
        ensures
            r is Ok,
            r->Ok_0.0 == padded(values@, 0),
            r->Ok_0.1 == padded(values@, 1),
            r->Ok_0.2 == padded(values@, 2),
    {
        let mut values = values;
        let a = match values.pop_front() {
            Option::Some(v) => v,
            Option::None => Value::Nil,
        };
        let b = match values.pop_front() {
            Option::Some(v) => v,
            Option::None => Value::Nil,
        };
        let c = match values.pop_front() {
            Option::Some(v) => v,
            Option::None => Value::Nil,
        };
        Result::Ok((a, b, c))
    }

    /// Performs the conversion for a list of call arguments beginning at
    /// 1-based position `i`, for the callable named `to`: the default
    /// delegation, with the position and name ignored.
    fn from_lua_multi_args(values: MultiValue, i: usize, to: Option<String>, lua: &Lua) -> (r:
        Result<Self, Error>)
        ensures
            r is Ok,
            r->Ok_0.0 == padded(values@, 0),
            r->Ok_0.1 == padded(values@, 1),
            r->Ok_0.2 == padded(values@, 2),
    {
        let _ = (i, to);
        Self::from_lua_multi(values, lua)
    }
}

} // verus!
