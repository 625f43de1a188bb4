//! The serialization entry point: what each value serializes as.
//!
//! The core decides the serialized shape of every variant; a serialization
//! framework binding turns that shape into its own data model.  `Nil` is a
//! unit, the null sentinel is an absent value, scalars are themselves,
//! strings yield their bytes, and tables and host objects delegate to their
//! own serialization.  An error value, a non-null raw address, a callable or
//! an execution context cannot be serialized: the failure names the variant.

use vstd::prelude::*;
use vstd::string::StringExecFns;
use crate::value::{Value, value_wf, variant_name_text, Table, AnyUserData};
use crate::runtime::{Lua, ObjKind};
use crate::error::Error;
use crate::num::Number;

verus! {

/// The serialized shape of a value.
pub enum SerValue {
    /// A unit: the serialization of `Nil`.
    Unit,
    /// A boolean scalar.
    Bool(bool),
    /// An integer scalar.
    Integer(i64),
    /// A double-precision scalar.
    Number(Number),
    /// The bytes of a string.
    Bytes(Vec<u8>),
    /// An absent value: the serialization of the null sentinel.
    Absent,
    /// Delegation to a table's own serialization.
    Table(Table),
    /// Delegation to a host object's own serialization.
    UserData(AnyUserData),
}

/// The message of a failed serialization: it names the variant.
pub open spec fn cannot_serialize_text(v: Value) -> Seq<char> {
    "cannot serialize <"@ + variant_name_text(v) + ">"@
}

/// Whether a value's variant can be serialized at all.
pub open spec fn serializable(v: Value) -> bool {
    match v {
        Value::Nil => true,
        Value::Boolean(b) => true,
        Value::Integer(i) => true,
        Value::Number(n) => true,
        Value::String(h) => true,
        Value::Table(h) => true,
        Value::UserData(h) => true,
        Value::LightUserData(p) => p.0 == 0,
        _ => false,
    }
}

impl Value {
    /// The serialized shape of this value, or the failure naming its
    /// variant when the variant cannot be represented.
    pub fn serialize_repr(&self, lua: &Lua) -> (r: Result<SerValue, Error>)
        requires
            lua.wf(),
            value_wf(*self, lua.id, lua.objects@),
        ensures
            match r {
                Result::Ok(sv) => serializable(*self) && match *self {
                    Value::Nil => sv is Unit,
                    Value::Boolean(b) => sv == SerValue::Bool(b),
                    Value::Integer(i) => sv == SerValue::Integer(i),
                    Value::Number(n) => sv == SerValue::Number(n),
                    Value::String(h) => sv is Bytes && sv->Bytes_0@ == lua.str_bytes(h),
                    Value::Table(h) => sv == SerValue::Table(h),
                    Value::UserData(h) => sv == SerValue::UserData(h),
                    Value::LightUserData(p) => sv is Absent,
                    _ => false,
                },
                Result::Err(e) => !serializable(*self) && (e matches Error::SerializeError(m)
                    && m@ == cannot_serialize_text(*self)),
            },
    {
        proof {
            reveal_strlit("cannot serialize <");
            reveal_strlit(">");
        }
        match self {
            Value::Nil => Result::Ok(SerValue::Unit),
            Value::Boolean(b) => Result::Ok(SerValue::Bool(*b)),
            Value::Integer(i) => Result::Ok(SerValue::Integer(*i)),
            Value::Number(n) => Result::Ok(SerValue::Number(*n)),
            Value::String(h) => {
                let bytes = match &lua.objects[h.index].kind {
                    ObjKind::Str(bytes) => clone_bytes(bytes),
                    _ => {
                        proof {
                            assert(false);
                        }
                        Vec::new()
                    },
                };
                Result::Ok(SerValue::Bytes(bytes))
            },
            Value::Table(h) => Result::Ok(SerValue::Table(*h)),
            Value::UserData(h) => Result::Ok(SerValue::UserData(*h)),
            Value::LightUserData(p) => {
                if p.0 == 0 {
                    Result::Ok(SerValue::Absent)
                } else {
                    Result::Err(Error::SerializeError(self.cannot_serialize_message()))
                }
            },
            _ => Result::Err(Error::SerializeError(self.cannot_serialize_message())),
        }
    }

    /// Builds the failure message naming this value's variant.
    fn cannot_serialize_message(&self) -> (r: String)
        ensures
            r@ == cannot_serialize_text(*self),
    {
        proof {
            reveal_strlit("cannot serialize <");
            reveal_strlit(">");
        }
        let mut s = String::new();
        s.append("cannot serialize <");
        s.append(self.variant_name());
        s.append(">");
        s
    }
}

/// Copies a byte vector.
fn clone_bytes(b: &Vec<u8>) -> (r: Vec<u8>)
    ensures
        r@ == b@,
{
    let mut out: Vec<u8> = Vec::new();
    let n = b.len();
    let mut i: usize = 0;
    while i < n
        invariant
            n == b@.len(),
            i <= n,
            out@ == b@.subrange(0, i as int),
        decreases n - i,
    {
        out.push(b[i]);
        i += 1;
        proof {
            assert(out@ =~= b@.subrange(0, i as int));
        }
    }
    proof {
        assert(out@ =~= b@);
    }
    out
}

} // verus!
