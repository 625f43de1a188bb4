//! Proved laws of the value semantics.

use vstd::prelude::*;
use crate::value::{Value, LuaString, LightUserData, raw_equal, value_order, order_rank, tostring_result, value_wf, bytes_order};
use crate::num::{is_nan, nums_equal, num_key};
use crate::ord::{ValueOrder, flip3, cmp3};
use crate::error::Error;
use crate::runtime::Lua;

verus! {

/// Raw equality is reflexive on every value that can equal anything at all:
/// every primitive, string and handle value except a NaN number (which, by
/// the numeric semantics, equals nothing) and an error value (which is never
/// raw-equal).
pub proof fn lemma_raw_equal_reflexive(v: Value)
    requires
        !(v matches Value::Number(n) && is_nan(n.bits)),
        !(v is Error),
    ensures
        raw_equal(v, v),
{
}

/// No string value is ever raw-equal to a number, and no number to a
/// string, whatever their textual forms.
pub proof fn lemma_string_never_equals_number(s: Value, n: Value)
    requires
        s is String,
        n is Integer || n is Number,
    ensures
        !raw_equal(s, n),
        !raw_equal(n, s),
{
}

/// The null sentinel is a genuine value distinct from `Nil`: the two are
/// not raw-equal either way, and they coerce to different text.
pub proof fn lemma_null_distinct_from_nil(lua: Lua)
    ensures
        !raw_equal(Value::LightUserData(LightUserData(0)), Value::Nil),
        !raw_equal(Value::Nil, Value::LightUserData(LightUserData(0))),
        tostring_result(Value::LightUserData(LightUserData(0)), lua) == Result::<
            Seq<char>,
            Error,
        >::Ok("null"@),
        tostring_result(Value::Nil, lua) == Result::<Seq<char>, Error>::Ok("nil"@),
        "null"@ != "nil"@,
{
    reveal_strlit("null");
    reveal_strlit("nil");
    assert("null"@.len() == 4 && "nil"@.len() == 3);
}

/// The display ordering is consistent under swapping its operands: the
/// comparison of `b` with `a` is the mirror image of the comparison of `a`
/// with `b`.
pub proof fn lemma_value_order_antisymmetric(a: Value, b: Value, lua: Lua)
    ensures
        value_order(b, a, lua) == flip3(value_order(a, b, lua)),
{
    match (a, b) {
        (Value::String(x), Value::String(y)) => {
            lemma_bytes_order_flip(lua.str_bytes(x), lua.str_bytes(y));
        },
        _ => {},
    }
}

/// Lexicographic byte order is consistent under swapping its operands.
pub proof fn lemma_bytes_order_flip(x: Seq<u8>, y: Seq<u8>)
    ensures
        bytes_order(y, x) == flip3(bytes_order(x, y)),
    decreases x.len(),
{
    if x.len() > 0 && y.len() > 0 && x[0] == y[0] {
        lemma_bytes_order_flip(x.drop_first(), y.drop_first());
    }
}

/// The display ordering respects the category precedence: a value of a
/// strictly lower category sorts strictly below one of a higher category.
/// `Nil` has the lowest category, the null sentinel the next, then
/// booleans, then numbers, then strings, then everything ordered by
/// pointer token.
pub proof fn lemma_value_order_by_category(a: Value, b: Value, lua: Lua)
    requires
        order_rank(a) < order_rank(b),
        !(a matches Value::Number(n) && is_nan(n.bits)),
        !(b matches Value::Number(n) && is_nan(n.bits)),
    ensures
        value_order(a, b, lua) == ValueOrder::Less,
{
}

/// Within one instance, equality of string handles is exactly equality of
/// their contents: interning maps equal bytes to one slot, and one slot
/// always holds one byte sequence.
pub proof fn lemma_string_equality_is_content(lua: Lua, x: LuaString, y: LuaString)
    requires
        lua.wf(),
        value_wf(Value::String(x), lua.id, lua.objects@),
        value_wf(Value::String(y), lua.id, lua.objects@),
    ensures
        raw_equal(Value::String(x), Value::String(y)) <==> lua.str_bytes(x) == lua.str_bytes(y),
{
    if x != y {
        assert(x.index != y.index);
        if x.index < y.index {
            assert(lua.objects@[x.index as int].kind->Str_0@ != lua.objects@[y.index
                as int].kind->Str_0@);
        } else {
            assert(lua.objects@[y.index as int].kind->Str_0@ != lua.objects@[x.index
                as int].kind->Str_0@);
        }
    }
}

/// Cross-instance handle misuse is excluded in general: a handle-backed
/// value created by one runtime instance is never well formed against an
/// instance with a different token, so no operation entry point — they all
/// require well-formedness — accepts it.  Misuse is a verification-time
/// fault for verified callers; unverified callers check `owned_by` and
/// abort, never receiving a recoverable error.
pub proof fn lemma_foreign_handle_never_well_formed(v: Value, a: Lua, b: Lua)
    requires
        a.id != b.id,
        v is String || v is Table || v is Function || v is Thread || v is UserData,
        value_wf(v, a.id, a.objects@),
    ensures
        !value_wf(v, b.id, b.objects@),
{
}

/// Raw equality of numbers is symmetric, and a NaN number equals nothing,
/// itself included.
pub proof fn lemma_raw_equal_symmetric(a: Value, b: Value)
    ensures
        raw_equal(a, b) == raw_equal(b, a),
{
}

} // verus!
