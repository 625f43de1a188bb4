//! The dynamically typed value that crosses the runtime boundary.
//!
//! The handle-backed variants (`String`, `Table`, `Function`, `Thread`,
//! `UserData`) carry handles into a specific runtime instance's registry;
//! using a handle against a different instance is a programming error, and
//! the preconditions of every operation entry point exclude it.

use vstd::prelude::*;
use vstd::string::StringExecFns;
use crate::num::{Number, int_num_equal, nums_equal, int_num_order, num_order};
use crate::ord::{ValueOrder, cmp3, flip3};
use crate::error::{Error, error_text};
use crate::runtime::{Lua, Obj, ObjKind, EqHook};
use crate::text::{dec_int, pointer_text, number_text, push_dec_i64, push_pointer, bytes_to_text};

verus! {

/// A raw-address primitive value.  The reserved null instance, address
/// zero, is a distinguished sentinel: a "present but empty" marker distinct
/// from `Nil`.
#[derive(Clone, Copy, PartialEq, Eq, Structural, Debug)]
pub struct LightUserData(pub usize);

/// A handle to an interned byte string owned by one runtime instance.
#[derive(Clone, Copy, PartialEq, Eq, Structural, Debug)]
pub struct LuaString {
    /// Token of the owning instance.
    pub instance: u64,
    /// Registry slot of the string.
    pub index: usize,
}

/// A handle to a table owned by one runtime instance.
#[derive(Clone, Copy, PartialEq, Eq, Structural, Debug)]
pub struct Table {
    /// Token of the owning instance.
    pub instance: u64,
    /// Registry slot of the table.
    pub index: usize,
}

/// A handle to a callable owned by one runtime instance.
#[derive(Clone, Copy, PartialEq, Eq, Structural, Debug)]
pub struct Function {
    /// Token of the owning instance.
    pub instance: u64,
    /// Registry slot of the callable.
    pub index: usize,
}

/// A handle to a suspendable execution context owned by one runtime
/// instance.
#[derive(Clone, Copy, PartialEq, Eq, Structural, Debug)]
pub struct Thread {
    /// Token of the owning instance.
    pub instance: u64,
    /// Registry slot of the context.
    pub index: usize,
}

/// A handle to a host-defined opaque object owned by one runtime instance.
#[derive(Clone, Copy, PartialEq, Eq, Structural, Debug)]
pub struct AnyUserData {
    /// Token of the owning instance.
    pub instance: u64,
    /// Registry slot of the object.
    pub index: usize,
}

/// A dynamically typed runtime value.  Copies are shallow: a copied handle
/// refers to the same runtime-owned object.
#[derive(Clone, Debug)]
pub enum Value {
    /// The absence of a value.
    Nil,
    /// A boolean.
    Boolean(bool),
    /// A raw-address value; address zero is the null sentinel.
    LightUserData(LightUserData),
    /// An integer number.
    Integer(i64),
    /// A double-precision number.
    Number(Number),
    /// An interned string, not necessarily valid text.
    String(LuaString),
    /// A reference to a table.
    Table(Table),
    /// A reference to a callable.
    Function(Function),
    /// A reference to a suspendable execution context.
    Thread(Thread),
    /// A reference to a host-defined opaque object.
    UserData(AnyUserData),
    /// A host-side error value, carried by value across the boundary.
    Error(Error),
}

/// Whether a value's handle, if it has one, belongs to the registry of the
/// instance with the given token and points at a slot of the right kind.
pub open spec fn value_wf(v: Value, id: u64, objs: Seq<Obj>) -> bool {
    match v {
        Value::String(h) => h.instance == id && h.index < objs.len() && objs[h.index as int].kind
            is Str,
        Value::Table(h) => h.instance == id && h.index < objs.len() && objs[h.index as int].kind
            is Table,
        Value::Function(h) => h.instance == id && h.index < objs.len() && objs[h.index
            as int].kind is Function,
        Value::Thread(h) => h.instance == id && h.index < objs.len() && objs[h.index as int].kind
            is Thread,
        Value::UserData(h) => h.instance == id && h.index < objs.len() && objs[h.index
            as int].kind is UserData,
        _ => true,
    }
}

/// The registry slot a handle-backed value points at.
pub open spec fn handle_index(v: Value) -> int {
    match v {
        Value::String(h) => h.index as int,
        Value::Table(h) => h.index as int,
        Value::Function(h) => h.index as int,
        Value::Thread(h) => h.index as int,
        Value::UserData(h) => h.index as int,
        _ => -1,
    }
}

/// The pointer-identity token of a value: the address of a raw-address
/// value, a nonzero token for each handle-backed value (distinct per slot
/// within one instance), and zero for everything else.
pub open spec fn pointer_token(v: Value) -> int {
    match v {
        Value::LightUserData(p) => p.0 as int,
        Value::String(h) => h.index + 1,
        Value::Table(h) => h.index + 1,
        Value::Function(h) => h.index + 1,
        Value::Thread(h) => h.index + 1,
        Value::UserData(h) => h.index + 1,
        _ => 0,
    }
}

/// The display name of a value's variant.
pub open spec fn variant_name_text(v: Value) -> Seq<char> {
    match v {
        Value::Nil => "nil"@,
        Value::Boolean(b) => "boolean"@,
        Value::LightUserData(p) => "lightuserdata"@,
        Value::Integer(i) => "integer"@,
        Value::Number(n) => "number"@,
        Value::String(h) => "string"@,
        Value::Table(h) => "table"@,
        Value::Function(h) => "function"@,
        Value::Thread(h) => "thread"@,
        Value::UserData(h) => "userdata"@,
        Value::Error(e) => "error"@,
    }
}

/// Raw equality of two values: exact comparison with no coercion between
/// strings and numbers, numeric comparison between integers and numbers,
/// and identity for handle-backed values.  Errors are never raw-equal.
pub open spec fn raw_equal(a: Value, b: Value) -> bool {
    match (a, b) {
        (Value::Nil, Value::Nil) => true,
        (Value::Boolean(x), Value::Boolean(y)) => x == y,
        (Value::LightUserData(x), Value::LightUserData(y)) => x.0 == y.0,
        (Value::Integer(x), Value::Integer(y)) => x == y,
        (Value::Integer(x), Value::Number(y)) => int_num_equal(x as int, y.bits),
        (Value::Number(x), Value::Integer(y)) => int_num_equal(y as int, x.bits),
        (Value::Number(x), Value::Number(y)) => nums_equal(x.bits, y.bits),
        (Value::String(x), Value::String(y)) => x == y,
        (Value::Table(x), Value::Table(y)) => x == y,
        (Value::Function(x), Value::Function(y)) => x == y,
        (Value::Thread(x), Value::Thread(y)) => x == y,
        (Value::UserData(x), Value::UserData(y)) => x == y,
        _ => false,
    }
}

impl PartialEq for Value {
    fn eq(&self, other: &Value) -> (r: bool) {
        match (self, other) {
            (Value::Nil, Value::Nil) => true,
            (Value::Boolean(x), Value::Boolean(y)) => *x == *y,
            (Value::LightUserData(x), Value::LightUserData(y)) => x.0 == y.0,
            (Value::Integer(x), Value::Integer(y)) => *x == *y,
            (Value::Integer(x), Value::Number(y)) => crate::num::int_number_equal(*x, *y),
            (Value::Number(x), Value::Integer(y)) => crate::num::int_number_equal(*y, *x),
            (Value::Number(x), Value::Number(y)) => crate::num::numbers_equal(*x, *y),
            (Value::String(x), Value::String(y)) => x.instance == y.instance && x.index
                == y.index,
            (Value::Table(x), Value::Table(y)) => x.instance == y.instance && x.index == y.index,
            (Value::Function(x), Value::Function(y)) => x.instance == y.instance && x.index
                == y.index,
            (Value::Thread(x), Value::Thread(y)) => x.instance == y.instance && x.index
                == y.index,
            (Value::UserData(x), Value::UserData(y)) => x.instance == y.instance && x.index
                == y.index,
            _ => false,
        }
    }
}

impl vstd::std_specs::cmp::PartialEqSpecImpl for Value {
    open spec fn obeys_eq_spec() -> bool {
        true
    }

    open spec fn eq_spec(&self, other: &Value) -> bool {
        raw_equal(*self, *other)
    }
}

impl Value {
    /// The null sentinel: the raw-address value with address zero.  It
    /// prints as `"null"` and compares as a genuine value distinct from
    /// `Nil`, so host code can store an "absent but present" marker inside
    /// runtime containers where `Nil` cannot stand.
    pub fn null() -> (r: Value)
        ensures
            r == Value::LightUserData(LightUserData(0)),
    {
        Value::LightUserData(LightUserData(0))
    }

    /// The display name of this value's variant.
    pub fn variant_name(&self) -> (r: &'static str)
        ensures
            r@ == variant_name_text(*self),
    {
        proof {
            reveal_strlit("nil");
            reveal_strlit("boolean");
            reveal_strlit("lightuserdata");
            reveal_strlit("integer");
            reveal_strlit("number");
            reveal_strlit("string");
            reveal_strlit("table");
            reveal_strlit("function");
            reveal_strlit("thread");
            reveal_strlit("userdata");
            reveal_strlit("error");
        }
        match self {
            Value::Nil => "nil",
            Value::Boolean(_) => "boolean",
            Value::LightUserData(_) => "lightuserdata",
            Value::Integer(_) => "integer",
            Value::Number(_) => "number",
            Value::String(_) => "string",
            Value::Table(_) => "table",
            Value::Function(_) => "function",
            Value::Thread(_) => "thread",
            Value::UserData(_) => "userdata",
            Value::Error(_) => "error",
        }
    }

    /// Whether this value can be used against the given instance: true of
    /// every primitive, and of a handle exactly when the handle belongs to
    /// that instance's registry.  A caller holding a handle from another
    /// instance must not go further: that is a programming error.
    pub fn owned_by(&self, lua: &Lua) -> (r: bool)
        ensures
            r == value_wf(*self, lua.id, lua.objects@),
    {
        match self {
            Value::String(h) => h.instance == lua.id && h.index < lua.objects.len() && (matches!(
                &lua.objects[h.index].kind,
                ObjKind::Str(_)
            )),
            Value::Table(h) => h.instance == lua.id && h.index < lua.objects.len() && (matches!(
                &lua.objects[h.index].kind,
                ObjKind::Table(_)
            )),
            Value::Function(h) => h.instance == lua.id && h.index < lua.objects.len() && (
            matches!(&lua.objects[h.index].kind, ObjKind::Function)),
            Value::Thread(h) => h.instance == lua.id && h.index < lua.objects.len() && (matches!(
                &lua.objects[h.index].kind,
                ObjKind::Thread
            )),
            Value::UserData(h) => h.instance == lua.id && h.index < lua.objects.len() && (
            matches!(&lua.objects[h.index].kind, ObjKind::UserData(_))),
            _ => true,
        }
    }

    /// The pointer-identity token: a non-owning, non-dereferenceable token
    /// used only for display and debugging, never for validity checks.
    /// Raw-address values yield their address, handle-backed values a
    /// nonzero slot token, and every other variant the null token.
    pub fn to_pointer(&self) -> (r: usize)
        requires
            pointer_token(*self) <= usize::MAX,
        ensures
            r == pointer_token(*self),
    {
        match self {
            Value::LightUserData(p) => p.0,
            Value::String(h) => h.index + 1,
            Value::Table(h) => h.index + 1,
            Value::Function(h) => h.index + 1,
            Value::Thread(h) => h.index + 1,
            Value::UserData(h) => h.index + 1,
            _ => 0,
        }
    }

    /// Raw equality as an executable operation.
    pub fn raw_equals(&self, other: &Value) -> (r: bool)
        ensures
            r == raw_equal(*self, *other),
    {
        self.eq(other)
    }
}

/// The equality override registered for a slot.
pub open spec fn eq_hook_of(lua: Lua, index: int) -> Option<EqHook> {
    lua.objects@[index].eq_hook
}

/// The override equality of two handle-backed values consults: the left
/// operand's, or the right's when the left has none.
pub open spec fn chosen_eq_hook(lua: Lua, a: int, b: int) -> Option<EqHook> {
    if eq_hook_of(lua, a) is Some {
        eq_hook_of(lua, a)
    } else {
        eq_hook_of(lua, b)
    }
}

impl Value {
    /// Compares two values for equality, as the runtime's equality
    /// operation does.
    ///
    /// Primitive and string variants compare by raw equality, with no
    /// coercion between strings and numbers.  Tables and host objects first
    /// consult an equality override: the left operand's when it has one,
    /// else the right's; with no override they compare by reference
    /// identity.  An error raised inside the override propagates to the
    /// caller.  Callables and execution contexts compare by reference
    /// identity only.
    pub fn equals(&self, other: &Value, lua: &Lua) -> (r: Result<bool, Error>)
        requires
            lua.wf(),
            value_wf(*self, lua.id, lua.objects@),
            value_wf(*other, lua.id, lua.objects@),
        ensures
            ({
                let hooked = (*self is Table && *other is Table) || (*self is UserData && *other
                    is UserData);
                if hooked {
                    match chosen_eq_hook(*lua, handle_index(*self), handle_index(*other)) {
                        Option::Some(EqHook::Returns(v)) => r == Result::<bool, Error>::Ok(v),
                        Option::Some(EqHook::Raises(m)) => r matches Result::Err(
                            Error::RuntimeError(s),
                        ) && s@ == m@,
                        Option::None => r == Result::<bool, Error>::Ok(raw_equal(*self, *other)),
                    }
                } else {
                    r == Result::<bool, Error>::Ok(raw_equal(*self, *other))
                }
            }),
    {
        let (a_index, b_index): (usize, usize) = match (self, other) {
            (Value::Table(x), Value::Table(y)) => (x.index, y.index),
            (Value::UserData(x), Value::UserData(y)) => (x.index, y.index),
            _ => {
                return Result::Ok(self.raw_equals(other));
            },
        };
        assert(a_index == handle_index(*self) && b_index == handle_index(*other));
        let hook = if matches!(&lua.objects[a_index].eq_hook, Option::Some(_)) {
            &lua.objects[a_index].eq_hook
        } else {
            &lua.objects[b_index].eq_hook
        };
        match hook {
            Option::Some(EqHook::Returns(v)) => Result::Ok(*v),
            Option::Some(EqHook::Raises(m)) => {
                let mut s = String::new();
                s.append(m.as_str());
                Result::Err(Error::RuntimeError(s))
            },
            Option::None => Result::Ok(self.raw_equals(other)),
        }
    }
}

/// Lexicographic order of two byte sequences.
pub open spec fn bytes_order(a: Seq<u8>, b: Seq<u8>) -> ValueOrder
    decreases a.len(),
{
    if a.len() == 0 && b.len() == 0 {
        ValueOrder::Equal
    } else if a.len() == 0 {
        ValueOrder::Less
    } else if b.len() == 0 {
        ValueOrder::Greater
    } else if a[0] < b[0] {
        ValueOrder::Less
    } else if a[0] > b[0] {
        ValueOrder::Greater
    } else {
        bytes_order(a.drop_first(), b.drop_first())
    }
}

/// Compares two byte vectors lexicographically.
fn cmp_bytes(a: &Vec<u8>, b: &Vec<u8>) -> (r: ValueOrder)
    ensures
        r == bytes_order(a@, b@),
{
    let mut i: usize = 0;
    proof {
        assert(a@.skip(0) =~= a@);
        assert(b@.skip(0) =~= b@);
    }
    loop
        invariant
            i <= a@.len(),
            i <= b@.len(),
            bytes_order(a@, b@) == bytes_order(a@.skip(i as int), b@.skip(i as int)),
        decreases a@.len() - i,
    {
        if i == a.len() {
            return if i == b.len() {
                ValueOrder::Equal
            } else {
                ValueOrder::Less
            };
        }
        if i == b.len() {
            return ValueOrder::Greater;
        }
        let x = a[i];
        let y = b[i];
        if x < y {
            return ValueOrder::Less;
        }
        if x > y {
            return ValueOrder::Greater;
        }
        proof {
            assert(a@.skip(i as int).drop_first() =~= a@.skip(i + 1));
            assert(b@.skip(i as int).drop_first() =~= b@.skip(i + 1));
        }
        i += 1;
    }
}

/// The ordering category of a value: `Nil` lowest, then the null sentinel,
/// booleans, numbers, strings, and last everything ordered by pointer
/// token.
pub open spec fn order_rank(v: Value) -> int {
    match v {
        Value::Nil => 0,
        Value::Boolean(b) => 2,
        Value::LightUserData(p) => {
            if p.0 == 0 {
                1
            } else {
                5
            }
        },
        Value::Integer(i) => 3,
        Value::Number(n) => 3,
        Value::String(h) => 4,
        _ => 5,
    }
}

/// The display ordering of two values.
///
/// `Nil` sorts lowest, the null sentinel next, booleans next (false before
/// true), numbers next (integers and doubles cross-compared by mathematical
/// value), strings next (lexicographic by raw bytes), and every remaining
/// value by its pointer-identity token.  Two raw-address values with equal
/// addresses are equal wherever they stand.  This ordering exists solely to
/// produce stable debug output; it is not a program-visible comparison.
pub open spec fn value_order(a: Value, b: Value, lua: Lua) -> ValueOrder {
    match (a, b) {
        (Value::LightUserData(x), Value::LightUserData(y)) => {
            if x.0 == y.0 {
                ValueOrder::Equal
            } else {
                cmp3(x.0 as int, y.0 as int)
            }
        },
        (Value::Boolean(x), Value::Boolean(y)) => cmp3(
            if x {
                1int
            } else {
                0int
            },
            if y {
                1int
            } else {
                0int
            },
        ),
        (Value::Integer(x), Value::Integer(y)) => cmp3(x as int, y as int),
        (Value::Integer(x), Value::Number(y)) => int_num_order(x as int, y.bits),
        (Value::Number(x), Value::Integer(y)) => flip3(int_num_order(y as int, x.bits)),
        (Value::Number(x), Value::Number(y)) => num_order(x.bits, y.bits),
        (Value::String(x), Value::String(y)) => bytes_order(lua.str_bytes(x), lua.str_bytes(y)),
        _ => {
            if order_rank(a) != order_rank(b) {
                cmp3(order_rank(a), order_rank(b))
            } else {
                cmp3(pointer_token(a), pointer_token(b))
            }
        },
    }
}

impl Value {
    /// Compares two values for display ordering.
    pub fn cmp(&self, other: &Value, lua: &Lua) -> (r: ValueOrder)
        requires
            lua.wf(),
            value_wf(*self, lua.id, lua.objects@),
            value_wf(*other, lua.id, lua.objects@),
        ensures
            r == value_order(*self, *other, *lua),
    {
        match (self, other) {
            (Value::LightUserData(x), Value::LightUserData(y)) => {
                if x.0 == y.0 {
                    ValueOrder::Equal
                } else if x.0 < y.0 {
                    ValueOrder::Less
                } else {
                    ValueOrder::Greater
                }
            },
            (Value::Boolean(x), Value::Boolean(y)) => {
                if *x == *y {
                    ValueOrder::Equal
                } else if *x {
                    ValueOrder::Greater
                } else {
                    ValueOrder::Less
                }
            },
            (Value::Integer(x), Value::Integer(y)) => {
                if *x < *y {
                    ValueOrder::Less
                } else if *x == *y {
                    ValueOrder::Equal
                } else {
                    ValueOrder::Greater
                }
            },
            (Value::Integer(x), Value::Number(y)) => crate::num::cmp_int_number(*x, *y),
            (Value::Number(x), Value::Integer(y)) => {
                match crate::num::cmp_int_number(*y, *x) {
                    ValueOrder::Less => ValueOrder::Greater,
                    ValueOrder::Equal => ValueOrder::Equal,
                    ValueOrder::Greater => ValueOrder::Less,
                }
            },
            (Value::Number(x), Value::Number(y)) => crate::num::cmp_numbers(*x, *y),
            (Value::String(x), Value::String(y)) => {
                let ax = match &lua.objects[x.index].kind {
                    ObjKind::Str(bytes) => bytes,
                    _ => {
                        proof {
                            assert(false);
                        }
                        return ValueOrder::Equal;
                    },
                };
                let bx = match &lua.objects[y.index].kind {
                    ObjKind::Str(bytes) => bytes,
                    _ => {
                        proof {
                            assert(false);
                        }
                        return ValueOrder::Equal;
                    },
                };
                cmp_bytes(ax, bx)
            },
            _ => {
                let ra = self.order_rank_exec();
                let rb = other.order_rank_exec();
                if ra != rb {
                    if ra < rb {
                        ValueOrder::Less
                    } else {
                        ValueOrder::Greater
                    }
                } else {
                    let n = lua.objects.len();
                    proof {
                        assert(pointer_token(*self) <= usize::MAX);
                        assert(pointer_token(*other) <= usize::MAX);
                    }
                    let pa = self.to_pointer();
                    let pb = other.to_pointer();
                    if pa < pb {
                        ValueOrder::Less
                    } else if pa == pb {
                        ValueOrder::Equal
                    } else {
                        ValueOrder::Greater
                    }
                }
            },
        }
    }

    /// The ordering category of this value.
    fn order_rank_exec(&self) -> (r: u64)
        ensures
            r == order_rank(*self),
    {
        match self {
            Value::Nil => 0,
            Value::Boolean(_) => 2,
            Value::LightUserData(p) => {
                if p.0 == 0 {
                    1
                } else {
                    5
                }
            },
            Value::Integer(_) => 3,
            Value::Number(_) => 3,
            Value::String(_) => 4,
            _ => 5,
        }
    }
}

/// The stringify text of a handle-backed value with no stringify override:
/// its variant name, a separator, and its pointer token.
pub open spec fn default_handle_text(v: Value) -> Seq<char> {
    variant_name_text(v) + ": "@ + pointer_text(pointer_token(v))
}

/// The text a value coerces to, or the failure that coercion meets: text
/// decoding fails on string or override bytes that are not valid text.
pub open spec fn tostring_result(v: Value, lua: Lua) -> Result<Seq<char>, Error> {
    match v {
        Value::Nil => Result::Ok("nil"@),
        Value::Boolean(b) => Result::Ok(
            if b {
                "true"@
            } else {
                "false"@
            },
        ),
        Value::LightUserData(p) => Result::Ok(
            if p.0 == 0 {
                "null"@
            } else {
                "lightuserdata: "@ + pointer_text(p.0 as int)
            },
        ),
        Value::Integer(i) => Result::Ok(dec_int(i as int)),
        Value::Number(n) => Result::Ok(number_text(n.bits)),
        Value::String(h) => decoded_bytes(lua.str_bytes(h)),
        Value::Table(hh) => stringified(v, lua, handle_index(v)),
        Value::Function(hh) => stringified(v, lua, handle_index(v)),
        Value::Thread(hh) => stringified(v, lua, handle_index(v)),
        Value::UserData(hh) => stringified(v, lua, handle_index(v)),
        Value::Error(e) => Result::Ok(error_text(e)),
    }
}

/// Text decoded from bytes, or the decoding failure.
pub open spec fn decoded_bytes(bytes: Seq<u8>) -> Result<Seq<char>, Error> {
    if vstd::utf8::valid_utf8(bytes) {
        Result::Ok(vstd::utf8::decode_utf8(bytes))
    } else {
        Result::Err(Error::Utf8Error)
    }
}

/// The stringify hook's answer for a handle-backed value: the decoded
/// override bytes when an override is registered, else the default text.
pub open spec fn stringified(v: Value, lua: Lua, index: int) -> Result<Seq<char>, Error> {
    match lua.objects@[index].tostring_hook {
        Option::Some(bytes) => decoded_bytes(bytes@),
        Option::None => Result::Ok(default_handle_text(v)),
    }
}

impl Value {
    /// Coerces the value to human-readable text, as the runtime's string
    /// coercion does.  Handle-backed values consult the registered
    /// stringify override; string and override bytes that are not valid
    /// text fail with a decoding error.
    pub fn to_string(&self, lua: &Lua) -> (r: Result<String, Error>)
        requires
            lua.wf(),
            value_wf(*self, lua.id, lua.objects@),
            pointer_token(*self) <= usize::MAX,
        ensures
            match r {
                Result::Ok(s) => tostring_result(*self, *lua) == Result::<Seq<char>, Error>::Ok(
                    s@,
                ),
                Result::Err(e) => e is Utf8Error && tostring_result(*self, *lua) == Result::<
                    Seq<char>,
                    Error,
                >::Err(Error::Utf8Error),
            },
    {
        proof {
            reveal_strlit("nil");
            reveal_strlit("true");
            reveal_strlit("false");
            reveal_strlit("null");
            reveal_strlit("lightuserdata: ");
            reveal_strlit(": ");
        }
        match self {
            Value::Nil => {
                let mut s = String::new();
                s.append("nil");
                Result::Ok(s)
            },
            Value::Boolean(b) => {
                let mut s = String::new();
                if *b {
                    s.append("true");
                } else {
                    s.append("false");
                }
                Result::Ok(s)
            },
            Value::LightUserData(p) => {
                let mut s = String::new();
                if p.0 == 0 {
                    s.append("null");
                } else {
                    s.append("lightuserdata: ");
                    push_pointer(p.0, &mut s);
                }
                Result::Ok(s)
            },
            Value::Integer(i) => {
                let mut s = String::new();
                push_dec_i64(*i, &mut s);
                Result::Ok(s)
            },
            Value::Number(n) => Result::Ok(n.display_text()),
            Value::String(h) => {
                let bytes = match &lua.objects[h.index].kind {
                    ObjKind::Str(bytes) => bytes,
                    _ => {
                        proof {
                            assert(false);
                        }
                        return Result::Err(Error::Utf8Error);
                    },
                };
                match bytes_to_text(bytes) {
                    Option::Some(text) => Result::Ok(text),
                    Option::None => Result::Err(Error::Utf8Error),
                }
            },
            Value::Error(e) => Result::Ok(e.display_text()),
            _ => {
                let index: usize = match self {
                    Value::Table(h) => h.index,
                    Value::Function(h) => h.index,
                    Value::Thread(h) => h.index,
                    Value::UserData(h) => h.index,
                    _ => {
                        proof {
                            assert(false);
                        }
                        0
                    },
                };
                match &lua.objects[index].tostring_hook {
                    Option::Some(bytes) => {
                        match bytes_to_text(bytes) {
                            Option::Some(text) => Result::Ok(text),
                            Option::None => Result::Err(Error::Utf8Error),
                        }
                    },
                    Option::None => {
                        let mut s = String::new();
                        s.append(self.variant_name());
                        s.append(": ");
                        push_pointer(self.to_pointer(), &mut s);
                        proof {
                            assert(s@ =~= default_handle_text(*self));
                        }
                        Result::Ok(s)
                    },
                }
            },
        }
    }
}

} // verus!
