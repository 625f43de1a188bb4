use lua_bridge::value::{Value, LightUserData};
use lua_bridge::num::Number;
use lua_bridge::ord::ValueOrder;
use lua_bridge::runtime::{Lua, EqHook};
use lua_bridge::error::Error;
use lua_bridge::conv::FromLua;

fn num(x: f64) -> Value {
    Value::Number(Number::from_bits(x.to_bits()))
}

fn null() -> Value {
    Value::null()
}

#[test]
fn primitive_equality_is_reflexive() {
    let lua = Lua::new(1);
    for v in [
        Value::Nil,
        Value::Boolean(true),
        Value::Boolean(false),
        Value::Integer(-7),
        num(2.5),
        null(),
        Value::LightUserData(LightUserData(0x1000)),
    ] {
        assert_eq!(v.equals(&v, &lua).unwrap(), true);
    }
}

#[test]
fn integer_equals_number_with_same_mathematical_value() {
    let lua = Lua::new(1);
    assert_eq!(Value::Integer(3).equals(&num(3.0), &lua).unwrap(), true);
    assert_eq!(num(3.0).equals(&Value::Integer(3), &lua).unwrap(), true);
    assert_eq!(Value::Integer(3).equals(&num(3.5), &lua).unwrap(), false);
    assert_eq!(Value::Integer(4).equals(&num(3.0), &lua).unwrap(), false);
}

#[test]
fn string_is_never_equal_to_a_number() {
    let mut lua = Lua::new(1);
    let s = lua.create_string(b"3".to_vec());
    let sv = Value::String(s);
    assert_eq!(sv.equals(&Value::Integer(3), &lua).unwrap(), false);
    assert_eq!(Value::Integer(3).equals(&sv, &lua).unwrap(), false);
    assert_eq!(sv.equals(&num(3.0), &lua).unwrap(), false);
}

#[test]
fn nan_equals_nothing() {
    let lua = Lua::new(1);
    let nan = num(f64::NAN);
    assert_eq!(nan.equals(&nan, &lua).unwrap(), false);
    assert_eq!(nan.equals(&Value::Integer(0), &lua).unwrap(), false);
}

#[test]
fn null_sentinel_is_distinct_from_nil() {
    let lua = Lua::new(1);
    assert_eq!(null().equals(&Value::Nil, &lua).unwrap(), false);
    assert!(null() != Value::Nil);
    assert_eq!(null().to_string(&lua).unwrap(), "null");
    assert_eq!(Value::Nil.to_string(&lua).unwrap(), "nil");
}

#[test]
fn ordering_follows_category_precedence() {
    let mut lua = Lua::new(1);
    let s = Value::String(lua.create_string(b"abc".to_vec()));
    let t = Value::Table(lua.create_table());
    let samples = [
        Value::Nil,
        null(),
        Value::Boolean(false),
        Value::Integer(5),
        s,
        t,
    ];
    for i in 0..samples.len() {
        for j in 0..samples.len() {
            let got = samples[i].cmp(&samples[j], &lua);
            if i < j {
                assert_eq!(got, ValueOrder::Less);
            } else if i > j {
                assert_eq!(got, ValueOrder::Greater);
            } else {
                assert_eq!(got, ValueOrder::Equal);
            }
        }
    }
    assert_eq!(Value::Boolean(false).cmp(&Value::Boolean(true), &lua), ValueOrder::Less);
}

#[test]
fn numeric_cross_comparison_is_mathematical() {
    let lua = Lua::new(1);
    assert_eq!(Value::Integer(2).cmp(&num(3.0), &lua), ValueOrder::Less);
    assert_eq!(num(3.0).cmp(&Value::Integer(2), &lua), ValueOrder::Greater);
    assert_eq!(Value::Integer(3).cmp(&num(3.0), &lua), ValueOrder::Equal);
    assert_eq!(num(-0.0).cmp(&num(0.0), &lua), ValueOrder::Equal);
    assert_eq!(num(f64::NEG_INFINITY).cmp(&Value::Integer(i64::MIN), &lua), ValueOrder::Less);
    assert_eq!(num(f64::INFINITY).cmp(&Value::Integer(i64::MAX), &lua), ValueOrder::Greater);
    assert_eq!(num(0.5).cmp(&Value::Integer(1), &lua), ValueOrder::Less);
    assert_eq!(num(9007199254740993.0).cmp(&Value::Integer(9007199254740993), &lua),
        ValueOrder::Less);
}

#[test]
fn strings_order_lexicographically_by_bytes() {
    let mut lua = Lua::new(1);
    let a = Value::String(lua.create_string(b"abc".to_vec()));
    let b = Value::String(lua.create_string(b"abd".to_vec()));
    let c = Value::String(lua.create_string(b"ab".to_vec()));
    assert_eq!(a.cmp(&b, &lua), ValueOrder::Less);
    assert_eq!(b.cmp(&a, &lua), ValueOrder::Greater);
    assert_eq!(c.cmp(&a, &lua), ValueOrder::Less);
    assert_eq!(a.cmp(&a, &lua), ValueOrder::Equal);
}

#[test]
fn interned_strings_share_one_handle() {
    let mut lua = Lua::new(1);
    let a = lua.create_string(b"hello".to_vec());
    let b = lua.create_string(b"hello".to_vec());
    let c = lua.create_string(b"world".to_vec());
    assert_eq!(Value::String(a).equals(&Value::String(b), &lua).unwrap(), true);
    assert_eq!(Value::String(a).equals(&Value::String(c), &lua).unwrap(), false);
}

#[test]
fn variant_names_cover_every_variant() {
    let mut lua = Lua::new(1);
    assert_eq!(Value::Nil.variant_name(), "nil");
    assert_eq!(Value::Boolean(true).variant_name(), "boolean");
    assert_eq!(null().variant_name(), "lightuserdata");
    assert_eq!(Value::Integer(1).variant_name(), "integer");
    assert_eq!(num(1.0).variant_name(), "number");
    assert_eq!(Value::String(lua.create_string(vec![])).variant_name(), "string");
    assert_eq!(Value::Table(lua.create_table()).variant_name(), "table");
    assert_eq!(Value::Function(lua.create_function()).variant_name(), "function");
    assert_eq!(Value::Thread(lua.create_thread()).variant_name(), "thread");
    assert_eq!(Value::UserData(lua.create_userdata(None)).variant_name(), "userdata");
    assert_eq!(Value::Error(Error::Utf8Error).variant_name(), "error");
}

#[test]
fn to_pointer_distinguishes_objects_and_nulls_primitives() {
    let mut lua = Lua::new(1);
    let t1 = Value::Table(lua.create_table());
    let t2 = Value::Table(lua.create_table());
    assert_ne!(t1.to_pointer(), t2.to_pointer());
    assert_ne!(t1.to_pointer(), 0);
    assert_eq!(Value::Nil.to_pointer(), 0);
    assert_eq!(Value::Integer(9).to_pointer(), 0);
    assert_eq!(null().to_pointer(), 0);
    assert_eq!(Value::LightUserData(LightUserData(0xbeef)).to_pointer(), 0xbeef);
}

#[test]
fn equality_hooks_dispatch_left_then_right() {
    let mut lua = Lua::new(1);
    let a = Value::Table(lua.create_table());
    let b = Value::Table(lua.create_table());
    // No hook: reference identity.
    assert_eq!(a.equals(&b, &lua).unwrap(), false);
    assert_eq!(a.equals(&a, &lua).unwrap(), true);
    // Right hook applies when the left has none.
    lua.set_equals_hook(&b, EqHook::Returns(true));
    assert_eq!(a.equals(&b, &lua).unwrap(), true);
    // Left hook wins over the right one.
    lua.set_equals_hook(&a, EqHook::Returns(false));
    assert_eq!(a.equals(&b, &lua).unwrap(), false);
}

#[test]
fn equality_hook_errors_propagate() {
    let mut lua = Lua::new(1);
    let a = Value::UserData(lua.create_userdata(None));
    let b = Value::UserData(lua.create_userdata(None));
    lua.set_equals_hook(&a, EqHook::Raises("boom".to_string()));
    match a.equals(&b, &lua) {
        Err(Error::RuntimeError(m)) => assert_eq!(m, "boom"),
        other => panic!("expected a propagated hook error, got {:?}", other.is_ok()),
    }
}

#[test]
fn to_string_renders_each_variant() {
    let mut lua = Lua::new(1);
    assert_eq!(Value::Boolean(true).to_string(&lua).unwrap(), "true");
    assert_eq!(Value::Boolean(false).to_string(&lua).unwrap(), "false");
    assert_eq!(Value::Integer(-42).to_string(&lua).unwrap(), "-42");
    assert_eq!(num(3.0).to_string(&lua).unwrap(), "3");
    assert_eq!(num(-17.0).to_string(&lua).unwrap(), "-17");
    assert_eq!(num(f64::NAN).to_string(&lua).unwrap(), "NaN");
    assert_eq!(num(f64::INFINITY).to_string(&lua).unwrap(), "inf");
    assert_eq!(num(f64::NEG_INFINITY).to_string(&lua).unwrap(), "-inf");
    assert_eq!(num(3.5).to_string(&lua).unwrap(), "3.5");
    assert_eq!(num(-2.75).to_string(&lua).unwrap(), "-2.75");
    assert_eq!(num(0.25).to_string(&lua).unwrap(), "0.25");
    let s = Value::String(lua.create_string(b"hi".to_vec()));
    assert_eq!(s.to_string(&lua).unwrap(), "hi");
    let bad = Value::String(lua.create_string(vec![0xff, 0xfe]));
    assert!(matches!(bad.to_string(&lua), Err(Error::Utf8Error)));
    let lud = Value::LightUserData(LightUserData(0x1a2b));
    assert_eq!(lud.to_string(&lua).unwrap(), "lightuserdata: 0x1a2b");
}

#[test]
fn to_string_consults_the_stringify_hook() {
    let mut lua = Lua::new(1);
    let t = Value::Table(lua.create_table());
    let expected = format!("table: 0x{:x}", t.to_pointer());
    assert_eq!(t.to_string(&lua).unwrap(), expected);
    lua.set_tostring_hook(&t, b"my table".to_vec());
    assert_eq!(t.to_string(&lua).unwrap(), "my table");
    let f = Value::Function(lua.create_function());
    assert_eq!(f.to_string(&lua).unwrap(), format!("function: 0x{:x}", f.to_pointer()));
}

#[test]
fn machine_integer_boundaries_compare_exactly() {
    let lua = Lua::new(1);
    // -2^63 is exactly representable as a double and equals the smallest integer.
    let min = num(-9223372036854775808.0);
    assert_eq!(Value::Integer(i64::MIN).equals(&min, &lua).unwrap(), true);
    assert_eq!(Value::Integer(i64::MIN).cmp(&min, &lua), ValueOrder::Equal);
    // 2^63 as a double is strictly above the largest integer.
    let above = num(9223372036854775808.0);
    assert_eq!(Value::Integer(i64::MAX).cmp(&above, &lua), ValueOrder::Less);
    assert_eq!(Value::Integer(i64::MAX).equals(&above, &lua).unwrap(), false);
}

#[test]
fn integer_conversion_handles_the_signed_boundary() {
    let lua = Lua::new(1);
    let min = num(-9223372036854775808.0);
    assert_eq!(i64::from_lua(min, &lua).unwrap(), i64::MIN);
    let above = num(9223372036854775808.0);
    assert!(i64::from_lua(above, &lua).is_err());
    assert_eq!(Value::Integer(i64::MIN).to_string(&lua).unwrap(), "-9223372036854775808");
}

#[test]
fn subnormal_numbers_sort_between_zero_and_one() {
    let lua = Lua::new(1);
    let tiny = num(f64::MIN_POSITIVE / 4.0);
    assert_eq!(num(0.0).cmp(&tiny, &lua), ValueOrder::Less);
    assert_eq!(tiny.cmp(&Value::Integer(1), &lua), ValueOrder::Less);
    assert_eq!(tiny.cmp(&num(-1.0), &lua), ValueOrder::Greater);
}
