use lua_bridge::value::Value;
use lua_bridge::num::Number;
use lua_bridge::runtime::Lua;
use lua_bridge::error::Error;
use lua_bridge::ser::SerValue;

fn num(x: f64) -> Value {
    Value::Number(Number::from_bits(x.to_bits()))
}

#[test]
fn pretty_printing_a_self_referential_table_terminates() {
    let mut lua = Lua::new(1);
    let t = lua.create_table();
    // The table contains itself directly.
    lua.table_insert(&t, Value::Integer(1), Value::Table(t));
    let v = Value::Table(t);
    let mut visited = Vec::new();
    let text = v.pretty_string(&lua, true, &mut visited);
    let flat = format!("table: 0x{:x}", v.to_pointer());
    assert!(text.contains(&flat));
    assert!(text.starts_with("{ "));
}

#[test]
fn pretty_printing_a_cycle_of_length_two_terminates() {
    let mut lua = Lua::new(1);
    let a = lua.create_table();
    let b = lua.create_table();
    lua.table_insert(&a, Value::Integer(1), Value::Table(b));
    lua.table_insert(&b, Value::Integer(1), Value::Table(a));
    let mut visited = Vec::new();
    let text = Value::Table(a).pretty_string(&lua, true, &mut visited);
    let flat_a = format!("table: 0x{:x}", Value::Table(a).to_pointer());
    assert!(text.contains(&flat_a));
}

#[test]
fn pretty_printing_without_recursion_stays_flat() {
    let mut lua = Lua::new(1);
    let t = Value::Table(lua.create_table());
    let mut visited = Vec::new();
    let text = t.pretty_string(&lua, false, &mut visited);
    assert_eq!(text, format!("table: 0x{:x}", t.to_pointer()));
}

#[test]
fn pretty_printing_renders_primitives_exactly() {
    let mut lua = Lua::new(1);
    let mut visited = Vec::new();
    assert_eq!(Value::Nil.pretty_string(&lua, true, &mut visited), "nil");
    assert_eq!(Value::Boolean(true).pretty_string(&lua, true, &mut visited), "true");
    assert_eq!(Value::Integer(-3).pretty_string(&lua, true, &mut visited), "-3");
    assert_eq!(Value::null().pretty_string(&lua, true, &mut visited), "null");
    let s = Value::String(lua.create_string(b"hey".to_vec()));
    assert_eq!(s.pretty_string(&lua, true, &mut visited), "\"hey\"");
    let u = Value::UserData(lua.create_userdata(Some("point".to_string())));
    assert_eq!(
        u.pretty_string(&lua, true, &mut visited),
        format!("point: 0x{:x}", u.to_pointer())
    );
}

#[test]
fn serialization_shapes_follow_the_variant() {
    let mut lua = Lua::new(1);
    assert!(matches!(Value::Nil.serialize_repr(&lua), Ok(SerValue::Unit)));
    assert!(matches!(Value::null().serialize_repr(&lua), Ok(SerValue::Absent)));
    assert!(matches!(
        Value::Boolean(true).serialize_repr(&lua),
        Ok(SerValue::Bool(true))
    ));
    assert!(matches!(
        Value::Integer(9).serialize_repr(&lua),
        Ok(SerValue::Integer(9))
    ));
    let s = Value::String(lua.create_string(b"abc".to_vec()));
    match s.serialize_repr(&lua) {
        Ok(SerValue::Bytes(b)) => assert_eq!(b, b"abc".to_vec()),
        _ => panic!("expected the string's bytes"),
    }
    let t = Value::Table(lua.create_table());
    assert!(matches!(t.serialize_repr(&lua), Ok(SerValue::Table(_))));
}

#[test]
fn unserializable_variants_fail_naming_themselves() {
    let mut lua = Lua::new(1);
    let f = Value::Function(lua.create_function());
    match f.serialize_repr(&lua) {
        Err(Error::SerializeError(m)) => assert_eq!(m, "cannot serialize <function>"),
        _ => panic!("expected a serialization failure"),
    }
    let lud = Value::LightUserData(lua_bridge::value::LightUserData(0x10));
    match lud.serialize_repr(&lua) {
        Err(Error::SerializeError(m)) => assert_eq!(m, "cannot serialize <lightuserdata>"),
        _ => panic!("expected a serialization failure"),
    }
    let th = Value::Thread(lua.create_thread());
    match th.serialize_repr(&lua) {
        Err(Error::SerializeError(m)) => assert_eq!(m, "cannot serialize <thread>"),
        _ => panic!("expected a serialization failure"),
    }
    let ev = Value::Error(Error::Utf8Error);
    assert!(ev.serialize_repr(&lua).is_err());
}

#[test]
fn number_display_special_cases() {
    let lua = Lua::new(1);
    assert_eq!(num(0.0).to_string(&lua).unwrap(), "0");
    assert_eq!(num(-0.0).to_string(&lua).unwrap(), "0");
    assert_eq!(num(9007199254740992.0).to_string(&lua).unwrap(), "9007199254740992");
    assert_eq!(num(-4503599627370496.0).to_string(&lua).unwrap(), "-4503599627370496");
}

#[test]
fn number_display_is_the_exact_decimal_expansion() {
    let lua = Lua::new(1);
    // A value that decimal shorthand would round: the double nearest to
    // one tenth, written out exactly.
    assert_eq!(
        num(0.1).to_string(&lua).unwrap(),
        "0.1000000000000000055511151231257827021181583404541015625"
    );
    // An integral magnitude far beyond the machine word: 2^100.
    let big = (2.0f64).powi(100);
    assert_eq!(
        num(big).to_string(&lua).unwrap(),
        "1267650600228229401496703205376"
    );
    assert_eq!(
        num(-big).to_string(&lua).unwrap(),
        "-1267650600228229401496703205376"
    );
    // The largest finite double, exactly: spot-check its size and ends.
    let huge = num(f64::MAX).to_string(&lua).unwrap();
    assert_eq!(huge.len(), 309);
    assert!(huge.starts_with("17976931348623157"));
}

#[test]
fn foreign_handles_are_detected() {
    let mut lua_a = Lua::new(1);
    let lua_b = Lua::new(2);
    let t = Value::Table(lua_a.create_table());
    assert!(t.owned_by(&lua_a));
    assert!(!t.owned_by(&lua_b));
    assert!(Value::Nil.owned_by(&lua_b));
}

#[test]
fn error_values_render_their_text() {
    let lua = Lua::new(1);
    let e = Value::Error(Error::RuntimeError("overflow".to_string()));
    assert_eq!(e.to_string(&lua).unwrap(), "runtime error: overflow");
    let mut visited = Vec::new();
    assert_eq!(e.pretty_string(&lua, true, &mut visited), "runtime error: overflow");
    assert_eq!(e.pretty_string(&lua, false, &mut visited), "error");
}

#[test]
fn the_instance_invariant_is_checkable_at_runtime() {
    let mut lua = Lua::new(1);
    let t = lua.create_table();
    lua.table_insert(&t, Value::Integer(1), Value::Table(t));
    let s = lua.create_string(b"x".to_vec());
    lua.table_insert(&t, Value::Integer(2), Value::String(s));
    assert!(lua.check_wf());
    // A handle forged against the wrong instance breaks the invariant.
    let mut broken = Lua::new(2);
    let bt = broken.create_table();
    let foreign = Value::Table(lua_bridge::value::Table { instance: 7, index: 0 });
    broken.objects[bt.index].kind =
        lua_bridge::runtime::ObjKind::Table(vec![(Value::Integer(1), foreign)]);
    assert!(!broken.check_wf());
}
