use lua_bridge::value::Value;
use lua_bridge::multi::MultiValue;
use lua_bridge::runtime::Lua;
use lua_bridge::error::Error;
use lua_bridge::conv::{FromLuaMulti, IntoLuaMulti, FromLua, IntoLua, wrap_arg_failure};
use lua_bridge::num::Number;

#[test]
fn from_vec_into_vec_round_trips() {
    let list = vec![Value::Integer(1), Value::Boolean(true), Value::Nil];
    let expected = vec![Value::Integer(1), Value::Boolean(true), Value::Nil];
    let mv = MultiValue::from_vec(list);
    assert_eq!(mv.len(), 3);
    assert_eq!(mv.get(0), Some(&Value::Integer(1)));
    assert_eq!(mv.get(1), Some(&Value::Boolean(true)));
    assert_eq!(mv.get(2), Some(&Value::Nil));
    assert_eq!(mv.get(3), None);
    assert_eq!(mv.into_vec(), expected);
}

#[test]
fn front_operations_are_lifo() {
    let mut mv = MultiValue::new();
    assert!(mv.is_empty());
    mv.push_front(Value::Integer(10));  // a
    mv.push_front(Value::Integer(20));  // b
    assert_eq!(mv.pop_front(), Some(Value::Integer(20)));
    assert_eq!(mv.pop_front(), Some(Value::Integer(10)));
    assert_eq!(mv.pop_front(), None);
}

#[test]
fn repeated_push_front_reverses_the_order() {
    let mut mv = MultiValue::new();
    for v in [Value::Integer(1), Value::Integer(2), Value::Integer(3)] {
        mv.push_front(v);
    }
    assert_eq!(
        mv.into_vec(),
        vec![Value::Integer(3), Value::Integer(2), Value::Integer(1)]
    );
}

#[test]
fn clear_and_drain_empty_the_container() {
    let mut mv = MultiValue::from_vec(vec![Value::Integer(1), Value::Integer(2)]);
    let drained = mv.drain_all();
    assert_eq!(drained, vec![Value::Integer(1), Value::Integer(2)]);
    assert!(mv.is_empty());
    mv.push_front(Value::Nil);
    mv.clear();
    assert_eq!(mv.len(), 0);
}

#[test]
fn refill_rebuilds_in_order_and_short_circuits() {
    let mut mv = MultiValue::new();
    let mut ok_items = vec![
        Ok(Value::Integer(1)),
        Ok(Value::Integer(2)),
    ];
    assert!(mv.refill(&mut ok_items).is_ok());
    assert_eq!(mv.len(), 2);
    assert_eq!(mv.get(0), Some(&Value::Integer(1)));
    assert_eq!(mv.get(1), Some(&Value::Integer(2)));

    let mut bad_items = vec![
        Ok(Value::Integer(1)),
        Err(Error::Utf8Error),
        Ok(Value::Integer(3)),
    ];
    match mv.refill(&mut bad_items) {
        Err(Error::Utf8Error) => {}
        other => panic!("expected the first failure back, got ok = {}", other.is_ok()),
    }
    assert!(mv.is_empty());
}

#[test]
fn multivalue_pool_hands_out_cleared_storage() {
    let mut lua = Lua::new(1);
    let mut mv = lua.new_multivalue_from_pool();
    assert!(mv.is_empty());
    mv.push_front(Value::Integer(1));
    lua.return_multivalue_to_pool(mv);
    let again = lua.new_multivalue_from_pool();
    assert!(again.is_empty());
}

#[test]
fn multi_decoding_pads_missing_positions_with_nil() {
    let lua = Lua::new(1);
    let one = MultiValue::from_vec(vec![Value::Integer(7)]);
    let (a, b, c) = <(Value, Value, Value)>::from_lua_multi(one, &lua).unwrap();
    assert_eq!(a, Value::Integer(7));
    assert_eq!(b, Value::Nil);
    assert_eq!(c, Value::Nil);
}

#[test]
fn multi_decoding_ignores_extra_positions() {
    let lua = Lua::new(1);
    let three = MultiValue::from_vec(vec![
        Value::Integer(1),
        Value::Integer(2),
        Value::Integer(3),
    ]);
    let only = Value::from_lua_multi(three, &lua).unwrap();
    assert_eq!(only, Value::Integer(1));
}

#[test]
fn single_value_conversions_round_trip() {
    let mut lua = Lua::new(1);
    assert_eq!(true.into_lua(&mut lua).unwrap(), Value::Boolean(true));
    assert_eq!(5i64.into_lua(&mut lua).unwrap(), Value::Integer(5));
    assert_eq!(i64::from_lua(Value::Integer(5), &lua).unwrap(), 5);
    assert_eq!(bool::from_lua(Value::Nil, &lua).unwrap(), false);
    assert_eq!(bool::from_lua(Value::Integer(0), &lua).unwrap(), true);
    let s = "text".to_string().into_lua(&mut lua).unwrap();
    assert_eq!(s.to_string(&lua).unwrap(), "text");
}

#[test]
fn integer_from_number_requires_an_exact_value() {
    let lua = Lua::new(1);
    let four = Value::Number(Number::from_bits(4.0f64.to_bits()));
    assert_eq!(i64::from_lua(four, &lua).unwrap(), 4);
    let half = Value::Number(Number::from_bits(3.5f64.to_bits()));
    match i64::from_lua(half, &lua) {
        Err(Error::FromLuaConversionError { from, to }) => {
            assert_eq!(from, "number");
            assert_eq!(to, "i64");
        }
        other => panic!("expected a conversion error, got ok = {}", other.is_ok()),
    }
}

#[test]
fn argument_errors_carry_the_position() {
    let lua = Lua::new(1);
    let err = i64::from_lua_arg(Value::Nil, 2, Some("f".to_string()), &lua).unwrap_err();
    match &err {
        Error::BadArgument { pos, .. } => assert_eq!(*pos, 2),
        other => panic!("expected an argument error, got {:?}", std::mem::discriminant(other)),
    }
    assert_eq!(
        err.display_text(),
        "bad argument #2: error converting nil to i64"
    );
}

#[test]
fn tuples_convert_into_lists() {
    let mut lua = Lua::new(1);
    let mv = (Value::Integer(1), Value::Integer(2)).into_lua_multi(&mut lua).unwrap();
    assert_eq!(mv.into_vec(), vec![Value::Integer(1), Value::Integer(2)]);
    let empty = ().into_lua_multi(&mut lua).unwrap();
    assert!(empty.is_empty());
}

#[test]
fn iter_presents_logical_order() {
    let mv = MultiValue::from_vec(vec![Value::Integer(1), Value::Integer(2)]);
    let borrowed = mv.iter();
    assert_eq!(borrowed, vec![&Value::Integer(1), &Value::Integer(2)]);
    let empty = MultiValue::default();
    assert!(empty.iter().is_empty());
}

#[test]
fn index_reads_in_logical_order() {
    let mv = MultiValue::from_vec(vec![Value::Integer(4), Value::Integer(5)]);
    assert_eq!(mv.index(0), &Value::Integer(4));
    assert_eq!(mv.index(1), &Value::Integer(5));
}

#[test]
fn values_and_containers_are_clonable() {
    let v = Value::Error(Error::BadArgument {
        to: Some("f".to_string()),
        pos: 1,
        name: None,
        cause: Box::new(Error::Utf8Error),
    });
    let w = v.clone();
    match (v, w) {
        (Value::Error(a), Value::Error(b)) => {
            assert_eq!(a.display_text(), b.display_text());
        }
        _ => panic!("clone changed the variant"),
    }
    let mv = MultiValue::from_vec(vec![Value::Integer(9)]);
    let mv2 = mv.clone();
    assert_eq!(mv2.into_vec(), vec![Value::Integer(9)]);
}

#[test]
fn wrapping_passes_success_through_and_chains_failures() {
    let ok: Result<i64, Error> = wrap_arg_failure(Ok(7), 3, None);
    assert_eq!(ok.unwrap(), 7);
    let err: Result<i64, Error> = wrap_arg_failure(Err(Error::Utf8Error), 3, Some("g".to_string()));
    match err.unwrap_err() {
        Error::BadArgument { pos, name, cause, to } => {
            assert_eq!(pos, 3);
            assert!(name.is_none());
            assert_eq!(to, Some("g".to_string()));
            assert!(matches!(*cause, Error::Utf8Error));
        }
        _ => panic!("expected an argument error"),
    }
}
