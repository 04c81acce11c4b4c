use hpi_interpreter_tree::codec::{
    bring_in, copy_out, copy_value, copy_values, is_importable, line_pieces,
};
use hpi_interpreter_tree::host::{Data, Entry, FloatRequest, Piece};
use hpi_interpreter_tree::messages::{
    cast_message, fault_message, index_message, money_message, parse_message, rejection_message,
};
use hpi_interpreter_tree::ops::{
    bool_infix, cast, char_infix, clamp_to_char, float_infix, infix, int_infix, operator_of,
    prefix, scalar, Computed, Fault, Scalar,
};
use hpi_interpreter_tree::state::Expect;
use hpi_interpreter_tree::scope::ScopeChain;
use hpi_interpreter_tree::text::{commas_to_periods, int_to_text};
use hpi_interpreter_tree::tree::{AssignOp, InfixOp, PrefixOp, Type};
use hpi_interpreter_tree::types::{is_of_type, name_of_type, name_of_value};
use hpi_interpreter_tree::value::{find_field, upsert_field, Field, HeapObject, Store, Value};
use hpi_interpreter_tree::world::{assemble, draw_number, number_drawn, ClockReading};

fn value_of(computed: Computed) -> Value {
    match computed {
        Computed::Value(value) => value,
        other => panic!("no value: {other:?}"),
    }
}

// ---------------------------------------------------------------------------
// Operators
// ---------------------------------------------------------------------------

#[test]
fn integer_operators_give_their_values() {
    assert_eq!(int_infix(InfixOp::Plus, 2, 3), Computed::Value(Value::Int(5)));
    assert_eq!(int_infix(InfixOp::Minus, 2, 3), Computed::Value(Value::Int(-1)));
    assert_eq!(int_infix(InfixOp::Mul, -4, 3), Computed::Value(Value::Int(-12)));
    assert_eq!(int_infix(InfixOp::Div, 7, 2), Computed::Value(Value::Int(3)));
    assert_eq!(int_infix(InfixOp::Div, -7, 2), Computed::Value(Value::Int(-3)));
    assert_eq!(int_infix(InfixOp::Div, 7, -2), Computed::Value(Value::Int(-3)));
    assert_eq!(int_infix(InfixOp::Div, -7, -2), Computed::Value(Value::Int(3)));
    assert_eq!(int_infix(InfixOp::Rem, 7, 2), Computed::Value(Value::Int(1)));
    assert_eq!(int_infix(InfixOp::Rem, -7, 2), Computed::Value(Value::Int(-1)));
    assert_eq!(int_infix(InfixOp::Rem, 7, -2), Computed::Value(Value::Int(1)));
    assert_eq!(int_infix(InfixOp::Rem, -7, -2), Computed::Value(Value::Int(-1)));
    assert_eq!(int_infix(InfixOp::Pow, 3, 4), Computed::Value(Value::Int(81)));
    assert_eq!(int_infix(InfixOp::Pow, 3, 0), Computed::Value(Value::Int(1)));
    assert_eq!(int_infix(InfixOp::Pow, 0, 0), Computed::Value(Value::Int(1)));
    assert_eq!(int_infix(InfixOp::Pow, 3, -4), Computed::Value(Value::Int(0)));
    assert_eq!(int_infix(InfixOp::Pow, -2, 3), Computed::Value(Value::Int(-8)));
    assert_eq!(int_infix(InfixOp::Shl, 3, 2), Computed::Value(Value::Int(12)));
    assert_eq!(int_infix(InfixOp::Shl, 1, 0), Computed::Value(Value::Int(1)));
    assert_eq!(int_infix(InfixOp::Shr, -16, 2), Computed::Value(Value::Int(-4)));
    assert_eq!(int_infix(InfixOp::Shr, 16, 63), Computed::Value(Value::Int(0)));
    assert_eq!(int_infix(InfixOp::BitAnd, 6, 3), Computed::Value(Value::Int(2)));
    assert_eq!(int_infix(InfixOp::BitOr, 6, 3), Computed::Value(Value::Int(7)));
    assert_eq!(int_infix(InfixOp::BitXor, 6, 3), Computed::Value(Value::Int(5)));
}

#[test]
fn integer_operators_wrap() {
    assert_eq!(int_infix(InfixOp::Plus, i64::MAX, 1), Computed::Value(Value::Int(i64::MIN)));
    assert_eq!(int_infix(InfixOp::Minus, i64::MIN, 1), Computed::Value(Value::Int(i64::MAX)));
    assert_eq!(int_infix(InfixOp::Mul, i64::MIN, -1), Computed::Value(Value::Int(i64::MIN)));
    assert_eq!(int_infix(InfixOp::Div, i64::MIN, -1), Computed::Value(Value::Int(i64::MIN)));
    assert_eq!(int_infix(InfixOp::Rem, i64::MIN, -1), Computed::Value(Value::Int(0)));
    assert_eq!(int_infix(InfixOp::Pow, 2, 63), Computed::Value(Value::Int(i64::MIN)));
    assert_eq!(int_infix(InfixOp::Pow, 2, 64), Computed::Value(Value::Int(0)));
    assert_eq!(prefix(PrefixOp::Neg, Value::Int(i64::MIN)), Computed::Value(Value::Int(i64::MIN)));
}

#[test]
fn power_uses_the_low_32_bits_of_its_exponent() {
    assert_eq!(int_infix(InfixOp::Pow, 3, 0x1_0000_0000), Computed::Value(Value::Int(1)));
    assert_eq!(int_infix(InfixOp::Pow, 3, 0x1_0000_0002), Computed::Value(Value::Int(9)));
}

#[test]
fn integer_operators_fail_on_zero_divisors_and_bad_shifts() {
    assert_eq!(int_infix(InfixOp::Div, 5, 0), Computed::Error(Fault::DivisionByZero));
    assert_eq!(int_infix(InfixOp::Rem, 5, 0), Computed::Error(Fault::RemainderByZero));
    assert_eq!(int_infix(InfixOp::Shl, 5, -1), Computed::Error(Fault::ShiftLeft(-1)));
    assert_eq!(int_infix(InfixOp::Shl, 5, 64), Computed::Error(Fault::ShiftLeft(64)));
    assert_eq!(int_infix(InfixOp::Shr, 5, -1), Computed::Error(Fault::ShiftRight(-1)));
    assert_eq!(int_infix(InfixOp::Shr, 5, 64), Computed::Error(Fault::ShiftRight(64)));
    assert_eq!(int_infix(InfixOp::Shl, 5, 63), Computed::Value(Value::Int(i64::MIN)));
}

#[test]
fn integer_comparisons() {
    assert_eq!(value_of(int_infix(InfixOp::Eq, 1, 1)), Value::Bool(true));
    assert_eq!(value_of(int_infix(InfixOp::Neq, 1, 1)), Value::Bool(false));
    assert_eq!(value_of(int_infix(InfixOp::Lt, -1, 1)), Value::Bool(true));
    assert_eq!(value_of(int_infix(InfixOp::Gt, -1, 1)), Value::Bool(false));
    assert_eq!(value_of(int_infix(InfixOp::Lte, 1, 1)), Value::Bool(true));
    assert_eq!(value_of(int_infix(InfixOp::Gte, 0, 1)), Value::Bool(false));
}

#[test]
fn logical_operators_are_no_operators_on_values() {
    assert_eq!(int_infix(InfixOp::And, 1, 1), Computed::Defect);
    assert_eq!(bool_infix(InfixOp::Or, true, true), Computed::Defect);
    assert_eq!(infix(InfixOp::And, Value::Bool(true), Value::Bool(true)), Computed::Defect);
}

#[test]
fn boolean_operators() {
    assert_eq!(value_of(bool_infix(InfixOp::Eq, true, false)), Value::Bool(false));
    assert_eq!(value_of(bool_infix(InfixOp::Neq, true, false)), Value::Bool(true));
    assert_eq!(value_of(bool_infix(InfixOp::BitAnd, true, false)), Value::Bool(false));
    assert_eq!(value_of(bool_infix(InfixOp::BitOr, true, false)), Value::Bool(true));
    assert_eq!(value_of(bool_infix(InfixOp::BitXor, true, true)), Value::Bool(false));
    assert_eq!(bool_infix(InfixOp::Plus, true, true), Computed::Defect);
    assert_eq!(value_of(prefix(PrefixOp::Not, Value::Bool(false))), Value::Bool(true));
    assert_eq!(prefix(PrefixOp::Not, Value::Int(1)), Computed::Defect);
}

#[test]
fn character_operators_stay_within_128_codes() {
    assert_eq!(value_of(char_infix(InfixOp::Plus, 65, 1)), Value::Char(66));
    assert_eq!(value_of(char_infix(InfixOp::Plus, 127, 1)), Value::Char(0));
    assert_eq!(value_of(char_infix(InfixOp::Plus, 200, 100)), Value::Char(44));
    assert_eq!(value_of(char_infix(InfixOp::Minus, 66, 1)), Value::Char(65));
    assert_eq!(value_of(char_infix(InfixOp::Minus, 0, 1)), Value::Char(127));
    assert_eq!(value_of(char_infix(InfixOp::Lt, 65, 66)), Value::Bool(true));
    assert_eq!(value_of(char_infix(InfixOp::Gte, 65, 66)), Value::Bool(false));
    assert_eq!(char_infix(InfixOp::Mul, 2, 2), Computed::Defect);
}

#[test]
fn float_operators_become_requests() {
    assert_eq!(
        float_infix(InfixOp::Plus, 1, 2),
        Computed::Host(FloatRequest::Infix(InfixOp::Plus, 1, 2), Expect::Float)
    );
    assert_eq!(
        float_infix(InfixOp::Lte, 1, 2),
        Computed::Host(FloatRequest::Infix(InfixOp::Lte, 1, 2), Expect::Bool)
    );
    assert_eq!(float_infix(InfixOp::Div, 1, 0), Computed::Error(Fault::DivisionByZero));
    assert_eq!(
        float_infix(InfixOp::Div, 1, 0x8000_0000_0000_0000),
        Computed::Error(Fault::DivisionByZero)
    );
    assert_eq!(float_infix(InfixOp::Rem, 1, 0), Computed::Error(Fault::RemainderByZero));
    assert_eq!(
        float_infix(InfixOp::Div, 0, 1),
        Computed::Host(FloatRequest::Infix(InfixOp::Div, 0, 1), Expect::Float)
    );
    assert_eq!(
        float_infix(InfixOp::Mul, 1, 0),
        Computed::Host(FloatRequest::Infix(InfixOp::Mul, 1, 0), Expect::Float)
    );
    assert_eq!(float_infix(InfixOp::Shl, 1, 2), Computed::Defect);
    assert_eq!(float_infix(InfixOp::BitAnd, 1, 2), Computed::Defect);
    assert_eq!(
        prefix(PrefixOp::Neg, Value::Float(7)),
        Computed::Host(FloatRequest::Negate(7), Expect::Float)
    );
}

#[test]
fn operators_ask_for_operands_of_one_type() {
    assert_eq!(infix(InfixOp::Plus, Value::Int(1), Value::Float(2)), Computed::Defect);
    assert_eq!(infix(InfixOp::Eq, Value::Unit, Value::Unit), Computed::Defect);
    assert_eq!(infix(InfixOp::Plus, Value::Int(1), Value::Int(2)), Computed::Value(Value::Int(3)));
    assert_eq!(
        infix(InfixOp::Plus, Value::Char(1), Value::Char(2)),
        Computed::Value(Value::Char(3))
    );
    assert_eq!(prefix(PrefixOp::Ref, Value::Int(1)), Computed::Defect);
    assert_eq!(prefix(PrefixOp::Deref, Value::Ptr(0)), Computed::Defect);
}

#[test]
fn integers_are_brought_into_the_range_of_character_codes() {
    assert_eq!(clamp_to_char(i64::MIN), 0);
    assert_eq!(clamp_to_char(-1), 0);
    assert_eq!(clamp_to_char(0), 0);
    assert_eq!(clamp_to_char(65), 65);
    assert_eq!(clamp_to_char(127), 127);
    assert_eq!(clamp_to_char(128), 127);
    assert_eq!(clamp_to_char(300), 127);
    assert_eq!(clamp_to_char(i64::MAX), 127);
}

#[test]
fn clamp_of_the_integer_part_is_the_truncated_clamp_of_the_float() {
    let floats = [
        300.7, -5.0, 65.9, 0.0, -0.0, -0.9, 0.9, 126.99, 127.0, 127.5, 128.0, 1e30, -1e30,
        f64::INFINITY, f64::NEG_INFINITY, f64::NAN, f64::MAX, f64::MIN, 1e-300,
    ];
    for f in floats {
        assert_eq!(clamp_to_char(f as i64), f.clamp(0.0, 127.0) as u8, "{f}");
    }
}

#[test]
fn compound_assignments_name_their_operators() {
    assert_eq!(operator_of(AssignOp::Basic), None);
    assert_eq!(operator_of(AssignOp::Plus), Some(InfixOp::Plus));
    assert_eq!(operator_of(AssignOp::Minus), Some(InfixOp::Minus));
    assert_eq!(operator_of(AssignOp::Mul), Some(InfixOp::Mul));
    assert_eq!(operator_of(AssignOp::Div), Some(InfixOp::Div));
    assert_eq!(operator_of(AssignOp::Rem), Some(InfixOp::Rem));
    assert_eq!(operator_of(AssignOp::Pow), Some(InfixOp::Pow));
    assert_eq!(operator_of(AssignOp::Shl), Some(InfixOp::Shl));
    assert_eq!(operator_of(AssignOp::Shr), Some(InfixOp::Shr));
    assert_eq!(operator_of(AssignOp::BitOr), Some(InfixOp::BitOr));
    assert_eq!(operator_of(AssignOp::BitAnd), Some(InfixOp::BitAnd));
    assert_eq!(operator_of(AssignOp::BitXor), Some(InfixOp::BitXor));
}

#[test]
fn scalar_types_are_those_without_pointer_levels() {
    assert_eq!(scalar(&Type::Int(0)), Some(Scalar::Int));
    assert_eq!(scalar(&Type::Float(0)), Some(Scalar::Float));
    assert_eq!(scalar(&Type::Bool(0)), Some(Scalar::Bool));
    assert_eq!(scalar(&Type::Char(0)), Some(Scalar::Char));
    assert_eq!(scalar(&Type::Int(1)), None);
    assert_eq!(scalar(&Type::String(0)), None);
    assert_eq!(scalar(&Type::Any), None);
}

#[test]
fn casts_of_scalars() {
    assert_eq!(cast(Value::Int(5), Scalar::Int), Computed::Value(Value::Int(5)));
    assert_eq!(
        cast(Value::Int(5), Scalar::Float),
        Computed::Host(FloatRequest::FromInt(5), Expect::Float)
    );
    assert_eq!(cast(Value::Int(0), Scalar::Bool), Computed::Value(Value::Bool(false)));
    assert_eq!(cast(Value::Int(-1), Scalar::Bool), Computed::Value(Value::Bool(true)));
    assert_eq!(cast(Value::Int(-1), Scalar::Char), Computed::Value(Value::Char(0)));
    assert_eq!(cast(Value::Int(127), Scalar::Char), Computed::Value(Value::Char(127)));
    assert_eq!(cast(Value::Int(128), Scalar::Char), Computed::Value(Value::Char(127)));
    assert_eq!(cast(Value::Float(9), Scalar::Float), Computed::Value(Value::Float(9)));
    assert_eq!(
        cast(Value::Float(9), Scalar::Int),
        Computed::Host(FloatRequest::ToInt(9), Expect::Int)
    );
    assert_eq!(
        cast(Value::Float(9), Scalar::Bool),
        Computed::Host(FloatRequest::ToBool(9), Expect::Bool)
    );
    assert_eq!(
        cast(Value::Float(9), Scalar::Char),
        Computed::Host(FloatRequest::ToInt(9), Expect::Char)
    );
    assert_eq!(cast(Value::Bool(true), Scalar::Int), Computed::Value(Value::Int(1)));
    assert_eq!(cast(Value::Bool(false), Scalar::Int), Computed::Value(Value::Int(0)));
    assert_eq!(
        cast(Value::Bool(true), Scalar::Float),
        Computed::Host(FloatRequest::FromInt(1), Expect::Float)
    );
    assert_eq!(cast(Value::Bool(true), Scalar::Char), Computed::Value(Value::Char(1)));
    assert_eq!(cast(Value::Bool(true), Scalar::Bool), Computed::Value(Value::Bool(true)));
    assert_eq!(cast(Value::Char(200), Scalar::Int), Computed::Value(Value::Int(200)));
    assert_eq!(
        cast(Value::Char(65), Scalar::Float),
        Computed::Host(FloatRequest::FromInt(65), Expect::Float)
    );
    assert_eq!(cast(Value::Char(0), Scalar::Bool), Computed::Value(Value::Bool(false)));
    assert_eq!(cast(Value::Char(7), Scalar::Char), Computed::Value(Value::Char(7)));
    assert_eq!(cast(Value::Unit, Scalar::Int), Computed::Defect);
    assert_eq!(cast(Value::List(0), Scalar::Bool), Computed::Defect);
}

// ---------------------------------------------------------------------------
// Scopes
// ---------------------------------------------------------------------------

#[test]
fn name_resolves_to_the_innermost_binding() {
    let mut chain = ScopeChain::new();
    assert_eq!(chain.depth(), 0);
    assert_eq!(chain.resolve("x"), None);
    assert!(!chain.declare("x", 0));
    assert!(!chain.pop_frame());
    chain.push_frame();
    assert!(chain.declare("x", 1));
    assert!(chain.declare("y", 2));
    assert_eq!(chain.resolve("x"), Some(1));
    chain.push_frame();
    assert_eq!(chain.resolve("x"), Some(1));
    assert!(chain.declare("x", 3));
    assert_eq!(chain.resolve("x"), Some(3));
    assert_eq!(chain.resolve("y"), Some(2));
    assert!(chain.declare("x", 4));
    assert_eq!(chain.resolve("x"), Some(4));
    assert_eq!(chain.depth(), 2);
    assert!(chain.pop_frame());
    assert_eq!(chain.resolve("x"), Some(1));
    assert_eq!(chain.resolve("z"), None);
    assert!(chain.pop_frame());
    assert_eq!(chain.resolve("x"), None);
}

// ---------------------------------------------------------------------------
// The store
// ---------------------------------------------------------------------------

#[test]
fn cells_hold_what_was_written_last() {
    let mut store = Store::new();
    assert_eq!(store.read(0), None);
    assert!(!store.write(0, Value::Int(1)));
    let a = store.new_cell(Value::Int(1));
    let b = store.new_cell(Value::Bool(true));
    assert_eq!((a, b), (0, 1));
    assert_eq!(store.read(a), Some(Value::Int(1)));
    assert!(store.write(a, Value::Ptr(b)));
    assert_eq!(store.read(a), Some(Value::Ptr(b)));
    assert_eq!(store.read(b), Some(Value::Bool(true)));
    assert_eq!(store.read(2), None);
}

#[test]
fn heap_objects_are_found_by_values_of_their_kind() {
    let mut store = Store::new();
    let text = store.new_text("Hallo".to_string());
    assert_eq!(text, Value::String(0));
    let list = Value::List(store.allocate(HeapObject::List(vec![Value::Int(1), text])));
    let fields = store.allocate(HeapObject::Fields(vec![Field {
        key: "a".to_string(),
        value: Value::Int(2),
    }]));
    let bound = Value::BuiltinFunction(
        store.allocate(HeapObject::Bound { base: list, name: "Länge".to_string() }),
    );
    assert_eq!(store.text(text).map(|s| s.as_str()), Some("Hallo"));
    assert_eq!(store.text(Value::String(1)), None);
    assert_eq!(store.text(Value::List(0)), None);
    assert_eq!(store.text(Value::String(9)), None);
    assert_eq!(store.list(list), Some(&vec![Value::Int(1), text]));
    assert_eq!(store.list(Value::List(0)), None);
    assert_eq!(store.fields(Value::Objekt(fields)).map(|f| f.len()), Some(1));
    assert_eq!(store.fields(Value::Speicherbox(fields)).map(|f| f.len()), Some(1));
    assert!(store.fields(Value::Objekt(0)).is_none());
    assert!(store.fields(list).is_none());
    let (base, name) = store.bound(bound).unwrap();
    assert_eq!((base, name.as_str()), (list, "Länge"));
    assert!(store.bound(Value::BuiltinFunction(0)).is_none());
}

#[test]
fn fields_are_bound_once_per_key() {
    let mut fields: Vec<Field> = Vec::new();
    assert_eq!(find_field(&fields, "a"), None);
    upsert_field(&mut fields, "a".to_string(), Value::Int(1));
    upsert_field(&mut fields, "b".to_string(), Value::Int(2));
    upsert_field(&mut fields, "a".to_string(), Value::Int(3));
    assert_eq!(fields.len(), 2);
    assert_eq!(find_field(&fields, "a"), Some(0));
    assert_eq!(find_field(&fields, "b"), Some(1));
    assert_eq!(find_field(&fields, "c"), None);
    assert_eq!(fields[0].value, Value::Int(3));
    assert_eq!(fields[1].value, Value::Int(2));
}

// ---------------------------------------------------------------------------
// Copies for the host
// ---------------------------------------------------------------------------

fn same(a: &Data, b: &Data) -> bool {
    format!("{a:?}") == format!("{b:?}")
}

#[test]
fn values_are_copied_out_with_what_they_refer_to() {
    let mut store = Store::new();
    let cell = store.new_cell(Value::Int(1));
    let text = store.new_text("t".to_string());
    let inner = Value::List(store.allocate(HeapObject::List(vec![Value::Float(5), text])));
    let object = Value::Objekt(store.allocate(HeapObject::Fields(vec![
        Field { key: "l".to_string(), value: inner },
        Field { key: "p".to_string(), value: Value::Ptr(cell) },
    ])));
    let outer = Value::List(store.allocate(HeapObject::List(vec![object, inner, Value::Unit])));
    let copy = copy_value(&store, outer).unwrap();
    let list = Data::List(vec![Data::Float(5), Data::Text("t".to_string())]);
    let list_again = Data::List(vec![Data::Float(5), Data::Text("t".to_string())]);
    let expected = Data::List(vec![
        Data::Objekt(vec![
            Entry { key: "l".to_string(), value: list },
            Entry { key: "p".to_string(), value: Data::Ptr },
        ]),
        list_again,
        Data::Unit,
    ]);
    assert!(same(&copy, &expected), "{copy:?}");
    let copies = copy_values(&store, &vec![Value::Bool(true), Value::Char(7), text]).unwrap();
    assert_eq!(copies.len(), 3);
    assert!(same(&copies[0], &Data::Bool(true)));
    assert!(same(&copies[1], &Data::Char(7)));
    assert!(same(&copies[2], &Data::Text("t".to_string())));
}

#[test]
fn box_of_host_data_keeps_its_kind_when_copied() {
    let mut store = Store::new();
    let fields = store.allocate(HeapObject::Fields(vec![]));
    assert!(same(&copy_value(&store, Value::Speicherbox(fields)).unwrap(), &Data::Speicherbox(vec![])));
    assert!(same(&copy_value(&store, Value::Objekt(fields)).unwrap(), &Data::Objekt(vec![])));
    assert!(same(&copy_value(&store, Value::BuiltinFunction(3)).unwrap(), &Data::BuiltinFunction));
}

#[test]
fn values_that_refer_to_nothing_are_not_copied_out() {
    let mut store = Store::new();
    assert!(copy_value(&store, Value::String(0)).is_none());
    assert!(copy_value(&store, Value::List(0)).is_none());
    let text = store.new_text("t".to_string());
    assert!(copy_value(&store, Value::List(0)).is_none());
    // A list that refers to itself or to a later object is not followed.
    let knot = Value::List(store.allocate(HeapObject::List(vec![Value::List(1)])));
    assert!(copy_value(&store, knot).is_none());
    let early = Value::List(store.allocate(HeapObject::List(vec![Value::List(3)])));
    let late = Value::List(store.allocate(HeapObject::List(vec![text])));
    assert!(copy_value(&store, early).is_none());
    assert!(copy_value(&store, late).is_some());
    assert!(copy_out(&store, late, 3).is_none());
    assert!(copy_values(&store, &vec![Value::Int(1), knot]).is_none());
}

#[test]
fn data_without_markers_can_be_brought_in() {
    assert!(is_importable(&Data::Unit));
    assert!(is_importable(&Data::List(vec![Data::Int(1), Data::List(vec![])])));
    assert!(!is_importable(&Data::Ptr));
    assert!(!is_importable(&Data::BuiltinFunction));
    assert!(!is_importable(&Data::List(vec![Data::Int(1), Data::Ptr])));
    assert!(!is_importable(&Data::Objekt(vec![Entry {
        key: "a".to_string(),
        value: Data::List(vec![Data::BuiltinFunction]),
    }])));
    assert!(!is_importable(&Data::Speicherbox(vec![Entry {
        key: "a".to_string(),
        value: Data::Ptr,
    }])));
}

#[test]
fn data_is_brought_in_parts_first() {
    let mut store = Store::new();
    let data = Data::List(vec![
        Data::Text("a".to_string()),
        Data::Objekt(vec![
            Entry { key: "k".to_string(), value: Data::Int(1) },
            Entry { key: "k".to_string(), value: Data::Text("b".to_string()) },
        ]),
        Data::Speicherbox(vec![]),
        Data::Float(3),
        Data::Bool(true),
        Data::Char(9),
        Data::Unit,
    ]);
    let value = bring_in(&mut store, &data);
    assert_eq!(value, Value::List(4));
    assert_eq!(store.heap.len(), 5);
    assert_eq!(
        store.list(value),
        Some(&vec![
            Value::String(0),
            Value::Objekt(2),
            Value::Speicherbox(3),
            Value::Float(3),
            Value::Bool(true),
            Value::Char(9),
            Value::Unit,
        ])
    );
    assert_eq!(store.text(Value::String(0)).map(|s| s.as_str()), Some("a"));
    assert_eq!(store.text(Value::String(1)).map(|s| s.as_str()), Some("b"));
    let fields = store.fields(Value::Objekt(2)).unwrap();
    assert_eq!(fields.len(), 1);
    assert_eq!(fields[0].key, "k");
    assert_eq!(fields[0].value, Value::String(1));
    // What was brought in comes out as it went in, but for the shadowed entry.
    let back = copy_value(&store, value).unwrap();
    let expected = Data::List(vec![
        Data::Text("a".to_string()),
        Data::Objekt(vec![Entry { key: "k".to_string(), value: Data::Text("b".to_string()) }]),
        Data::Speicherbox(vec![]),
        Data::Float(3),
        Data::Bool(true),
        Data::Char(9),
        Data::Unit,
    ]);
    assert!(same(&back, &expected), "{back:?}");
}

fn shown(pieces: Vec<Piece>) -> String {
    pieces
        .into_iter()
        .map(|piece| match piece {
            Piece::Text(text) => text,
            Piece::Float(bits) => format!("<{bits}>"),
        })
        .collect()
}

#[test]
fn line_shows_its_arguments_with_spaces_between() {
    assert_eq!(shown(line_pieces(vec![])), "\n");
    assert_eq!(shown(line_pieces(vec![Data::Int(1)])), "1\n");
    assert_eq!(
        shown(line_pieces(vec![
            Data::Int(i64::MIN),
            Data::Float(77),
            Data::Text("hi there".to_string()),
            Data::Char(b'c'),
            Data::Bool(false),
            Data::Unit,
            Data::Ptr,
            Data::BuiltinFunction,
        ])),
        "-9223372036854775808 <77> hi there c false () Zeiger Funktion\n"
    );
    assert_eq!(
        shown(line_pieces(vec![
            Data::List(vec![]),
            Data::List(vec![Data::Int(1)]),
            Data::List(vec![Data::Int(1), Data::List(vec![Data::Float(2), Data::Int(3)])]),
            Data::Objekt(vec![]),
            Data::Speicherbox(vec![
                Entry { key: "a".to_string(), value: Data::Int(1) },
                Entry { key: "b".to_string(), value: Data::List(vec![Data::Int(2)]) },
            ]),
        ])),
        "[] [1] [1, [<2>, 3]] {} {a: 1, b: [2]}\n"
    );
}

// ---------------------------------------------------------------------------
// Messages and type names
// ---------------------------------------------------------------------------

#[test]
fn messages_have_their_texts() {
    assert_eq!(fault_message(Fault::DivisionByZero), "Division durch Null");
    assert_eq!(fault_message(Fault::RemainderByZero), "Rest einer Division durch Null");
    assert_eq!(
        fault_message(Fault::ShiftLeft(70)),
        "Ungültige Verschiebung nach links um `70`"
    );
    assert_eq!(
        fault_message(Fault::ShiftRight(i64::MIN)),
        "Ungültige Verschiebung nach rechts um `-9223372036854775808`"
    );
    assert_eq!(index_message(-3), "Illegale Indizierung mittels Index: `-3`");
    assert_eq!(index_message(0), "Illegale Indizierung mittels Index: `0`");
    assert_eq!(
        cast_message("A", "B"),
        "Invalide Typumwandlung während der Laufzeit: Der Datentyp `A` kann nicht in `B` umgewandelt werden."
    );
    assert_eq!(
        parse_message("1x", "weil"),
        "Zeichenkettenverarbeitungsfehler in Zeichenkette `1x`: weil"
    );
    assert_eq!(
        rejection_message(),
        "Ihre Bewerbung hat das HPI leider nicht überzeugt.\n Ist Ihr Bewerbungsschreiben vielleicht leer?"
    );
    assert_eq!(money_message(), "Nun sind Sie reich, sie wurden gesponst!");
}

#[test]
fn integers_are_written_in_decimal() {
    assert_eq!(int_to_text(0), "0");
    assert_eq!(int_to_text(7), "7");
    assert_eq!(int_to_text(10), "10");
    assert_eq!(int_to_text(-1), "-1");
    assert_eq!(int_to_text(1234567890), "1234567890");
    assert_eq!(int_to_text(-9080706), "-9080706");
    assert_eq!(int_to_text(i64::MAX), "9223372036854775807");
    assert_eq!(int_to_text(i64::MIN), "-9223372036854775808");
    for i in [-1000i64, -99, -10, -9, 9, 10, 99, 100, 101, 4711] {
        assert_eq!(int_to_text(i), i.to_string());
    }
}

#[test]
fn commas_become_periods() {
    assert_eq!(commas_to_periods(""), "");
    assert_eq!(commas_to_periods("3,14"), "3.14");
    assert_eq!(commas_to_periods(",,"), "..");
    assert_eq!(commas_to_periods("1.000,5"), "1.000.5");
    assert_eq!(commas_to_periods("ohne"), "ohne");
    assert_eq!(commas_to_periods("Größe, Maß"), "Größe. Maß");
}

#[test]
fn types_and_values_have_names() {
    assert_eq!(name_of_type(&Type::Int(0)), "Zahl");
    assert_eq!(name_of_type(&Type::Float(0)), "Fließkommazahl");
    assert_eq!(name_of_type(&Type::Bool(0)), "Wahrheitswert");
    assert_eq!(name_of_type(&Type::Char(0)), "Zeichen");
    assert_eq!(name_of_type(&Type::String(0)), "Zeichenkette");
    assert_eq!(name_of_type(&Type::Objekt(0)), "Objekt");
    assert_eq!(name_of_type(&Type::Speicherbox(0)), "Speicherbox");
    assert_eq!(name_of_type(&Type::Any), "Unbekannt");
    assert_eq!(name_of_type(&Type::Nichts), "Nichts");
    assert_eq!(name_of_type(&Type::Other("Funktion".to_string())), "Funktion");
    assert_eq!(name_of_type(&Type::Int(2)), "Zeiger auf Zeiger auf Zahl");
    assert_eq!(
        name_of_type(&Type::List(Box::new(Type::List(Box::new(Type::Char(1)), 0)), 1)),
        "Zeiger auf Liste von Liste von Zeiger auf Zeichen"
    );
    assert_eq!(name_of_value(Value::Unit), "Nichts");
    assert_eq!(name_of_value(Value::Int(1)), "Zahl");
    assert_eq!(name_of_value(Value::Float(1)), "Fließkommazahl");
    assert_eq!(name_of_value(Value::Bool(true)), "Wahrheitswert");
    assert_eq!(name_of_value(Value::Char(1)), "Zeichen");
    assert_eq!(name_of_value(Value::String(1)), "Zeichenkette");
    assert_eq!(name_of_value(Value::List(1)), "Liste");
    assert_eq!(name_of_value(Value::Objekt(1)), "Objekt");
    assert_eq!(name_of_value(Value::Speicherbox(1)), "Speicherbox");
    assert_eq!(name_of_value(Value::Ptr(1)), "Zeiger");
    assert_eq!(name_of_value(Value::BuiltinFunction(1)), "Funktion");
}

#[test]
fn values_are_of_the_types_of_their_tags() {
    assert!(is_of_type(Value::Int(1), &Type::Int(0)));
    assert!(!is_of_type(Value::Int(1), &Type::Int(1)));
    assert!(!is_of_type(Value::Int(1), &Type::Float(0)));
    assert!(is_of_type(Value::Float(1), &Type::Float(0)));
    assert!(is_of_type(Value::Bool(true), &Type::Bool(0)));
    assert!(is_of_type(Value::Char(1), &Type::Char(0)));
    assert!(is_of_type(Value::String(0), &Type::String(0)));
    assert!(is_of_type(Value::List(0), &Type::List(Box::new(Type::Int(0)), 0)));
    assert!(is_of_type(Value::List(0), &Type::List(Box::new(Type::Any), 0)));
    assert!(!is_of_type(Value::List(0), &Type::List(Box::new(Type::Int(0)), 1)));
    assert!(is_of_type(Value::Objekt(0), &Type::Objekt(0)));
    assert!(!is_of_type(Value::Objekt(0), &Type::Speicherbox(0)));
    assert!(is_of_type(Value::Speicherbox(0), &Type::Speicherbox(0)));
    assert!(is_of_type(Value::Unit, &Type::Nichts));
    assert!(!is_of_type(Value::Int(0), &Type::Nichts));
    assert!(is_of_type(Value::Ptr(0), &Type::Int(1)));
    assert!(is_of_type(Value::Ptr(0), &Type::List(Box::new(Type::Int(0)), 3)));
    assert!(!is_of_type(Value::Ptr(0), &Type::Int(0)));
    assert!(!is_of_type(Value::Unit, &Type::Other("Niemals".to_string())));
    assert!(!is_of_type(Value::BuiltinFunction(0), &Type::Other("Funktion".to_string())));
    assert!(is_of_type(Value::Ptr(0), &Type::Any));
    assert!(is_of_type(Value::BuiltinFunction(0), &Type::Any));
    assert!(!is_of_type(Value::BuiltinFunction(0), &Type::Objekt(0)));
}

// ---------------------------------------------------------------------------
// The world
// ---------------------------------------------------------------------------

#[test]
fn bytes_spell_a_number_lowest_first() {
    assert_eq!(assemble([0x78, 0x56, 0x34, 0x12]), 0x1234_5678);
    assert_eq!(assemble([0, 0, 0, 0]), 0);
    assert_eq!(assemble([1, 0, 0, 0]), 1);
    assert_eq!(assemble([0, 0, 0, 1]), 0x0100_0000);
    assert_eq!(assemble([0xff, 0xff, 0xff, 0xff]), u32::MAX);
}

#[test]
fn draw_comes_to_the_number_of_its_bytes_or_to_nothing() {
    assert_eq!(number_drawn(Ok([0x78, 0x56, 0x34, 0x12])), Some(0x1234_5678));
    assert_eq!(number_drawn(Ok([0, 0, 0, 0])), Some(0));
    assert_eq!(number_drawn(Ok([0xff, 0xff, 0xff, 0xff])), Some(u32::MAX));
    assert_eq!(number_drawn(Err(getrandom::Error::FAILED_RDRAND)), None);
    assert_eq!(number_drawn(Err(getrandom::Error::UNEXPECTED)), None);
}

#[test]
fn system_gives_random_numbers() {
    let draws: Vec<u32> = (0..8).map(|_| draw_number().unwrap()).collect();
    assert!(draws.iter().any(|n| *n != draws[0]));
}

#[test]
fn epoch_is_a_thursday() {
    let epoch = ClockReading::epoch();
    assert_eq!(
        (epoch.year, epoch.month, epoch.day, epoch.weekday, epoch.hour, epoch.minute, epoch.second),
        (1970, 1, 1, 3, 0, 0, 0)
    );
}
