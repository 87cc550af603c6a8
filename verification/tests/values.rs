//! The value model: rendering, source text, queries, arrays, numbers.

use liquid::array::convert_index;
use liquid::array::convert_value;
use liquid::array::ArrayView;
use liquid::cmp::value_cmp;
use liquid::cmp::value_contains;
use liquid::cmp::value_eq;
use liquid::cmp::Cmpn;
use liquid::num::parse_i64;
use liquid::num::render_int;
use liquid::object::Object;
use liquid::value::Scalar;
use liquid::value::State;
use liquid::value::Value;

fn int_value(i: i64) -> Value {
    Value::Scalar(Scalar::Integer(i))
}

#[test]
fn test_array() {
    let arr: Vec<Value> = Vec::new();
    let as_value = Value::Array(arr);
    println!("{}", String::from_utf8(as_value.source()).unwrap());
    let array = as_value.as_array().unwrap();
    assert_eq!(array.size(), 0);
    assert!(array.first().is_none());
    assert!(array.last().is_none());
}

#[test]
fn array_view_signed_indexing() {
    let arr: Vec<Value> = vec![int_value(10), int_value(20), int_value(30)];
    assert_eq!(arr.size(), 3);
    assert!(value_eq(arr.get(0).unwrap(), &int_value(10)));
    assert!(value_eq(arr.get(-1).unwrap(), &int_value(30)));
    assert!(value_eq(arr.get(-3).unwrap(), &int_value(10)));
    assert!(arr.get(3).is_none());
    assert!(arr.get(-4).is_none());
    assert!(arr.contains_key(2));
    assert!(arr.contains_key(-3));
    assert!(!arr.contains_key(3));
    // membership agrees with reads: far-negative indices are misses too
    assert!(!arr.contains_key(-4));
    assert!(!arr.contains_key(-99));
    assert!(value_eq(arr.first().unwrap(), &int_value(10)));
    assert!(value_eq(arr.last().unwrap(), &int_value(30)));
    // a negative in-range index reads as the index modulo the length
    assert!(value_eq(arr.get(-2).unwrap(), arr.get(1).unwrap()));
    assert_eq!(convert_index(-2, 3), 1);
    assert_eq!(convert_index(2, 3), 2);
    let v = int_value(1);
    assert!(value_eq(convert_value(&v), &v));
}

#[test]
fn rendering_values() {
    assert_eq!(Value::Nil.render(), b"".to_vec());
    assert_eq!(int_value(42).render(), b"42".to_vec());
    assert_eq!(int_value(-7).render(), b"-7".to_vec());
    assert_eq!(Value::Scalar(Scalar::Bool(true)).render(), b"true".to_vec());
    assert_eq!(Value::Scalar(Scalar::Bool(false)).render(), b"false".to_vec());
    assert_eq!(Value::Scalar(Scalar::Str(b"hi".to_vec())).render(), b"hi".to_vec());
    let arr = Value::Array(vec![int_value(1), int_value(2)]);
    assert_eq!(arr.render(), b"12".to_vec());
    assert_eq!(arr.source(), b"[1, 2, ]".to_vec());
    assert_eq!(arr.to_kstr(), b"12".to_vec());
}

#[test]
fn source_round_trips_for_scalars() {
    // integers
    for i in [0i64, 7, -42, i64::MAX, i64::MIN] {
        let s = Scalar::Integer(i);
        let text = s.source();
        let (end, back) = liquid::literal::integer_literal(&text, 0).unwrap();
        assert_eq!(end, text.len());
        assert_eq!(back, i);
    }
    // booleans
    let t = Scalar::Bool(true).source();
    assert_eq!(liquid::literal::bool_literal(&t, 0), Some((4, true)));
    let f = Scalar::Bool(false).source();
    assert_eq!(liquid::literal::bool_literal(&f, 0), Some((5, false)));
    // strings without a double quote inside
    let s = Scalar::Str(b"it's fine".to_vec());
    let text = s.source();
    let (end, content) = liquid::literal::string_literal(&text, 0).unwrap();
    assert_eq!(end, text.len());
    assert_eq!(content, b"it's fine".to_vec());
    // nil
    let text = Value::Nil.source();
    assert_eq!(liquid::literal::nil_literal(&text, 0), Some(3));
}

#[test]
fn state_queries() {
    assert!(int_value(1).query_state(State::Truthy));
    assert!(!Value::Nil.query_state(State::Truthy));
    assert!(!Value::Scalar(Scalar::Bool(false)).query_state(State::Truthy));
    assert!(Value::Scalar(Scalar::Str(Vec::new())).query_state(State::Truthy));

    assert!(Value::Scalar(Scalar::Str(Vec::new())).query_state(State::Empty));
    assert!(Value::Array(Vec::new()).query_state(State::Empty));
    assert!(Value::Object(Object::new()).query_state(State::Empty));
    assert!(!Value::Nil.query_state(State::Empty));

    assert!(Value::Scalar(Scalar::Str(b"  \t\n".to_vec())).query_state(State::Blank));
    assert!(Value::Nil.query_state(State::Blank));
    assert!(Value::Scalar(Scalar::Bool(false)).query_state(State::Blank));
    assert!(!int_value(0).query_state(State::Blank));

    assert!(int_value(0).query_state(State::DefaultValue));
    assert!(!int_value(1).query_state(State::DefaultValue));
}

#[test]
fn equality_and_ordering() {
    assert!(value_eq(&int_value(3), &int_value(3)));
    assert!(!value_eq(&int_value(3), &int_value(4)));
    assert!(!value_eq(&int_value(3), &Value::Scalar(Scalar::Str(b"3".to_vec()))));
    assert!(value_eq(&Value::Nil, &Value::Nil));
    let a1 = Value::Array(vec![int_value(1), int_value(2)]);
    let a2 = Value::Array(vec![int_value(1), int_value(2)]);
    let a3 = Value::Array(vec![int_value(1), int_value(3)]);
    assert!(value_eq(&a1, &a2));
    assert!(!value_eq(&a1, &a3));
    // the state literal queries the other side
    assert!(value_eq(&Value::Scalar(Scalar::Str(Vec::new())), &Value::State(State::Empty)));

    assert_eq!(value_cmp(&int_value(1), &int_value(2)), Some(Cmpn::Less));
    assert_eq!(value_cmp(&int_value(2), &int_value(2)), Some(Cmpn::Equal));
    assert_eq!(
        value_cmp(
            &Value::Scalar(Scalar::Str(b"a".to_vec())),
            &Value::Scalar(Scalar::Str(b"b".to_vec())),
        ),
        Some(Cmpn::Less)
    );
    assert_eq!(value_cmp(&int_value(1), &Value::Scalar(Scalar::Str(b"a".to_vec()))), None);
    assert_eq!(value_cmp(&Value::Scalar(Scalar::Bool(true)), &Value::Scalar(Scalar::Bool(true))), None);
}

#[test]
fn containment() {
    let hay = Value::Scalar(Scalar::Str(b"hello world".to_vec()));
    let needle = Value::Scalar(Scalar::Str(b"lo wo".to_vec()));
    let missing = Value::Scalar(Scalar::Str(b"xyz".to_vec()));
    assert!(value_contains(&hay, &needle));
    assert!(!value_contains(&hay, &missing));
    let mut o = Object::new();
    o.insert(b"k".to_vec(), int_value(1));
    assert!(value_contains(&Value::Object(o), &Value::Scalar(Scalar::Str(b"k".to_vec()))));
}

#[test]
fn object_keeps_insertion_order_and_replaces() {
    let mut o = Object::new();
    assert_eq!(o.len(), 0);
    assert!(o.insert(b"a".to_vec(), int_value(1)).is_none());
    assert!(o.insert(b"b".to_vec(), int_value(2)).is_none());
    // a repeated key keeps its place and hands the old value back
    let old = o.insert(b"a".to_vec(), int_value(3)).unwrap();
    assert!(value_eq(&old, &int_value(1)));
    assert_eq!(o.len(), 2);
    assert_eq!(o.keys(), vec![b"a".to_vec(), b"b".to_vec()]);
    assert!(value_eq(o.get(&b"a".to_vec()).unwrap(), &int_value(3)));
    assert!(o.get(&b"c".to_vec()).is_none());
    assert!(o.contains_key(&b"b".to_vec()));
}

#[test]
fn decimal_rendering_and_parsing() {
    assert_eq!(render_int(0), b"0".to_vec());
    assert_eq!(render_int(905), b"905".to_vec());
    assert_eq!(render_int(-31), b"-31".to_vec());
    assert_eq!(render_int(i64::MIN), b"-9223372036854775808".to_vec());
    assert_eq!(render_int(i64::MAX), b"9223372036854775807".to_vec());

    assert_eq!(parse_i64(&b"905".to_vec()), Some(905));
    assert_eq!(parse_i64(&b"-31".to_vec()), Some(-31));
    assert_eq!(parse_i64(&b"+7".to_vec()), Some(7));
    assert_eq!(parse_i64(&b"".to_vec()), None);
    assert_eq!(parse_i64(&b"12a".to_vec()), None);
    assert_eq!(parse_i64(&b"-9223372036854775808".to_vec()), Some(i64::MIN));
    assert_eq!(parse_i64(&b"9223372036854775807".to_vec()), Some(i64::MAX));
    assert_eq!(parse_i64(&b"9223372036854775808".to_vec()), None);
    assert_eq!(parse_i64(&b"-9223372036854775809".to_vec()), None);
}

#[test]
fn scalar_coercion_to_integer() {
    assert_eq!(Scalar::Integer(4).to_integer(), Some(4));
    assert_eq!(Scalar::Str(b"17".to_vec()).to_integer(), Some(17));
    assert_eq!(Scalar::Str(b"x".to_vec()).to_integer(), None);
    assert_eq!(Scalar::Bool(true).to_integer(), None);
}

#[test]
fn kind_names() {
    assert_eq!(Value::Nil.kind_name(), "nil");
    assert_eq!(int_value(1).kind_name(), "integer");
    assert_eq!(Value::Scalar(Scalar::Str(Vec::new())).kind_name(), "string");
    assert_eq!(Value::Scalar(Scalar::Bool(true)).kind_name(), "bool");
    assert_eq!(Value::Array(Vec::new()).kind_name(), "array");
    assert_eq!(Value::Object(Object::new()).kind_name(), "object");
    assert_eq!(Value::State(State::Empty).kind_name(), "state");
}

#[test]
fn deep_copy_preserves_the_tree() {
    let mut inner = Object::new();
    inner.insert(b"k".to_vec(), int_value(5));
    let tree = Value::Array(vec![Value::Object(inner), int_value(9)]);
    let copy = tree.to_value();
    assert!(value_eq(&copy, &tree));
}

#[test]
fn lexicographic_literal_recognizers() {
    let text = b"blank empty null 0123".to_vec();
    assert_eq!(liquid::literal::blank_literal(&text, 0), Some(5));
    assert_eq!(liquid::literal::empty_literal(&text, 6), Some(11));
    assert_eq!(liquid::literal::nil_literal(&text, 12), Some(16));
    // a leading zero ends the integer token early
    assert_eq!(liquid::literal::dec_int(&text, 17), Some(18));
    assert_eq!(liquid::literal::frac(&b".25".to_vec(), 0), Some(3));
    assert_eq!(liquid::literal::exp(&b"e-3x".to_vec(), 0), Some(3));
    assert_eq!(liquid::literal::parse_zero_prefixable_int(&b"007".to_vec(), 0), Some(3));
    assert_eq!(liquid::literal::parse_float(&b"1.5e3".to_vec(), 0), Some(5));
    assert_eq!(liquid::literal::parse_float(&b"1.5".to_vec(), 0), None);
    // special float tokens: optional sign, then `nan` or `inf`
    assert_eq!(liquid::literal::special_float(&b"nan".to_vec(), 0), Some((3, false, true)));
    assert_eq!(liquid::literal::special_float(&b"-inf".to_vec(), 0), Some((4, true, false)));
    assert_eq!(liquid::literal::special_float(&b"+nan".to_vec(), 0), Some((4, false, true)));
    assert_eq!(liquid::literal::special_float(&b"infx".to_vec(), 0), Some((3, false, false)));
    assert_eq!(liquid::literal::special_float(&b"x".to_vec(), 0), None);
}

#[test]
fn counters_wrap_at_the_64_bit_edges() {
    let mut stack = liquid::stack::Stack::empty();
    stack.set_index(b"c".to_vec(), Value::Scalar(Scalar::Integer(i64::MAX)));
    // the renderer bumps counters with wrapping arithmetic
    let tpl = liquid::parser::Parser::new(liquid::tags::Language::with_default_tags())
        .parse(&b"{% increment c %}{% increment c %}".to_vec())
        .unwrap();
    let mut rt = liquid::runtime::Runtime::new();
    rt.stack = stack;
    let mut out: Vec<u8> = Vec::new();
    tpl.render_to(&mut out, &mut rt).unwrap();
    let text = String::from_utf8(out).unwrap();
    assert_eq!(text, format!("{}{}", i64::MAX, i64::MIN));
}
