//! Stack and runtime behavior: scoping, frame search, counters.

use liquid::cmp::value_eq;
use liquid::object::Object;
use liquid::runtime::Runtime;
use liquid::stack::Stack;
use liquid::value::Scalar;
use liquid::value::Value;

fn int_value(i: i64) -> Value {
    Value::Scalar(Scalar::Integer(i))
}

fn str_value(s: &str) -> Value {
    Value::Scalar(Scalar::Str(s.as_bytes().to_vec()))
}

fn path(keys: &[&str]) -> Vec<Scalar> {
    keys.iter().map(|k| Scalar::Str(k.as_bytes().to_vec())).collect()
}

#[test]
fn scoped_variables() {
    let test_path = path(&["test"]);
    let global_path = path(&["global"]);

    let mut rt = Runtime::new();
    rt.stack.set_global(b"test".to_vec(), int_value(42));
    assert!(value_eq(&rt.stack.get(&test_path).unwrap(), &int_value(42)));

    rt.push_scope();
    // values are chained to the parent scope
    assert!(value_eq(&rt.stack.get(&test_path).unwrap(), &int_value(42)));

    // a new local value overrides the previous value
    rt.stack.set(b"test".to_vec(), str_value("3.14"));
    assert!(value_eq(&rt.stack.get(&test_path).unwrap(), &str_value("3.14")));

    // a global set inside the scope survives it
    rt.stack.set_global(b"global".to_vec(), str_value("some value"));
    rt.pop_scope();

    // the value has reverted to the old one
    assert!(value_eq(&rt.stack.get(&test_path).unwrap(), &int_value(42)));
    assert!(value_eq(&rt.stack.get(&global_path).unwrap(), &str_value("some value")));
}

#[test]
fn stack_find_frame() {
    let mut stack = Stack::empty();
    stack.set_global(b"number".to_vec(), int_value(42));
    assert!(stack.find_frame(&b"number".to_vec()).is_some());
}

#[test]
fn stack_find_frame_failure() {
    let mut stack = Stack::empty();
    let mut post = Object::new();
    post.insert(b"number".to_vec(), int_value(42));
    stack.set_global(b"post".to_vec(), Value::Object(post));
    assert!(stack.find_frame(&b"post.number".to_vec()).is_none());
}

#[test]
fn stack_get() {
    let mut stack = Stack::empty();
    let mut post = Object::new();
    post.insert(b"number".to_vec(), int_value(42));
    stack.set_global(b"post".to_vec(), Value::Object(post));
    let indexes = path(&["post", "number"]);
    assert!(value_eq(&stack.get(&indexes).unwrap(), &int_value(42)));
}

#[test]
fn interrupt_state_round_trip() {
    let mut state = liquid::runtime::InterruptState::new();
    assert!(!state.interrupted());
    state.set_interrupt(liquid::runtime::Interrupt::Break);
    assert!(state.interrupted());
    assert_eq!(state.pop_interrupt(), Some(liquid::runtime::Interrupt::Break));
    assert!(!state.interrupted());
    assert_eq!(state.pop_interrupt(), None);
}

#[test]
fn unknown_variable_error_lists_roots() {
    let mut stack = Stack::empty();
    stack.set_global(b"beta".to_vec(), int_value(1));
    stack.set_global(b"alpha".to_vec(), int_value(2));
    let err = stack.get(&path(&["nosuch"])).unwrap_err();
    assert_eq!(err.msg, b"Unknown variable".to_vec());
    assert_eq!(err.context.len(), 2);
    assert_eq!(err.context[0].0, b"requested variable".to_vec());
    assert_eq!(err.context[0].1, b"nosuch".to_vec());
    assert_eq!(err.context[1].0, b"available variables".to_vec());
    // sorted and joined
    assert_eq!(err.context[1].1, b"alpha, beta".to_vec());
}

#[test]
fn counters_live_beside_frames() {
    let mut stack = Stack::empty();
    stack.set_global(b"val".to_vec(), int_value(9));
    stack.set_index(b"val".to_vec(), int_value(3));
    // the frame lookup shadows the counter
    assert!(value_eq(&stack.get(&path(&["val"])).unwrap(), &int_value(9)));
    // the counter is still there on its own
    assert!(value_eq(stack.get_index(&b"val".to_vec()).unwrap(), &int_value(3)));
}

#[test]
fn runtime_builder_with_globals() {
    let mut globals = Object::new();
    globals.insert(b"x".to_vec(), int_value(7));
    let rt = liquid::runtime::RuntimeBuilder::new().set_globals(globals).build();
    assert!(value_eq(&rt.stack.get(&path(&["x"])).unwrap(), &int_value(7)));
}

#[test]
fn partials_store_lookup() {
    let mut partials = liquid::runtime::Partials::new();
    assert!(!partials.contains(&b"side".to_vec()));
    let err = partials.get(&b"side".to_vec()).unwrap_err();
    assert_eq!(err.msg, b"Partial does not exist".to_vec());
    assert_eq!(err.context[0].1, b"side".to_vec());
    partials.register(b"side".to_vec(), liquid::ast::Template { nodes: Vec::new() });
    assert!(partials.contains(&b"side".to_vec()));
    assert!(partials.try_get(&b"side".to_vec()).is_some());
    assert_eq!(partials.names(), vec![b"side".to_vec()]);
}

#[test]
fn named_scopes_report_their_name() {
    let mut rt = Runtime::new();
    assert!(rt.stack.frame_name().is_none());
    rt.push_named_scope(b"included".to_vec());
    assert_eq!(rt.stack.frame_name(), Some(b"included".to_vec()));
    rt.push_scope();
    // the nearest named frame wins, walking from the top down
    assert_eq!(rt.stack.frame_name(), Some(b"included".to_vec()));
    rt.pop_scope();
    rt.pop_scope();
    assert!(rt.stack.frame_name().is_none());
}

#[test]
fn registers_are_keyed_by_plugin_identifier() {
    let mut rt = Runtime::new();
    assert!(rt.get_register(&b"cycle".to_vec()).is_none());
    rt.set_register(b"cycle".to_vec(), int_value(2));
    assert!(value_eq(rt.get_register(&b"cycle".to_vec()).unwrap(), &int_value(2)));
    assert!(rt.get_register(&b"other".to_vec()).is_none());
}
