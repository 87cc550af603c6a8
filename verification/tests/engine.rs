//! End-to-end parsing and rendering.

use liquid::object::Object;
use liquid::parser::Parser;
use liquid::tags::Language;
use liquid::value::Scalar;
use liquid::value::Value;

fn parse(text: &str) -> liquid::ast::Template {
    Parser::new(Language::with_default_tags()).parse(&text.as_bytes().to_vec()).unwrap()
}

fn render(text: &str, globals: Object) -> String {
    let out = parse(text).render(globals).unwrap();
    String::from_utf8(out).unwrap()
}

fn int_value(i: i64) -> Value {
    Value::Scalar(Scalar::Integer(i))
}

#[test]
fn increment() {
    let text = "{% increment val %}{{ val }}";
    assert_eq!(render(text, Object::new()), "01");
}

#[test]
fn decrement() {
    let text = "{% decrement val %}{{ val }}";
    assert_eq!(render(text, Object::new()), "-1-1");
}

#[test]
fn increment_and_decrement() {
    let text = "{% increment val %}{% increment val %}{% decrement val %}{% decrement val %}";
    assert_eq!(render(text, Object::new()), "0110");
}

#[test]
fn assign_and_increment() {
    let text = "{%- assign val = 9 -%}{% increment val %}{% increment val %}{{ val }}";
    assert_eq!(render(text, Object::new()), "019");
}

#[test]
fn output_variable() {
    let mut globals = Object::new();
    globals.insert(b"x".to_vec(), int_value(42));
    assert_eq!(render("{{ x }}", globals), "42");
}

#[test]
fn for_loop_with_break() {
    let text = "{%- for o in objs -%}{{ o.i }}{%- if o.i > 2 -%}{%- break -%}{%- endif -%}{%- endfor -%}";
    let mut objs: Vec<Value> = Vec::new();
    for i in 0..5 {
        let mut o = Object::new();
        o.insert(b"i".to_vec(), int_value(i));
        objs.push(Value::Object(o));
    }
    let mut globals = Object::new();
    globals.insert(b"objs".to_vec(), Value::Array(objs));
    assert_eq!(render(text, globals), "0123");
}

#[test]
fn nested_object_lookup() {
    let mut post = Object::new();
    post.insert(b"number".to_vec(), int_value(42));
    let mut globals = Object::new();
    globals.insert(b"post".to_vec(), Value::Object(post));
    assert_eq!(render("{{ post.number }}", globals), "42");
}

#[test]
fn missing_member_renders_empty() {
    let mut post = Object::new();
    post.insert(b"number".to_vec(), int_value(42));
    let mut globals = Object::new();
    globals.insert(b"post".to_vec(), Value::Object(post));
    assert_eq!(render("{{ post.missing }}", globals), "");
}

#[test]
fn unknown_root_errors() {
    let err = parse("{{ nosuchroot }}").render(Object::new()).unwrap_err();
    assert_eq!(err.msg, b"Unknown variable".to_vec());
    assert_eq!(err.context[0].0, b"requested variable".to_vec());
    assert_eq!(err.context[0].1, b"nosuchroot".to_vec());
    assert_eq!(err.context[1].0, b"available variables".to_vec());
    assert_eq!(err.context[1].1, b"".to_vec());
}

#[test]
fn trim_markers_strip_only_whitespace() {
    let text = "-{%- if true -%}-X-{%- endif -%}-";
    assert_eq!(render(text, Object::new()), "--X--");
}

#[test]
fn trim_markers_strip_whitespace() {
    let text = "a \n {{- 1 -}} \n b";
    assert_eq!(render(text, Object::new()), "a1b");
}

#[test]
fn negative_index_past_end_is_empty() {
    let mut globals = Object::new();
    globals.insert(
        b"arr".to_vec(),
        Value::Array(vec![int_value(1), int_value(2), int_value(3)]),
    );
    assert_eq!(render("{{ arr[-99] }}", globals), "");
}

#[test]
fn negative_index_counts_from_end() {
    let mut globals = Object::new();
    globals.insert(
        b"arr".to_vec(),
        Value::Array(vec![int_value(1), int_value(2), int_value(3)]),
    );
    assert_eq!(render("{{ arr[-1] }}{{ arr[2] }}", globals), "33");
}

#[test]
fn pseudo_properties_on_arrays_and_strings() {
    let mut globals = Object::new();
    globals.insert(
        b"arr".to_vec(),
        Value::Array(vec![int_value(7), int_value(8), int_value(9)]),
    );
    globals.insert(b"s".to_vec(), Value::Scalar(Scalar::Str(b"word".to_vec())));
    assert_eq!(
        render("{{ arr.size }} {{ arr.first }} {{ arr.last }} {{ s.size }}", globals),
        "3 7 9 4"
    );
}

#[test]
fn nil_propagates_after_defined_root() {
    let mut post = Object::new();
    post.insert(b"number".to_vec(), int_value(42));
    let mut globals = Object::new();
    globals.insert(b"post".to_vec(), Value::Object(post));
    assert_eq!(render("{{ post.a.b.c }}", globals), "");
}

#[test]
fn else_branch_renders() {
    assert_eq!(render("{% if false %}a{% else %}b{% endif %}", Object::new()), "b");
}

#[test]
fn elsif_chain_renders() {
    let text = "{% if false %}a{% elsif true %}b{% else %}c{% endif %}";
    assert_eq!(render(text, Object::new()), "b");
}

#[test]
fn and_or_precedence() {
    // `and` binds tighter than `or`
    let text = "{% if true or false and false %}yes{% else %}no{% endif %}";
    assert_eq!(render(text, Object::new()), "yes");
}

#[test]
fn contains_on_strings_and_arrays() {
    let mut globals = Object::new();
    globals.insert(b"s".to_vec(), Value::Scalar(Scalar::Str(b"hello world".to_vec())));
    globals.insert(
        b"arr".to_vec(),
        Value::Array(vec![int_value(1), int_value(2)]),
    );
    let text = "{% if s contains 'world' %}s{% endif %}{% if arr contains 2 %}a{% endif %}{% if arr contains 5 %}!{% endif %}";
    assert_eq!(render(text, globals), "sa");
}

#[test]
fn truthiness_follows_the_dialect() {
    // empty string and zero are truthy; nil and false are not
    let mut globals = Object::new();
    globals.insert(b"e".to_vec(), Value::Scalar(Scalar::Str(Vec::new())));
    globals.insert(b"z".to_vec(), int_value(0));
    globals.insert(b"n".to_vec(), Value::Nil);
    let text = "{% if e %}e{% endif %}{% if z %}z{% endif %}{% if n %}n{% endif %}{% if false %}f{% endif %}";
    assert_eq!(render(text, globals), "ez");
}

#[test]
fn empty_literal_queries_values() {
    let mut globals = Object::new();
    globals.insert(b"e".to_vec(), Value::Scalar(Scalar::Str(Vec::new())));
    globals.insert(b"w".to_vec(), Value::Scalar(Scalar::Str(b" ".to_vec())));
    let text = "{% if e == empty %}1{% endif %}{% if w == blank %}2{% endif %}{% if w == empty %}3{% endif %}";
    assert_eq!(render(text, globals), "12");
}

#[test]
fn continue_skips_an_iteration() {
    let text = "{% for x in arr %}{% if x == 2 %}{% continue %}{% endif %}{{ x }}{% endfor %}";
    let mut globals = Object::new();
    globals.insert(
        b"arr".to_vec(),
        Value::Array(vec![int_value(1), int_value(2), int_value(3)]),
    );
    assert_eq!(render(text, globals), "13");
}

#[test]
fn loop_variable_is_scoped() {
    let text = "{% for x in arr %}{{ x }}{% endfor %}{{ x }}";
    let mut globals = Object::new();
    globals.insert(b"arr".to_vec(), Value::Array(vec![int_value(1)]));
    // after the loop the variable is gone: the second output errors
    let err = parse(text).render(globals).unwrap_err();
    assert_eq!(err.msg, b"Unknown variable".to_vec());
    assert_eq!(err.context[0].1, b"x".to_vec());
}

#[test]
fn comparison_of_incomparable_values_errors() {
    let text = "{% if 1 < 'a' %}x{% endif %}";
    let err = parse(text).render(Object::new()).unwrap_err();
    assert_eq!(err.msg, b"Cannot compare values".to_vec());
}

#[test]
fn for_over_a_scalar_errors() {
    let text = "{% for x in 5 %}x{% endfor %}";
    let err = parse(text).render(Object::new()).unwrap_err();
    assert_eq!(err.msg, b"Expected an array".to_vec());
}

#[test]
fn unknown_tag_is_a_parse_error() {
    let err = Parser::new(Language::with_default_tags())
        .parse(&b"{% nosuch %}".to_vec())
        .unwrap_err();
    assert_eq!(err.msg, b"Unknown tag".to_vec());
    assert_eq!(err.context[0].0, b"requested tag".to_vec());
    assert_eq!(err.context[0].1, b"nosuch".to_vec());
}

#[test]
fn unknown_filter_is_a_parse_error() {
    let err = Parser::new(Language::with_default_tags())
        .parse(&b"{{ x | upcase }}".to_vec())
        .unwrap_err();
    assert_eq!(err.msg, b"Unknown filter".to_vec());
    assert_eq!(err.context[0].1, b"upcase".to_vec());
}

#[test]
fn unterminated_markup_is_a_parse_error() {
    let err = Parser::new(Language::with_default_tags()).parse(&b"a {{ x".to_vec()).unwrap_err();
    assert_eq!(err.msg, b"Unterminated markup".to_vec());
}

#[test]
fn unterminated_string_is_a_parse_error() {
    let err = Parser::new(Language::with_default_tags())
        .parse(&b"{{ 'abc }}".to_vec())
        .unwrap_err();
    assert_eq!(err.msg, b"Unterminated string".to_vec());
}

#[test]
fn unterminated_block_is_a_parse_error() {
    let err = Parser::new(Language::with_default_tags())
        .parse(&b"{% if true %}x".to_vec())
        .unwrap_err();
    assert_eq!(err.msg, b"Unterminated block".to_vec());
}

#[test]
fn stray_closer_is_an_unknown_tag() {
    let err = Parser::new(Language::with_default_tags()).parse(&b"{% endif %}".to_vec())
        .unwrap_err();
    assert_eq!(err.msg, b"Unknown tag".to_vec());
    assert_eq!(err.context[0].1, b"endif".to_vec());
}

#[test]
fn float_literal_is_a_parse_error() {
    let err = Parser::new(Language::with_default_tags()).parse(&b"{{ 1.5 }}".to_vec())
        .unwrap_err();
    assert_eq!(err.msg, b"Float literals are not supported".to_vec());
}

#[test]
fn every_float_shape_is_the_same_parse_error() {
    for text in ["{{ 1e5 }}", "{{ 1.5e3 }}", "{{ -2E-4 }}", "{{ nan }}", "{{ inf }}", "{{ -inf }}", "{{ +nan }}"] {
        let err = Parser::new(Language::with_default_tags())
            .parse(&text.as_bytes().to_vec())
            .unwrap_err();
        assert_eq!(err.msg, b"Float literals are not supported".to_vec(), "{}", text);
    }
    // a longer identifier that merely starts like a float word stays a variable
    let err = parse("{{ nano }}").render(Object::new()).unwrap_err();
    assert_eq!(err.msg, b"Unknown variable".to_vec());
    assert_eq!(err.context[0].1, b"nano".to_vec());
}

#[test]
fn missing_tag_argument_is_a_parse_error() {
    let err = Parser::new(Language::with_default_tags())
        .parse(&b"{% increment %}".to_vec())
        .unwrap_err();
    assert_eq!(err.msg, b"Identifier expected.".to_vec());
}

#[test]
fn stray_byte_is_a_parse_error() {
    let err = Parser::new(Language::with_default_tags()).parse(&b"{{ ] }}".to_vec()).unwrap_err();
    assert_eq!(err.msg, b"Unexpected token".to_vec());
}

#[test]
fn rendering_is_repeatable() {
    let template = parse("{% increment v %}{{ v }}");
    let a = template.render(Object::new()).unwrap();
    let b = template.render(Object::new()).unwrap();
    assert_eq!(a, b);
    assert_eq!(a, b"01".to_vec());
}

#[test]
fn string_index_into_object() {
    let mut post = Object::new();
    post.insert(b"number".to_vec(), int_value(42));
    let mut globals = Object::new();
    globals.insert(b"post".to_vec(), Value::Object(post));
    assert_eq!(render("{{ post['number'] }}", globals), "42");
}

#[test]
fn text_only_template_passes_through() {
    assert_eq!(render("plain text", Object::new()), "plain text");
}

#[test]
fn increment_tag_parse_api() {
    let tag = liquid::tags::IncrementTag::new();
    assert_eq!(tag.tag(), "increment");
    assert_eq!(tag.description(), "");
    let node = tag.parse(&b" val ".to_vec()).unwrap();
    assert!(matches!(node, liquid::ast::Node::Increment(v) if v == b"val".to_vec()));
    assert!(tag.parse(&b"a b".to_vec()).is_err());
}

#[test]
fn decrement_tag_parse_api() {
    let tag = liquid::tags::DecrementTag::new();
    assert_eq!(tag.tag(), "decrement");
    let node = tag.parse(&b"v".to_vec()).unwrap();
    assert!(matches!(node, liquid::ast::Node::Decrement(v) if v == b"v".to_vec()));
}

#[test]
fn stack_depth_is_balanced_after_success_and_error() {
    let mut globals = Object::new();
    globals.insert(b"arr".to_vec(), Value::Array(vec![int_value(1), int_value(2)]));
    let mut rt = liquid::runtime::Runtime {
        stack: liquid::stack::Stack::with_globals(globals),
        partials: liquid::runtime::Partials::new(),
        registers: Object::new(),
        interrupt: liquid::runtime::InterruptState::new(),
    };
    let mut out: Vec<u8> = Vec::new();
    // success: the loop pushes and pops a scope
    let ok = parse("{% for x in arr %}{{ x }}{% endfor %}");
    assert!(ok.render_to(&mut out, &mut rt).is_ok());
    assert_eq!(rt.stack.frames.len(), 1);
    // error inside the loop body: the scope still closes
    let bad = parse("{% for x in arr %}{{ nosuch }}{% endfor %}");
    assert!(bad.render_to(&mut out, &mut rt).is_err());
    assert_eq!(rt.stack.frames.len(), 1);
}
