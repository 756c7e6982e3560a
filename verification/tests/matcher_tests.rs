use route_dispatch::form::{Entry, FieldSpec};
use route_dispatch::matcher::{
    bind, bind_path, bind_query, bind_query_param, bind_segment, capture, unclaimed, BoundValue,
    BoundValues, QueryParam, QuerySpec,
};
use route_dispatch::pattern::PathPattern;
use route_dispatch::request::{parse_fields, parse_path, Field, Method, Piece, RequestContext};
use route_dispatch::value::{BaseType, Mode, ParamType, Value};

fn text(s: &str) -> Value {
    Value::Text(s.to_string())
}

fn pattern(template: &str) -> PathPattern {
    PathPattern::parse(template).unwrap()
}

#[test]
fn a_strict_segment_binds_or_mismatches() {
    let ty = ParamType::new(BaseType::I64, Mode::Strict);
    assert_eq!(bind_segment(ty, &Piece::segment("42")), BoundValue::Bound(Value::Int(42)));
    assert_eq!(bind_segment(ty, &Piece::segment("abc")), BoundValue::TypeMismatch("abc".to_string()));
}

#[test]
fn an_optional_segment_binds_to_the_empty_value_on_bad_input() {
    let ty = ParamType::new(BaseType::I64, Mode::Optional);
    assert_eq!(bind_segment(ty, &Piece::segment("42")), BoundValue::Bound(Value::Int(42)));
    assert_eq!(bind_segment(ty, &Piece::segment("abc")), BoundValue::Bound(Value::Empty));
}

#[test]
fn a_fallible_segment_carries_the_text_as_received() {
    let ty = ParamType::new(BaseType::I32, Mode::Fallible);
    assert_eq!(bind_segment(ty, &Piece::segment("7")), BoundValue::Bound(Value::Int(7)));
    assert_eq!(
        bind_segment(ty, &Piece::segment("a%20b")),
        BoundValue::Bound(Value::Rejected("a%20b".to_string()))
    );
}

#[test]
fn a_segment_is_decoded_before_it_is_read() {
    let number = ParamType::new(BaseType::I64, Mode::Strict);
    assert_eq!(bind_segment(number, &Piece::segment("%34%32")), BoundValue::Bound(Value::Int(42)));
    let words = ParamType::new(BaseType::Text, Mode::Strict);
    assert_eq!(bind_segment(words, &Piece::segment("a%20b")), BoundValue::Bound(text("a b")));
    assert_eq!(bind_segment(words, &Piece::segment("%FF")), BoundValue::TypeMismatch("%FF".to_string()));
}

#[test]
fn bind_segment_goes_by_the_decoding_that_it_is_given() {
    let ty = ParamType::new(BaseType::U8, Mode::Strict);
    let given = Piece::from_parts("raw".to_string(), Some("9".to_string()));
    assert_eq!(bind_segment(ty, &given), BoundValue::Bound(Value::UInt(9)));
    let none = Piece::from_parts("9".to_string(), None);
    assert_eq!(bind_segment(ty, &none), BoundValue::TypeMismatch("9".to_string()));
}

#[test]
fn capture_joins_the_decoded_segments() {
    assert_eq!(capture(&parse_path("/files/a/b"), 1), Some("a/b".to_string()));
    assert_eq!(capture(&parse_path("/files/a%20b/c"), 1), Some("a b/c".to_string()));
    assert_eq!(capture(&parse_path("/files"), 1), Some(String::new()));
    assert_eq!(capture(&parse_path("/a/b/c"), 0), Some("a/b/c".to_string()));
}

#[test]
fn capture_leaves_out_dot_segments() {
    assert_eq!(capture(&parse_path("/files/./a/./b/."), 1), Some("a/b".to_string()));
    assert_eq!(capture(&parse_path("/files/%2E/a"), 1), Some("a".to_string()));
}

#[test]
fn capture_rejects_traversal() {
    assert_eq!(capture(&parse_path("/files/../etc/passwd"), 1), None);
    assert_eq!(capture(&parse_path("/files/a/.."), 1), None);
    assert_eq!(capture(&parse_path("/files/%2E%2E/etc"), 1), None);
    assert_eq!(capture(&parse_path("/files/..%2Fetc"), 1), None);
    assert_eq!(capture(&parse_path("/files/a%2Fb"), 1), None);
    assert_eq!(capture(&parse_path("/files/%FF"), 1), None);
}

#[test]
fn capture_takes_names_that_only_begin_with_dots() {
    assert_eq!(capture(&parse_path("/files/..a/...b"), 1), Some("..a/...b".to_string()));
}

#[test]
fn bind_path_gives_one_value_for_each_parameter() {
    let p = pattern("/u/<name>/<age:u8>/<cool:bool>");
    assert_eq!(
        bind_path(&p, &parse_path("/u/ann/30/true")),
        Some(vec![text("ann"), Value::UInt(30), Value::Bool(true)])
    );
    assert_eq!(bind_path(&p, &parse_path("/u/ann/300/true")), None);
    assert_eq!(bind_path(&p, &parse_path("/u/ann/30/yes")), None);
    assert_eq!(bind_path(&pattern("/a/b"), &parse_path("/a/b")), Some(Vec::new()));
}

#[test]
fn bind_path_captures_the_remainder() {
    let p = pattern("/files/<rest..>");
    assert_eq!(bind_path(&p, &parse_path("/files/a/b")), Some(vec![text("a/b")]));
    assert_eq!(bind_path(&p, &parse_path("/files")), Some(vec![text("")]));
    assert_eq!(bind_path(&p, &parse_path("/files/../etc/passwd")), None);
}

#[test]
fn a_flag_is_bound_by_any_occurrence_of_its_key() {
    let flag = QueryParam::Flag("flag".to_string());
    assert_eq!(bind_query_param(&flag, &parse_fields("flag&name=x")), BoundValue::Bound(Value::Empty));
    assert_eq!(bind_query_param(&flag, &parse_fields("flag=1&name=x")), BoundValue::Bound(Value::Empty));
    assert_eq!(bind_query_param(&flag, &parse_fields("name=x&flag=0")), BoundValue::Bound(Value::Empty));
    assert_eq!(bind_query_param(&flag, &parse_fields("name=x")), BoundValue::Missing);
    assert_eq!(bind_query_param(&flag, &parse_fields("flags")), BoundValue::Missing);
}

#[test]
fn a_required_parameter_must_be_present_and_of_its_type() {
    let id = QueryParam::Typed("id".to_string(), BaseType::U64, true);
    assert_eq!(bind_query_param(&id, &parse_fields("id=7")), BoundValue::Bound(Value::UInt(7)));
    assert_eq!(bind_query_param(&id, &parse_fields("x=7")), BoundValue::Missing);
    assert_eq!(
        bind_query_param(&id, &parse_fields("id=seven")),
        BoundValue::TypeMismatch("seven".to_string())
    );
    assert_eq!(bind_query_param(&id, &parse_fields("id")), BoundValue::TypeMismatch(String::new()));
}

#[test]
fn an_optional_parameter_may_be_absent_but_not_malformed() {
    let id = QueryParam::Typed("id".to_string(), BaseType::U64, false);
    assert_eq!(bind_query_param(&id, &parse_fields("")), BoundValue::Bound(Value::Empty));
    assert_eq!(bind_query_param(&id, &parse_fields("id=7")), BoundValue::Bound(Value::UInt(7)));
    assert_eq!(
        bind_query_param(&id, &parse_fields("id=x")),
        BoundValue::TypeMismatch("x".to_string())
    );
}

#[test]
fn the_first_field_of_a_key_is_the_one_that_counts() {
    let id = QueryParam::Typed("id".to_string(), BaseType::U64, true);
    assert_eq!(bind_query_param(&id, &parse_fields("id=1&id=x")), BoundValue::Bound(Value::UInt(1)));
    assert_eq!(
        bind_query_param(&id, &parse_fields("id=x&id=1")),
        BoundValue::TypeMismatch("x".to_string())
    );
}

#[test]
fn bind_query_gives_values_for_typed_parameters_only() {
    let spec = QuerySpec::none().flag("wave").typed("name", BaseType::Text, true);
    assert_eq!(bind_query(&spec.params, &parse_fields("wave&name=x")), Some(vec![text("x")]));
    assert_eq!(bind_query(&spec.params, &parse_fields("name=x")), None);
    assert_eq!(bind_query(&spec.params, &parse_fields("wave")), None);
    assert_eq!(bind_query(&Vec::new(), &parse_fields("anything=1")), Some(Vec::new()));
}

#[test]
fn unclaimed_fields_are_those_that_no_parameter_names() {
    let spec = QuerySpec::none().flag("f").typed("id", BaseType::U64, true);
    let query = parse_fields("name=ann&id=1&f&account=10&id=2");
    assert_eq!(
        unclaimed(&query, &spec.params),
        vec![Field::parse("name=ann"), Field::parse("account=10")]
    );
}

#[test]
fn bind_forwards_where_the_shape_does_not_fit() {
    let ctx = RequestContext::new(Method::Get, "/items/5/6");
    assert_eq!(bind(&pattern("/items/<id:int>"), &QuerySpec::none(), &ctx), None);
}

#[test]
fn bind_gathers_path_query_and_bundle() {
    let schema = vec![
        FieldSpec::new("name", BaseType::Text),
        FieldSpec::new("account", BaseType::U64),
    ];
    let spec = QuerySpec::none().typed("id", BaseType::U64, true).bundle(schema);
    let p = pattern("/q/<kind>");
    let ctx = RequestContext::new(Method::Get, "/q/user?name=xiaoming&account=10&id=1");
    assert_eq!(
        bind(&p, &spec, &ctx),
        Some(BoundValues {
            path: vec![text("user")],
            query: vec![Value::UInt(1)],
            bundle: Some(vec![
                Entry { name: "name".to_string(), value: text("xiaoming") },
                Entry { name: "account".to_string(), value: Value::UInt(10) },
            ]),
        })
    );
}

#[test]
fn a_bundle_is_decoded_strictly() {
    let schema = vec![FieldSpec::new("name", BaseType::Text)];
    let spec = QuerySpec::none().typed("id", BaseType::U64, true).bundle(schema);
    let p = pattern("/q");
    let extra = RequestContext::new(Method::Get, "/q?id=1&name=a&other=b");
    assert_eq!(bind(&p, &spec, &extra), None);
    let missing = RequestContext::new(Method::Get, "/q?id=1");
    assert_eq!(bind(&p, &spec, &missing), None);
    let fine = RequestContext::new(Method::Get, "/q?id=1&name=a");
    assert!(bind(&p, &spec, &fine).is_some());
}

#[test]
fn without_a_bundle_unclaimed_keys_are_let_be() {
    let spec = QuerySpec::none().typed("id", BaseType::U64, true);
    let ctx = RequestContext::new(Method::Get, "/q?id=1&other=b");
    assert_eq!(
        bind(&pattern("/q"), &spec, &ctx),
        Some(BoundValues { path: Vec::new(), query: vec![Value::UInt(1)], bundle: None })
    );
}

#[test]
fn a_capture_from_beyond_the_path_is_empty() {
    assert_eq!(capture(&parse_path("/files"), 2), Some(String::new()));
    assert_eq!(capture(&parse_path("/files/%FF"), 3), Some(String::new()));
    assert_eq!(capture(&parse_path("/"), usize::MAX), Some(String::new()));
}

#[test]
fn a_plus_in_a_path_segment_stays_a_plus() {
    let words = ParamType::new(BaseType::Text, Mode::Strict);
    assert_eq!(bind_segment(words, &Piece::segment("a+b")), BoundValue::Bound(text("a+b")));
    assert_eq!(capture(&parse_path("/files/a+b/c"), 1), Some("a+b/c".to_string()));
    assert_eq!(
        bind_path(&pattern("/files/<name>"), &parse_path("/files/1+1")),
        Some(vec![text("1+1")])
    );
}

#[test]
fn a_plus_in_a_query_value_is_a_space() {
    let q = parse_fields("name=a+b");
    assert_eq!(
        bind_query_param(&QueryParam::Typed("name".to_string(), BaseType::Text, true), &q),
        BoundValue::Bound(text("a b"))
    );
}

#[test]
fn a_raw_segment_is_bound_as_it_was_received() {
    let raw = ParamType::new(BaseType::Raw, Mode::Strict);
    assert_eq!(bind_segment(raw, &Piece::segment("a%20b")), BoundValue::Bound(text("a%20b")));
    assert_eq!(bind_segment(raw, &Piece::segment("%FF")), BoundValue::Bound(text("%FF")));
    assert_eq!(
        bind_path(&pattern("/files/<name:raw>"), &parse_path("/files/a+b")),
        Some(vec![text("a+b")])
    );
}
