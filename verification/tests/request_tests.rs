use route_dispatch::request::{
    parse_fields, parse_path, Field, Method, Pair, Piece, RequestContext,
};
use route_dispatch::value::{coerce, BaseType, Value};

fn piece(raw: &str, decoded: Option<&str>) -> Piece {
    Piece::from_parts(raw.to_string(), decoded.map(|d| d.to_string()))
}

#[test]
fn a_piece_holds_its_text_and_what_decoding_makes_of_it() {
    assert_eq!(Piece::value("abc"), piece("abc", Some("abc")));
    assert_eq!(Piece::value("Hello%2C+world%21"), piece("Hello%2C+world%21", Some("Hello, world!")));
    assert_eq!(Piece::value("%e4%b8%ad%e6%96%87"), piece("%e4%b8%ad%e6%96%87", Some("中文")));
    assert_eq!(Piece::value(""), piece("", Some("")));
    assert_eq!(Piece::segment("abc"), piece("abc", Some("abc")));
    assert_eq!(Piece::segment("Hello%2C%20world%21"), piece("Hello%2C%20world%21", Some("Hello, world!")));
    assert_eq!(Piece::segment("%e4%b8%ad%e6%96%87"), piece("%e4%b8%ad%e6%96%87", Some("中文")));
    assert_eq!(Piece::segment(""), piece("", Some("")));
}

#[test]
fn a_plus_is_a_space_in_a_value_and_a_plus_in_a_segment() {
    assert_eq!(Piece::value("a+b"), piece("a+b", Some("a b")));
    assert_eq!(Piece::segment("a+b"), piece("a+b", Some("a+b")));
    assert_eq!(Piece::value("a%2Bb"), piece("a%2Bb", Some("a+b")));
    assert_eq!(Piece::segment("a%2Bb"), piece("a%2Bb", Some("a+b")));
    let ctx = RequestContext::new(Method::Get, "/a+b?k=c+d");
    assert_eq!(ctx.path, vec![piece("a+b", Some("a+b"))]);
    assert_eq!(ctx.query[0].value, piece("c+d", Some("c d")));
}

#[test]
fn a_piece_that_is_not_utf8_has_no_decoding() {
    assert_eq!(Piece::value("%FF"), piece("%FF", None));
    assert_eq!(Piece::value("a%C3"), piece("a%C3", None));
    assert_eq!(Piece::segment("%FF"), piece("%FF", None));
    assert_eq!(Piece::segment("a%C3"), piece("a%C3", None));
}

#[test]
fn parse_path_skips_empty_segments() {
    assert_eq!(parse_path("/a/b"), vec![Piece::segment("a"), Piece::segment("b")]);
    assert_eq!(parse_path("//a///b/"), vec![Piece::segment("a"), Piece::segment("b")]);
    assert_eq!(parse_path("/"), Vec::<Piece>::new());
    assert_eq!(parse_path("/a%20b"), vec![piece("a%20b", Some("a b"))]);
}

#[test]
fn a_field_is_split_at_the_first_equals_sign() {
    assert_eq!(
        Field::parse("name=x"),
        Field::from_parts("name".to_string(), piece("x", Some("x")))
    );
    assert_eq!(
        Field::parse("a=b=c"),
        Field::from_parts("a".to_string(), piece("b=c", Some("b=c")))
    );
    assert_eq!(Field::parse("flag"), Field::from_parts("flag".to_string(), piece("", Some(""))));
    assert_eq!(Field::parse("flag="), Field::from_parts("flag".to_string(), piece("", Some(""))));
    assert_eq!(Field::parse("=v"), Field::from_parts("".to_string(), piece("v", Some("v"))));
}

#[test]
fn parse_fields_takes_the_items_between_ampersands() {
    let fields = parse_fields("flag&name=x&&n=1+2");
    assert_eq!(
        fields,
        vec![
            Field::parse("flag"),
            Field::parse("name=x"),
            Field::from_parts("n".to_string(), piece("1+2", Some("1 2"))),
        ]
    );
    assert_eq!(parse_fields(""), Vec::<Field>::new());
}

#[test]
fn a_request_is_read_from_its_target() {
    let ctx = RequestContext::new(Method::Get, "/items/5?flag&name=x");
    assert_eq!(ctx.method, Method::Get);
    assert_eq!(ctx.path, vec![Piece::segment("items"), Piece::segment("5")]);
    assert_eq!(ctx.query, vec![Field::parse("flag"), Field::parse("name=x")]);
    assert!(ctx.headers.is_empty());
    assert!(ctx.cookies.is_empty());
    assert_eq!(ctx.body, "");
}

#[test]
fn a_target_without_a_question_mark_has_no_query() {
    let ctx = RequestContext::new(Method::Post, "/a");
    assert_eq!(ctx.path, vec![Piece::segment("a")]);
    assert!(ctx.query.is_empty());
    let only_mark = RequestContext::new(Method::Post, "/a?");
    assert!(only_mark.query.is_empty());
}

#[test]
fn only_the_first_question_mark_parts_path_and_query() {
    let ctx = RequestContext::new(Method::Get, "/a?x=1?2");
    assert_eq!(ctx.path, vec![Piece::segment("a")]);
    assert_eq!(ctx.query, vec![Field::parse("x=1?2")]);
}

#[test]
fn headers_cookies_and_body_are_added_in_order() {
    let ctx = RequestContext::new(Method::Get, "/")
        .with_header("A", "1")
        .with_header("B", "2")
        .with_cookie("c", "3")
        .with_body("x=y");
    assert_eq!(ctx.headers, vec![Pair::new("A", "1"), Pair::new("B", "2")]);
    assert_eq!(ctx.cookies, vec![Pair::new("c", "3")]);
    assert_eq!(ctx.body, "x=y");
}

#[test]
fn coerce_reads_each_base_type() {
    assert_eq!(coerce(BaseType::Text, "abc"), Some(Value::Text("abc".to_string())));
    assert_eq!(coerce(BaseType::Text, ""), Some(Value::Text(String::new())));
    assert_eq!(coerce(BaseType::Bool, "true"), Some(Value::Bool(true)));
    assert_eq!(coerce(BaseType::Bool, "false"), Some(Value::Bool(false)));
    assert_eq!(coerce(BaseType::U8, "255"), Some(Value::UInt(255)));
    assert_eq!(coerce(BaseType::U64, "18446744073709551615"), Some(Value::UInt(u64::MAX)));
    assert_eq!(coerce(BaseType::I32, "-2147483648"), Some(Value::Int(-2147483648)));
    assert_eq!(coerce(BaseType::I32, "2147483647"), Some(Value::Int(2147483647)));
    assert_eq!(coerce(BaseType::I64, "-9223372036854775808"), Some(Value::Int(i64::MIN)));
}

#[test]
fn coerce_rejects_what_is_not_of_the_type() {
    assert_eq!(coerce(BaseType::Bool, "True"), None);
    assert_eq!(coerce(BaseType::Bool, "1"), None);
    assert_eq!(coerce(BaseType::Bool, ""), None);
    assert_eq!(coerce(BaseType::U8, "256"), None);
    assert_eq!(coerce(BaseType::U8, "-1"), None);
    assert_eq!(coerce(BaseType::U64, "18446744073709551616"), None);
    assert_eq!(coerce(BaseType::I32, "2147483648"), None);
    assert_eq!(coerce(BaseType::I32, "-2147483649"), None);
    assert_eq!(coerce(BaseType::I64, "abc"), None);
}

#[test]
fn coerce_reads_a_raw_text_as_itself() {
    assert_eq!(coerce(BaseType::Raw, "a%20b"), Some(Value::Text("a%20b".to_string())));
    assert_eq!(coerce(BaseType::Raw, ""), Some(Value::Text(String::new())));
}
