use route_dispatch::pattern::{
    read_segment, InvalidPattern, PathPattern, PatternBuilder, Segment,
};
use route_dispatch::request::parse_path;
use route_dispatch::value::{BaseType, Mode, ParamType};

fn strict(base: BaseType) -> ParamType {
    ParamType::new(base, Mode::Strict)
}

#[test]
fn parse_reads_literals_and_parameters() {
    let p = PathPattern::parse("/items/<id:int>/<name>").unwrap();
    assert_eq!(
        p.segments(),
        &vec![
            Segment::Static("items".to_string()),
            Segment::Dynamic("id".to_string(), strict(BaseType::I64)),
            Segment::Dynamic("name".to_string(), strict(BaseType::Text)),
        ]
    );
}

#[test]
fn parse_reads_every_type_name() {
    let p = PathPattern::parse("/<a:string>/<b:bool>/<c:u8>/<d:uint>/<e:i32>/<f:int>").unwrap();
    let bases: Vec<BaseType> = p
        .segments()
        .iter()
        .map(|s| match s {
            Segment::Dynamic(_, ty) => ty.base,
            _ => panic!("a parameter was expected"),
        })
        .collect();
    assert_eq!(
        bases,
        vec![
            BaseType::Text,
            BaseType::Bool,
            BaseType::U8,
            BaseType::U64,
            BaseType::I32,
            BaseType::I64
        ]
    );
}

#[test]
fn parse_reads_the_failure_tolerant_types() {
    let p = PathPattern::parse("/items/<id:optional-int>/<n:result-i32>").unwrap();
    assert_eq!(
        p.segments()[1],
        Segment::Dynamic("id".to_string(), ParamType::new(BaseType::I64, Mode::Optional))
    );
    assert_eq!(
        p.segments()[2],
        Segment::Dynamic("n".to_string(), ParamType::new(BaseType::I32, Mode::Fallible))
    );
    assert!(ParamType::new(BaseType::I64, Mode::Optional).is_tolerant());
    assert!(ParamType::new(BaseType::I64, Mode::Fallible).is_tolerant());
    assert!(!ParamType::new(BaseType::I64, Mode::Strict).is_tolerant());
}

#[test]
fn parse_reads_a_multi_segment_parameter_at_the_end() {
    let p = PathPattern::parse("/files/<rest..>").unwrap();
    assert_eq!(
        p.segments(),
        &vec![Segment::Static("files".to_string()), Segment::Multi("rest".to_string())]
    );
    assert!(p.ends_in_multi());
    assert!(!PathPattern::parse("/files/<rest>").unwrap().ends_in_multi());
}

#[test]
fn parse_of_the_root_has_no_segments() {
    assert_eq!(PathPattern::parse("/").unwrap().segments().len(), 0);
    assert_eq!(PathPattern::parse("").unwrap().segments().len(), 0);
}

#[test]
fn parse_rejects_a_multi_segment_that_is_not_last() {
    assert_eq!(
        PathPattern::parse("/files/<rest..>/tail").unwrap_err(),
        InvalidPattern::MisplacedMultiSegment
    );
}

#[test]
fn parse_rejects_two_multi_segments() {
    assert_eq!(
        PathPattern::parse("/<a..>/<b..>").unwrap_err(),
        InvalidPattern::MisplacedMultiSegment
    );
}

#[test]
fn parse_rejects_malformed_segments() {
    for template in [
        "/<>",
        "/<a",
        "/a>",
        "/x<y>",
        "/<a:float>",
        "/<a:>",
        "/<:int>",
        "/<a b>",
        "/<..>",
        "/<a:optional->",
        "/<a:optional-optional-int>",
    ] {
        assert_eq!(
            PathPattern::parse(template).unwrap_err(),
            InvalidPattern::MalformedSegment,
            "{}",
            template
        );
    }
}

#[test]
fn the_first_piece_at_fault_decides_the_error() {
    assert_eq!(
        PathPattern::parse("/<a..>/<b").unwrap_err(),
        InvalidPattern::MalformedSegment
    );
    assert_eq!(
        PathPattern::parse("/<a..>/b/<c").unwrap_err(),
        InvalidPattern::MisplacedMultiSegment
    );
}

#[test]
fn read_segment_reads_one_piece() {
    assert_eq!(read_segment("items"), Some(Segment::Static("items".to_string())));
    assert_eq!(read_segment("<x..>"), Some(Segment::Multi("x".to_string())));
    assert_eq!(read_segment("<x"), None);
}

#[test]
fn match_shape_wants_literals_in_place_and_the_same_count() {
    let p = PathPattern::parse("/items/<id:int>").unwrap();
    assert!(p.match_shape(&parse_path("/items/5")));
    assert!(p.match_shape(&parse_path("/items/abc")));
    assert!(!p.match_shape(&parse_path("/item/5")));
    assert!(!p.match_shape(&parse_path("/items")));
    assert!(!p.match_shape(&parse_path("/items/5/6")));
}

#[test]
fn match_shape_with_a_multi_segment_takes_any_longer_path() {
    let p = PathPattern::parse("/files/<rest..>").unwrap();
    assert!(p.match_shape(&parse_path("/files")));
    assert!(p.match_shape(&parse_path("/files/a")));
    assert!(p.match_shape(&parse_path("/files/a/b/c")));
    assert!(!p.match_shape(&parse_path("/file/a")));
    assert!(!p.match_shape(&parse_path("/")));
}

#[test]
fn match_shape_of_the_root() {
    let p = PathPattern::parse("/").unwrap();
    assert!(p.match_shape(&parse_path("/")));
    assert!(!p.match_shape(&parse_path("/a")));
}

#[test]
fn same_shape_ignores_names_and_types() {
    let a = PathPattern::parse("/items/<id:int>").unwrap();
    let b = PathPattern::parse("/items/<name>").unwrap();
    let c = PathPattern::parse("/items/<rest..>").unwrap();
    let d = PathPattern::parse("/things/<id:int>").unwrap();
    assert!(a.same_shape(&b));
    assert!(!a.same_shape(&c));
    assert!(!a.same_shape(&d));
    assert!(!a.same_shape(&PathPattern::parse("/items").unwrap()));
}

#[test]
fn default_rank_is_parameters_less_literals() {
    assert_eq!(PathPattern::parse("/").unwrap().default_rank(), 0);
    assert_eq!(PathPattern::parse("/a/b/c").unwrap().default_rank(), -3);
    assert_eq!(PathPattern::parse("/a/b/<c>").unwrap().default_rank(), -1);
    assert_eq!(PathPattern::parse("/a/<b>/<c>").unwrap().default_rank(), 1);
    assert_eq!(PathPattern::parse("/<a>/<b..>").unwrap().default_rank(), 2);
}

#[test]
fn a_more_specific_pattern_has_the_lower_default_rank() {
    let specific = PathPattern::parse("/files/readme").unwrap().default_rank();
    let single = PathPattern::parse("/files/<name>").unwrap().default_rank();
    let open = PathPattern::parse("/<dir>/<name>").unwrap().default_rank();
    assert!(specific < single);
    assert!(single < open);
}

#[test]
fn a_builder_makes_the_pattern_of_its_segments() {
    let built = PatternBuilder::new()
        .literal("items")
        .param("id", strict(BaseType::I64))
        .param("name", strict(BaseType::Text))
        .end();
    assert_eq!(built, PathPattern::parse("/items/<id:int>/<name>").unwrap());
    assert_eq!(PatternBuilder::new().end(), PathPattern::parse("/").unwrap());
    assert_eq!(PatternBuilder::new().end().segments().len(), 0);
}

#[test]
fn a_builder_ends_a_pattern_with_a_multi_segment_parameter() {
    let built = PatternBuilder::new().literal("files").rest("path");
    assert_eq!(built, PathPattern::parse("/files/<path..>").unwrap());
    assert!(built.ends_in_multi());
    assert_eq!(
        built.segments(),
        &vec![Segment::Static("files".to_string()), Segment::Multi("path".to_string())]
    );
    assert!(!PatternBuilder::new().literal("files").end().ends_in_multi());
}

#[test]
fn parse_reads_the_raw_type() {
    let p = PathPattern::parse("/rank/<id:raw>").unwrap();
    assert_eq!(
        p,
        PatternBuilder::new().literal("rank").param("id", strict(BaseType::Raw)).end()
    );
    let q = PathPattern::parse("/rank/<id:optional-raw>").unwrap();
    assert_eq!(
        q.segments()[1],
        Segment::Dynamic("id".to_string(), ParamType::new(BaseType::Raw, Mode::Optional))
    );
}
