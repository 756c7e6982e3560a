use route_dispatch::form::{
    decode, decode_text, read_field, DecodeError, Entry, FieldSpec, Policy,
};
use route_dispatch::request::{parse_fields, Field, Piece};
use route_dispatch::value::{BaseType, Value};

fn task_schema() -> Vec<FieldSpec> {
    vec![
        FieldSpec::new("complete", BaseType::Bool),
        FieldSpec::new("description", BaseType::Text),
    ]
}

fn entry(name: &str, value: Value) -> Entry {
    Entry { name: name.to_string(), value }
}

#[test]
fn strict_decodes_a_body_of_exactly_the_schema_fields() {
    let got = decode_text("complete=true&description=write+tests", &task_schema(), Policy::Strict);
    assert_eq!(
        got,
        Ok(vec![
            entry("complete", Value::Bool(true)),
            entry("description", Value::Text("write tests".to_string())),
        ])
    );
}

#[test]
fn the_record_is_in_schema_order_whatever_the_order_of_the_input() {
    let got = decode_text("description=d&complete=false", &task_schema(), Policy::Lenient);
    assert_eq!(
        got,
        Ok(vec![
            entry("complete", Value::Bool(false)),
            entry("description", Value::Text("d".to_string())),
        ])
    );
}

#[test]
fn strict_rejects_an_extra_field() {
    let got = decode_text("a=1&complete=true&description=d", &task_schema(), Policy::Strict);
    assert_eq!(got, Err(DecodeError::UnknownField("a".to_string())));
}

#[test]
fn lenient_ignores_an_extra_field() {
    let schema = task_schema();
    let with_extra = decode_text("a=1&complete=true&description=d", &schema, Policy::Lenient);
    let without = decode_text("complete=true&description=d", &schema, Policy::Strict);
    assert!(with_extra.is_ok());
    assert_eq!(with_extra, without);
}

#[test]
fn both_policies_want_every_schema_field() {
    let schema = task_schema();
    let missing = Err(DecodeError::MissingField("complete".to_string()));
    assert_eq!(decode_text("description=d", &schema, Policy::Strict), missing);
    assert_eq!(decode_text("description=d", &schema, Policy::Lenient), missing);
    assert_eq!(
        decode_text("", &schema, Policy::Lenient),
        Err(DecodeError::MissingField("complete".to_string()))
    );
    assert_eq!(
        decode_text("complete=true", &schema, Policy::Strict),
        Err(DecodeError::MissingField("description".to_string()))
    );
}

#[test]
fn lenient_still_wants_every_field_when_it_ignores_another() {
    assert_eq!(
        decode_text("a=1&description=d", &task_schema(), Policy::Lenient),
        Err(DecodeError::MissingField("complete".to_string()))
    );
}

#[test]
fn both_policies_reject_a_value_that_is_not_of_its_type() {
    let schema = task_schema();
    let mismatch = Err(DecodeError::TypeMismatch("complete".to_string()));
    assert_eq!(decode_text("complete=1&description=d", &schema, Policy::Strict), mismatch);
    assert_eq!(decode_text("complete=1&description=d", &schema, Policy::Lenient), mismatch);
}

#[test]
fn a_field_given_twice_is_rejected_under_both_policies() {
    let schema = task_schema();
    let twice = "complete=true&complete=true&description=d";
    assert_eq!(
        decode_text(twice, &schema, Policy::Strict),
        Err(DecodeError::TypeMismatch("complete".to_string()))
    );
    assert_eq!(
        decode_text(twice, &schema, Policy::Lenient),
        Err(DecodeError::TypeMismatch("complete".to_string()))
    );
}

#[test]
fn the_first_input_field_at_fault_decides_the_error() {
    let schema = task_schema();
    assert_eq!(
        decode_text("complete=x&zzz=1", &schema, Policy::Strict),
        Err(DecodeError::TypeMismatch("complete".to_string()))
    );
    assert_eq!(
        decode_text("zzz=1&complete=x", &schema, Policy::Strict),
        Err(DecodeError::UnknownField("zzz".to_string()))
    );
}

#[test]
fn a_renamed_field_is_matched_by_its_alias() {
    let schema = vec![FieldSpec::renamed("done", "complete", BaseType::Bool)];
    assert_eq!(
        decode_text("complete=true", &schema, Policy::Strict),
        Ok(vec![entry("done", Value::Bool(true))])
    );
    assert_eq!(
        decode_text("done=true", &schema, Policy::Strict),
        Err(DecodeError::UnknownField("done".to_string()))
    );
    assert_eq!(
        decode_text("done=true", &schema, Policy::Lenient),
        Err(DecodeError::MissingField("complete".to_string()))
    );
    assert_eq!(schema[0].wire_name(), "complete");
    assert_eq!(FieldSpec::new("a", BaseType::Text).wire_name(), "a");
}

#[test]
fn values_are_url_decoded_before_they_are_read() {
    let schema = vec![
        FieldSpec::new("n", BaseType::I32),
        FieldSpec::new("s", BaseType::Text),
    ];
    assert_eq!(
        decode_text("n=%2D12&s=%E4%B8%AD%E6%96%87+a%21", &schema, Policy::Strict),
        Ok(vec![
            entry("n", Value::Int(-12)),
            entry("s", Value::Text("中文 a!".to_string())),
        ])
    );
}

#[test]
fn a_value_that_cannot_be_decoded_is_a_type_mismatch() {
    let schema = vec![FieldSpec::new("s", BaseType::Text)];
    assert_eq!(
        decode_text("s=%FF", &schema, Policy::Strict),
        Err(DecodeError::TypeMismatch("s".to_string()))
    );
}

#[test]
fn decode_takes_the_decoded_value_as_it_is_given() {
    let schema = vec![FieldSpec::new("n", BaseType::U8)];
    let given = vec![Field::from_parts(
        "n".to_string(),
        Piece::from_parts("raw".to_string(), Some("7".to_string())),
    )];
    assert_eq!(decode(&given, &schema, Policy::Strict), Ok(vec![entry("n", Value::UInt(7))]));
    let undecodable =
        vec![Field::from_parts("n".to_string(), Piece::from_parts("7".to_string(), None))];
    assert_eq!(
        decode(&undecodable, &schema, Policy::Strict),
        Err(DecodeError::TypeMismatch("n".to_string()))
    );
}

#[test]
fn an_empty_schema_takes_the_empty_input() {
    let schema: Vec<FieldSpec> = Vec::new();
    assert_eq!(decode_text("", &schema, Policy::Strict), Ok(Vec::new()));
    assert_eq!(decode_text("a=1", &schema, Policy::Lenient), Ok(Vec::new()));
    assert_eq!(
        decode_text("a=1", &schema, Policy::Strict),
        Err(DecodeError::UnknownField("a".to_string()))
    );
}

#[test]
fn policies_agree_where_every_key_is_known() {
    let schema = task_schema();
    for body in [
        "complete=true&description=d",
        "description=d",
        "complete=maybe&description=d",
        "complete=true&complete=false",
        "",
    ] {
        let fields = parse_fields(body);
        assert_eq!(
            decode(&fields, &schema, Policy::Strict),
            decode(&fields, &schema, Policy::Lenient),
            "{}",
            body
        );
    }
}

#[test]
fn read_field_reads_the_decoded_text_or_the_raw_text() {
    assert_eq!(read_field(BaseType::U8, &Piece::value("%37")), Some(Value::UInt(7)));
    assert_eq!(read_field(BaseType::U8, &Piece::value("x")), None);
    assert_eq!(read_field(BaseType::Text, &Piece::value("a+b")), Some(Value::Text("a b".to_string())));
    assert_eq!(read_field(BaseType::Text, &Piece::value("%FF")), None);
    assert_eq!(read_field(BaseType::Raw, &Piece::value("a+b")), Some(Value::Text("a+b".to_string())));
    assert_eq!(read_field(BaseType::Raw, &Piece::value("%FF")), Some(Value::Text("%FF".to_string())));
}
