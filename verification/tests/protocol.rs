use telegraf::protocol::escape_spaces;
use telegraf::protocol::format_attr;
use telegraf::protocol::get_field_string;
use telegraf::protocol::Attr;
use telegraf::protocol::Field;
use telegraf::protocol::Tag;
use telegraf::FieldData;

#[test]
fn can_get_string_field_string() {
    let s = get_field_string(&FieldData::Str(String::from("hello")));
    assert_eq!(s, String::from(r#""hello""#));
}

#[test]
fn can_get_bool_field_string() {
    let s1 = get_field_string(&FieldData::Boolean(true));
    let s2 = get_field_string(&FieldData::Boolean(false));
    assert_eq!(s1, String::from("true"));
    assert_eq!(s2, String::from("false"));
}

#[test]
fn can_get_uint_field_string() {
    let s = get_field_string(&FieldData::UNumber(10));
    assert_eq!(s, String::from("10u"));
}

#[test]
fn can_get_signed_int_field_string() {
    let s1 = get_field_string(&FieldData::Number(10));
    let s2 = get_field_string(&FieldData::Number(-10));
    assert_eq!(s1, String::from("10i"));
    assert_eq!(s2, String::from("-10i"));
}

#[test]
fn can_format_field_attr() {
    let v1: Vec<Attr> = vec![
        Attr::Field(Field { name: String::from("f1"), value: FieldData::Number(1) }),
        Attr::Field(Field { name: String::from("f2"), value: FieldData::Number(2) }),
    ];

    let v2: Vec<Attr> = vec![
        Attr::Field(Field { name: String::from("f1"), value: FieldData::Number(1) }),
        Attr::Field(Field { name: String::from("f2"), value: FieldData::Str(String::from("2")) }),
    ];
    assert_eq!(format_attr(v1), String::from("f1=1i,f2=2i"));
    assert_eq!(format_attr(v2), String::from("f1=1i,f2=\"2\""));
}

#[test]
fn can_get_float_field_string() {
    let s = get_field_string(&FieldData::Float(format!("{}", 10.3)));
    assert_eq!(s, String::from("10.3"));
}

#[test]
fn signed_int_extremes_render_exactly() {
    let s1 = get_field_string(&FieldData::Number(i64::MIN));
    let s2 = get_field_string(&FieldData::Number(i64::MAX));
    assert_eq!(s1, String::from("-9223372036854775808i"));
    assert_eq!(s2, String::from("9223372036854775807i"));
}

#[test]
fn unsigned_max_renders_exactly() {
    let s = get_field_string(&FieldData::UNumber(u64::MAX));
    assert_eq!(s, String::from("18446744073709551615u"));
}

#[test]
fn format_attr_of_nothing_is_empty() {
    assert_eq!(format_attr(Vec::new()), String::new());
}

#[test]
fn format_attr_sorts_whole_pair_strings() {
    // With the text value on f1 instead of f2, the pair strings sort the
    // other way around: `f1="2"` precedes `f2=1i`.
    let v: Vec<Attr> = vec![
        Attr::Field(Field { name: String::from("f2"), value: FieldData::Number(1) }),
        Attr::Field(Field { name: String::from("f1"), value: FieldData::Str(String::from("2")) }),
    ];
    assert_eq!(format_attr(v), String::from("f1=\"2\",f2=1i"));
}

#[test]
fn escape_spaces_escapes_each_space() {
    assert_eq!(escape_spaces("a b c"), String::from(r#"a\ b\ c"#));
    assert_eq!(escape_spaces("nospace"), String::from("nospace"));
    assert_eq!(escape_spaces(" "), String::from(r#"\ "#));
}

#[test]
fn tag_spaces_escaped_field_text_not() {
    let attrs: Vec<Attr> = vec![Attr::Tag(Tag {
        name: String::from("t 1"),
        value: String::from("v 2"),
    })];
    assert_eq!(format_attr(attrs), String::from(r#"t\ 1=v\ 2"#));

    let fields: Vec<Attr> = vec![Attr::Field(Field {
        name: String::from("f"),
        value: FieldData::Str(String::from("a b")),
    })];
    assert_eq!(format_attr(fields), String::from("f=\"a b\""));
}
