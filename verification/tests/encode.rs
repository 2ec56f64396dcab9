use telegraf::encode_batch;
use telegraf::encode_point;
use telegraf::protocol::IntoFieldData;
use telegraf::FieldData;
use telegraf::Point;
use telegraf::TelegrafError;

fn sample_point() -> Point {
    Point::new(
        "Foo".to_string(),
        vec![("t1".to_string(), "v".to_string())],
        vec![("f1".to_string(), 10.into_field_data())],
        Some(10),
    )
}

#[test]
fn encode_writes_the_rendered_line() {
    let lp = encode_point(&sample_point()).unwrap();
    assert_eq!(lp.to_str(), "Foo,t1=v f1=10i 10\n");
}

#[test]
fn encoding_twice_gives_identical_bytes() {
    let p = sample_point();
    let once = p.to_lp().to_str().to_string();
    let twice = p.to_lp().to_str().to_string();
    assert_eq!(once, twice);
}

#[test]
fn empty_field_set_fails_only_at_the_write_boundary() {
    // Constructing a fieldless point succeeds...
    let p = Point::new(
        "Foo".to_string(),
        vec![("t1".to_string(), "v".to_string())],
        Vec::new(),
        None,
    );
    assert_eq!(p.fields.len(), 0);
    // ...and only encoding it for writing is refused.
    match encode_point(&p) {
        Err(e) => assert_eq!(e, TelegrafError::EmptyFieldSet),
        Ok(_) => panic!("a fieldless point must not encode"),
    }
}

#[test]
fn batch_concatenates_terminated_lines() {
    let a = Point::new(
        "Foo".to_string(),
        Vec::new(),
        vec![("f1".to_string(), 1.into_field_data())],
        None,
    );
    let b = Point::new(
        "Bar".to_string(),
        Vec::new(),
        vec![("f2".to_string(), true.into_field_data())],
        Some(7),
    );
    let batch = encode_batch(&vec![a.clone(), b.clone()]).unwrap();
    let mut expected = a.to_lp().to_str().to_string();
    expected.push_str(b.to_lp().to_str());
    assert_eq!(batch, expected);
    assert_eq!(batch, "Foo f1=1i\nBar f2=true 7\n");
}

#[test]
fn batch_of_nothing_is_empty() {
    assert_eq!(encode_batch(&Vec::new()).unwrap(), String::new());
}

#[test]
fn batch_with_a_fieldless_point_is_refused() {
    let good = Point::new(
        "Foo".to_string(),
        Vec::new(),
        vec![("f1".to_string(), 1.into_field_data())],
        None,
    );
    let bad = Point::new("Bar".to_string(), Vec::new(), Vec::new(), None);
    match encode_batch(&vec![good, bad]) {
        Err(e) => assert_eq!(e, TelegrafError::EmptyFieldSet),
        Ok(_) => panic!("a batch holding a fieldless point must not encode"),
    }
}

#[test]
fn rendered_line_ends_with_exactly_one_newline() {
    let line = sample_point().to_lp().to_str().to_string();
    assert!(line.ends_with('\n'));
    assert_eq!(line.matches('\n').count(), 1);
}

#[test]
fn rendered_line_has_one_space_between_segments() {
    let p = Point::new(
        "Foo".to_string(),
        vec![("t 1".to_string(), "v 2".to_string())],
        vec![("f1".to_string(), 10.into_field_data())],
        None,
    );
    let line = p.to_lp().to_str().to_string();
    assert_eq!(line, "Foo,t\\ 1=v\\ 2 f1=10i\n");
    // The tag spaces are escaped; the segment separator is the one space
    // without a backslash in front of it.
    let unescaped: Vec<usize> = line
        .char_indices()
        .filter(|(i, c)| *c == ' ' && (*i == 0 || line.as_bytes()[i - 1] != b'\\'))
        .map(|(i, _)| i)
        .collect();
    assert_eq!(unescaped.len(), 1);
}

#[test]
fn every_scalar_type_converts_to_its_variant() {
    assert_eq!(true.into_field_data(), FieldData::Boolean(true));
    assert_eq!(10u8.into_field_data(), FieldData::UNumber(10));
    assert_eq!(10u16.into_field_data(), FieldData::UNumber(10));
    assert_eq!(10u32.into_field_data(), FieldData::UNumber(10));
    assert_eq!(10u64.into_field_data(), FieldData::UNumber(10));
    assert_eq!((-10i8).into_field_data(), FieldData::Number(-10));
    assert_eq!((-10i16).into_field_data(), FieldData::Number(-10));
    assert_eq!((-10i32).into_field_data(), FieldData::Number(-10));
    assert_eq!((-10i64).into_field_data(), FieldData::Number(-10));
    assert_eq!("b".into_field_data(), FieldData::Str("b".to_string()));
    assert_eq!(
        "b".to_string().into_field_data(),
        FieldData::Str("b".to_string())
    );
}

#[test]
fn equality_is_order_sensitive_but_encoding_is_not() {
    let p1 = Point::new(
        "Foo".to_string(),
        Vec::new(),
        vec![
            ("a".to_string(), 1.into_field_data()),
            ("b".to_string(), 2.into_field_data()),
        ],
        None,
    );
    let p2 = Point::new(
        "Foo".to_string(),
        Vec::new(),
        vec![
            ("b".to_string(), 2.into_field_data()),
            ("a".to_string(), 1.into_field_data()),
        ],
        None,
    );
    // Field order matters for point equality...
    assert!(p1 != p2);
    // ...but the encoder sorts independently, so both render the same.
    assert_eq!(p1.to_lp().to_str(), p2.to_lp().to_str());
    assert_eq!(p1.to_lp().to_str(), "Foo a=1i,b=2i\n");
}

#[test]
fn render_matches_the_line() {
    let p = sample_point();
    assert_eq!(p.render(), p.to_lp().to_str().to_string());
    assert_eq!(p.render(), "Foo,t1=v f1=10i 10\n");
}

#[test]
fn duplicate_tags_pass_through() {
    let p = Point::new(
        "Foo".to_string(),
        vec![
            ("t".to_string(), "b".to_string()),
            ("t".to_string(), "a".to_string()),
        ],
        vec![("f1".to_string(), 10.into_field_data())],
        None,
    );
    // Duplicates are not resolved; both pairs render, in sorted order.
    assert_eq!(p.to_lp().to_str(), "Foo,t=a,t=b f1=10i\n");
}

#[test]
fn empty_tag_text_is_not_rejected() {
    let p = Point::new(
        "Foo".to_string(),
        vec![("t".to_string(), String::new())],
        vec![("f1".to_string(), 10.into_field_data())],
        None,
    );
    assert_eq!(p.to_lp().to_str(), "Foo,t= f1=10i\n");
}

#[test]
fn timestamp_renders_as_plain_decimal() {
    let p = Point::new(
        "Foo".to_string(),
        Vec::new(),
        vec![("f1".to_string(), 1.into_field_data())],
        Some(u64::MAX),
    );
    assert_eq!(p.to_lp().to_str(), "Foo f1=1i 18446744073709551615\n");
}
