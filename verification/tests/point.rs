use telegraf::protocol::Field;
use telegraf::protocol::IntoFieldData;
use telegraf::protocol::Tag;
use telegraf::FieldData;
use telegraf::Point;

#[test]
fn can_create_point_lp_ts_no_tags() {
    let p = Point::new(
        String::from("Foo"),
        vec![],
        vec![
            ("f1".to_owned(), 10.into_field_data()),
            ("f2".to_owned(), FieldData::Float(format!("{}", 10.3))),
        ],
        Some(10),
    );

    let lp = p.to_lp();
    assert_eq!(lp.to_str(), "Foo f1=10i,f2=10.3 10\n");
}

#[test]
fn can_create_point_lp_ts() {
    let p = Point::new(
        String::from("Foo"),
        vec![("t1".to_owned(), "v".to_owned())],
        vec![
            ("f1".to_owned(), 10.into_field_data()),
            ("f2".to_owned(), FieldData::Float(format!("{}", 10.3))),
            ("f3".to_owned(), "b".into_field_data()),
        ],
        Some(10),
    );

    let lp = p.to_lp();
    assert_eq!(lp.to_str(), "Foo,t1=v f1=10i,f2=10.3,f3=\"b\" 10\n");
}

#[test]
fn can_create_point_lp() {
    let p = Point::new(
        String::from("Foo"),
        vec![("t1".to_owned(), "v".to_owned())],
        vec![
            ("f1".to_owned(), 10.into_field_data()),
            ("f2".to_owned(), FieldData::Float(format!("{}", 10.3))),
            ("f3".to_owned(), "b".into_field_data()),
        ],
        None,
    );

    let lp = p.to_lp();
    assert_eq!(lp.to_str(), "Foo,t1=v f1=10i,f2=10.3,f3=\"b\"\n");
}

#[test]
fn can_create_point_lp_no_tags() {
    let p = Point::new(
        String::from("Foo"),
        vec![],
        vec![
            ("f1".to_owned(), 10.into_field_data()),
            ("f2".to_owned(), FieldData::Float(format!("{}", 10.3))),
        ],
        None,
    );

    let lp = p.to_lp();
    assert_eq!(lp.to_str(), "Foo f1=10i,f2=10.3\n");
}

#[test]
fn can_create_with_ts() {
    let p = Point::new(
        "test".to_string(),
        vec![
            ("t".to_string(), "v".to_string()),
            ("t2".to_string(), "v2".to_string()),
        ],
        vec![("f".to_string(), "v".into_field_data())],
        Some(10),
    );
    let exp = Point {
        measurement: "test".to_string(),
        tags: vec![
            Tag { name: "t".to_string(), value: "v".to_string() },
            Tag { name: "t2".to_string(), value: "v2".to_string() },
        ],
        fields: vec![Field { name: "f".to_string(), value: FieldData::Str("v".to_string()) }],
        timestamp: Some(10),
    };
    assert_eq!(p, exp);
}

#[test]
fn can_create_with_tag() {
    let p = Point::new(
        "test".to_string(),
        vec![
            ("t".to_string(), "v".to_string()),
            ("t2".to_string(), "v2".to_string()),
        ],
        vec![("f".to_string(), "v".into_field_data())],
        None,
    );
    let exp = Point {
        measurement: "test".to_string(),
        tags: vec![
            Tag { name: "t".to_string(), value: "v".to_string() },
            Tag { name: "t2".to_string(), value: "v2".to_string() },
        ],
        fields: vec![Field { name: "f".to_string(), value: FieldData::Str("v".to_string()) }],
        timestamp: None,
    };
    assert_eq!(p, exp);
}

#[test]
fn can_create_whtout_tag() {
    let p = Point::new(
        "test".to_string(),
        Vec::new(),
        vec![("f".to_string(), "v".into_field_data())],
        None,
    );
    let exp = Point {
        measurement: "test".to_string(),
        tags: Vec::new(),
        fields: vec![Field { name: "f".to_string(), value: FieldData::Str("v".to_string()) }],
        timestamp: None,
    };
    assert_eq!(p, exp);
}
