//! Metric implementations written with the member-mapping builder, the way a
//! struct-to-point derivation lays a type's members out.

use telegraf::point_from_members;
use telegraf::protocol::IntoFieldData;
use telegraf::FieldData;
use telegraf::MemberValue;
use telegraf::Metric;
use telegraf::Point;

struct NoTags {
    i: i32,
}

impl Metric for NoTags {
    fn to_point(&self) -> Point {
        point_from_members(
            "NoTags".to_string(),
            vec![("i".to_string(), MemberValue::Field(self.i.into_field_data()))],
        )
    }
}

struct Tags {
    i: i32,
    t: String,
    f: f32,
    t2: f32,
}

impl Metric for Tags {
    fn to_point(&self) -> Point {
        point_from_members(
            "Tags".to_string(),
            vec![
                ("i".to_string(), MemberValue::Field(self.i.into_field_data())),
                ("t".to_string(), MemberValue::Tag(format!("{}", self.t))),
                (
                    "f".to_string(),
                    MemberValue::Field(FieldData::Float(format!("{}", self.f as f64))),
                ),
                ("t2".to_string(), MemberValue::Tag(format!("{}", self.t2))),
            ],
        )
    }
}

struct Optionals {
    i: Option<i32>,
    t: Option<String>,
}

impl Metric for Optionals {
    fn to_point(&self) -> Point {
        point_from_members(
            "Optionals".to_string(),
            vec![
                (
                    "i".to_string(),
                    match &self.i {
                        Some(v) => MemberValue::Field(v.into_field_data()),
                        None => MemberValue::Absent,
                    },
                ),
                (
                    "t".to_string(),
                    match &self.t {
                        Some(v) => MemberValue::Tag(format!("{}", v)),
                        None => MemberValue::Absent,
                    },
                ),
            ],
        )
    }
}

struct StringField {
    s: String,
}

impl Metric for StringField {
    fn to_point(&self) -> Point {
        point_from_members(
            "StringField".to_string(),
            vec![("s".to_string(), MemberValue::Field(self.s.into_field_data()))],
        )
    }
}

struct TagsWithLifetime<'a> {
    i: f32,
    t: &'a str,
}

impl<'a> Metric for TagsWithLifetime<'a> {
    fn to_point(&self) -> Point {
        point_from_members(
            "TagsWithLifetime".to_string(),
            vec![
                (
                    "i".to_string(),
                    MemberValue::Field(FieldData::Float(format!("{}", self.i as f64))),
                ),
                ("t".to_string(), MemberValue::Tag(format!("{}", self.t))),
            ],
        )
    }
}

struct CustomMeasurementName {
    i: i32,
}

impl Metric for CustomMeasurementName {
    fn to_point(&self) -> Point {
        point_from_members(
            "custom".to_string(),
            vec![("i".to_string(), MemberValue::Field(self.i.into_field_data()))],
        )
    }
}

struct Stamped {
    ts: u64,
    i: i32,
}

impl Metric for Stamped {
    fn to_point(&self) -> Point {
        point_from_members(
            "Stamped".to_string(),
            vec![
                ("ts".to_string(), MemberValue::Timestamp(self.ts)),
                ("i".to_string(), MemberValue::Field(self.i.into_field_data())),
            ],
        )
    }
}

#[test]
fn can_derive_string_fields() {
    let s = StringField { s: "s".into() };
    let exp = Point::new(
        "StringField".to_string(),
        Vec::new(),
        vec![("s".to_string(), "s".into_field_data())],
        None,
    );
    assert_eq!(s.to_point(), exp);
}

#[test]
fn can_derive_without_tags() {
    let s = NoTags { i: 1 };
    let exp = Point::new(
        "NoTags".to_string(),
        Vec::new(),
        vec![("i".to_string(), 1.into_field_data())],
        None,
    );
    assert_eq!(s.to_point(), exp);
}

#[test]
fn can_derive_with_tags() {
    let s = Tags {
        i: 1,
        t: "t".to_string(),
        f: 2.,
        t2: 1.,
    };
    let exp = Point::new(
        "Tags".to_string(),
        vec![
            ("t".to_string(), "t".to_string()),
            ("t2".to_string(), format!("{}", 1.)),
        ],
        vec![
            ("i".to_string(), 1.into_field_data()),
            ("f".to_string(), FieldData::Float(format!("{}", 2.))),
        ],
        None,
    );
    assert_eq!(s.to_point(), exp);
}

#[test]
fn can_derive_with_lifetimes() {
    let s = TagsWithLifetime { i: 1., t: "t" };
    let exp = Point::new(
        "TagsWithLifetime".to_string(),
        vec![("t".to_string(), "t".to_string())],
        vec![("i".to_string(), FieldData::Float(format!("{}", 1.)))],
        None,
    );
    assert_eq!(s.to_point(), exp);
}

#[test]
fn can_derive_with_meaurement_attr() {
    let s = CustomMeasurementName { i: 1 };
    let exp = Point::new(
        "custom".to_string(),
        Vec::new(),
        vec![("i".to_string(), 1.into_field_data())],
        None,
    );
    assert_eq!(s.to_point(), exp);
}

#[test]
fn can_derive_with_optionals() {
    let s = Optionals {
        i: Some(1),
        t: Some("t".into()),
    };
    let exp = Point::new(
        "Optionals".to_string(),
        vec![("t".to_string(), "t".to_string())],
        vec![("i".to_string(), 1.into_field_data())],
        None,
    );
    assert_eq!(s.to_point(), exp);

    let s = Optionals { i: Some(1), t: None };
    let exp = Point::new(
        "Optionals".to_string(),
        Vec::new(),
        vec![("i".to_string(), 1.into_field_data())],
        None,
    );
    assert_eq!(s.to_point(), exp);
}

#[test]
fn can_derive_with_timestamp_member() {
    let s = Stamped { ts: 99, i: 3 };
    let exp = Point::new(
        "Stamped".to_string(),
        Vec::new(),
        vec![("i".to_string(), 3.into_field_data())],
        Some(99),
    );
    assert_eq!(s.to_point(), exp);
}
