//! A lightweight client library for writing metrics to a Telegraf/InfluxDB
//! socket listener, centered on the line-protocol text encoding.
//!
//! The heart of the crate is [`Point`]: a measurement name, a sequence of
//! text tags, a sequence of typed fields, and an optional timestamp. A point
//! lowers to one newline-terminated [`protocol::LineProtocol`] line; the
//! bytes of that line are what a Telegraf daemon expects on its socket.
//! Encoding is deterministic: within the tag segment and within the field
//! segment, the rendered `name=value` strings are sorted lexicographically as
//! whole strings before they are joined with commas.
//!
//! A point may be built with any number of fields, but the daemon requires at
//! least one: the rule is enforced at the write boundary, by
//! [`encode_point`] and [`encode_batch`], which refuse a fieldless point with
//! [`TelegrafError::EmptyFieldSet`].

use vstd::prelude::*;
use vstd::string::StringExecFns;

pub mod laws;
pub mod order;
pub mod protocol;
pub mod text;

pub use protocol::FieldData;
pub use protocol::IntoFieldData;

use protocol::attrs_text;
use protocol::line_text;
use protocol::Attr;
use protocol::AttrV;
use protocol::Field;
use protocol::FieldDataV;
use protocol::FieldV;
use protocol::LineProtocol;
use protocol::Tag;
use protocol::TagV;

verus! {

/// Trait for writing custom types as a telegraf [`Point`].
///
/// Implement it by listing the type's members with their roles and handing
/// them to [`point_from_members`].
pub trait Metric {
    /// Converts internal attributes to a Point format.
    fn to_point(&self) -> Point;
}

/// A single influx metric: a measurement name, a tag set, a field set, and
/// an optional nanosecond timestamp.
///
/// Construction never validates; the telegraf protocol's demand for at least
/// one field is checked only when the point is encoded for writing.
#[derive(Debug)]
pub struct Point {
    pub measurement: String,
    pub tags: Vec<Tag>,
    pub fields: Vec<Field>,
    pub timestamp: Option<u64>,
}

/// The mathematical value of a [`Point`].
#[verifier::ext_equal]
pub ghost struct PointV {
    pub measurement: Seq<char>,
    pub tags: Seq<TagV>,
    pub fields: Seq<FieldV>,
    pub timestamp: Option<u64>,
}

impl View for Point {
    type V = PointV;

    open spec fn view(&self) -> PointV {
        PointV {
            measurement: self.measurement@,
            tags: self.tags.deep_view(),
            fields: self.fields.deep_view(),
            timestamp: self.timestamp,
        }
    }
}

impl DeepView for Point {
    type V = PointV;

    open spec fn deep_view(&self) -> PointV {
        self.view()
    }
}

fn tags_eq(a: &Vec<Tag>, b: &Vec<Tag>) -> (r: bool)
    ensures
        r == (a.deep_view() == b.deep_view()),
{
    if a.len() != b.len() {
        assert(a.deep_view().len() != b.deep_view().len());
        return false;
    }
    let mut i: usize = 0;
    while i < a.len()
        invariant
            a@.len() == b@.len(),
            i <= a@.len(),
            forall|k: int| 0 <= k < i ==> a.deep_view()[k] == b.deep_view()[k],
        decreases a@.len() - i,
    {
        if !(a[i] == b[i]) {
            assert(a.deep_view()[i as int] != b.deep_view()[i as int]);
            return false;
        }
        assert(a.deep_view()[i as int] == b.deep_view()[i as int]);
        i = i + 1;
    }
    proof {
        assert(a.deep_view() =~= b.deep_view());
    }
    true
}

fn fields_eq(a: &Vec<Field>, b: &Vec<Field>) -> (r: bool)
    ensures
        r == (a.deep_view() == b.deep_view()),
{
    if a.len() != b.len() {
        assert(a.deep_view().len() != b.deep_view().len());
        return false;
    }
    let mut i: usize = 0;
    while i < a.len()
        invariant
            a@.len() == b@.len(),
            i <= a@.len(),
            forall|k: int| 0 <= k < i ==> a.deep_view()[k] == b.deep_view()[k],
        decreases a@.len() - i,
    {
        if !(a[i] == b[i]) {
            assert(a.deep_view()[i as int] != b.deep_view()[i as int]);
            return false;
        }
        assert(a.deep_view()[i as int] == b.deep_view()[i as int]);
        i = i + 1;
    }
    proof {
        assert(a.deep_view() =~= b.deep_view());
    }
    true
}

impl PartialEq for Point {
    fn eq(&self, other: &Self) -> (r: bool) {
        let ts_eq = match (&self.timestamp, &other.timestamp) {
            (Some(a), Some(b)) => *a == *b,
            (None, None) => true,
            _ => false,
        };
        self.measurement == other.measurement && ts_eq && tags_eq(&self.tags, &other.tags)
            && fields_eq(&self.fields, &other.fields)
    }
}

impl vstd::std_specs::cmp::PartialEqSpecImpl for Point {
    open spec fn obeys_eq_spec() -> bool {
        true
    }

    open spec fn eq_spec(&self, other: &Self) -> bool {
        self@ == other@
    }
}

impl Clone for Point {
    fn clone(&self) -> (r: Self)
        ensures
            r@ == self@,
    {
        let tags = self.tags.clone();
        let fields = self.fields.clone();
        proof {
            assert forall|k: int| 0 <= k < self.tags@.len() implies tags@[k] == self.tags@[k] by {
                assert(vstd::pervasive::cloned(self.tags@[k], tags@[k]));
            }
            assert(tags@ =~= self.tags@);
            assert forall|k: int|
                0 <= k < self.fields@.len() implies fields@[k] == self.fields@[k] by {
                assert(vstd::pervasive::cloned(self.fields@[k], fields@[k]));
            }
            assert(fields@ =~= self.fields@);
        }
        Point { measurement: self.measurement.clone(), tags, fields, timestamp: self.timestamp }
    }
}

/// The full line-protocol text of one point: the tag segment present only
/// when the tag list is non-empty, the field segment always present, and the
/// timestamp only when one was set.
pub open spec fn point_text(p: PointV) -> Seq<char> {
    line_text(
        p.measurement,
        if p.tags.len() == 0 {
            None
        } else {
            Some(attrs_text(p.tags.map_values(|t: TagV| AttrV::Tag(t))))
        },
        attrs_text(p.fields.map_values(|f: FieldV| AttrV::Field(f))),
        p.timestamp,
    )
}

/// The tag list that [`Point::new`] builds from name and value pairs.
pub open spec fn tags_of_pairs(pairs: Seq<(Seq<char>, Seq<char>)>) -> Seq<TagV> {
    pairs.map_values(|p: (Seq<char>, Seq<char>)| TagV { name: p.0, value: p.1 })
}

/// The field list that [`Point::new`] builds from name and value pairs.
pub open spec fn fields_of_pairs(pairs: Seq<(Seq<char>, FieldDataV)>) -> Seq<FieldV> {
    pairs.map_values(|p: (Seq<char>, FieldDataV)| FieldV { name: p.0, value: p.1 })
}

impl Point {
    /// Creates a new Point from plain name and value pairs. No validation
    /// happens here: a point with no fields is constructible, and is refused
    /// only at the write boundary.
    pub fn new(
        measurement: String,
        tags: Vec<(String, String)>,
        fields: Vec<(String, FieldData)>,
        timestamp: Option<u64>,
    ) -> (r: Self)
        ensures
            r@ == (PointV {
                measurement: measurement@,
                tags: tags_of_pairs(tags.deep_view()),
                fields: fields_of_pairs(fields.deep_view()),
                timestamp,
            }),
    {
        let ghost tag_pairs = tags.deep_view();
        let ghost field_pairs = fields.deep_view();
        let mut t: Vec<Tag> = Vec::new();
        let mut i: usize = 0;
        while i < tags.len()
            invariant
                i <= tags@.len(),
                tag_pairs == tags.deep_view(),
                tag_pairs.len() == tags@.len(),
                t@.len() == i,
                forall|k: int|
                    0 <= k < i ==> (#[trigger] t@[k])@ == (TagV {
                        name: tag_pairs[k].0,
                        value: tag_pairs[k].1,
                    }),
            decreases tags@.len() - i,
        {
            let (name, value) = (tags[i].0.clone(), tags[i].1.clone());
            assert(tags.deep_view()[i as int] == tags@[i as int].deep_view());
            t.push(Tag { name, value });
            i = i + 1;
        }
        let mut f: Vec<Field> = Vec::new();
        let mut j: usize = 0;
        while j < fields.len()
            invariant
                j <= fields@.len(),
                field_pairs == fields.deep_view(),
                field_pairs.len() == fields@.len(),
                f@.len() == j,
                forall|k: int|
                    0 <= k < j ==> (#[trigger] f@[k])@ == (FieldV {
                        name: field_pairs[k].0,
                        value: field_pairs[k].1,
                    }),
            decreases fields@.len() - j,
        {
            let name = fields[j].0.clone();
            let value = fields[j].1.clone();
            assert(fields.deep_view()[j as int] == fields@[j as int].deep_view());
            f.push(Field { name, value });
            j = j + 1;
        }
        proof {
            assert(t.deep_view() =~= tags_of_pairs(tag_pairs));
            assert(f.deep_view() =~= fields_of_pairs(field_pairs));
        }
        Self { measurement, tags: t, fields: f, timestamp }
    }

    /// Lowers the point to its line-protocol line: tags and fields each
    /// rendered and sorted by [`protocol::format_attr`], assembled and
    /// terminated by [`LineProtocol::new`].
    pub fn to_lp(&self) -> (r: LineProtocol)
        ensures
            r@ == point_text(self@),
    {
        let ghost tag_views = self@.tags;
        let mut tag_attrs: Vec<Attr> = Vec::new();
        let mut i: usize = 0;
        while i < self.tags.len()
            invariant
                i <= self.tags@.len(),
                tag_views == self.tags.deep_view(),
                tag_views.len() == self.tags@.len(),
                tag_attrs@.len() == i,
                forall|k: int|
                    0 <= k < i ==> (#[trigger] tag_attrs@[k])@ == AttrV::Tag(tag_views[k]),
            decreases self.tags@.len() - i,
        {
            let tag = Tag {
                name: self.tags[i].name.clone(),
                value: self.tags[i].value.clone(),
            };
            assert(self.tags.deep_view()[i as int] == self.tags@[i as int].deep_view());
            tag_attrs.push(Attr::Tag(tag));
            i = i + 1;
        }
        let ghost field_views = self@.fields;
        let mut field_attrs: Vec<Attr> = Vec::new();
        let mut j: usize = 0;
        while j < self.fields.len()
            invariant
                j <= self.fields@.len(),
                field_views == self.fields.deep_view(),
                field_views.len() == self.fields@.len(),
                field_attrs@.len() == j,
                forall|k: int|
                    0 <= k < j ==> (#[trigger] field_attrs@[k])@ == AttrV::Field(field_views[k]),
            decreases self.fields@.len() - j,
        {
            let field = Field {
                name: self.fields[j].name.clone(),
                value: self.fields[j].value.clone(),
            };
            assert(self.fields.deep_view()[j as int] == self.fields@[j as int].deep_view());
            field_attrs.push(Attr::Field(field));
            j = j + 1;
        }
        proof {
            assert(tag_attrs.deep_view() =~= tag_views.map_values(|t: TagV| AttrV::Tag(t)));
            assert(field_attrs.deep_view() =~= field_views.map_values(|f: FieldV| AttrV::Field(f)));
        }
        let tag_str = if tag_attrs.is_empty() {
            None
        } else {
            Some(protocol::format_attr(tag_attrs))
        };
        let field_str = protocol::format_attr(field_attrs);
        LineProtocol::new(self.measurement.clone(), tag_str, field_str, self.timestamp)
    }

    /// The point's line-protocol text as an owned string, exactly as
    /// [`Point::to_lp`] renders it.
    pub fn render(&self) -> (r: String)
        ensures
            r@ == point_text(self@),
    {
        let lp = self.to_lp();
        let mut r = String::new();
        r.append(lp.to_str());
        r
    }
}

/// The role and value that one member of a metric type contributes to its
/// point: a text tag, a typed field, the designated timestamp, or nothing at
/// all (for an optional member whose value is missing).
#[derive(Debug)]
pub enum MemberValue {
    Tag(String),
    Field(FieldData),
    Timestamp(u64),
    Absent,
}

/// The mathematical value of a [`MemberValue`].
#[verifier::ext_equal]
pub ghost enum MemberValueV {
    Tag(Seq<char>),
    Field(FieldDataV),
    Timestamp(u64),
    Absent,
}

impl View for MemberValue {
    type V = MemberValueV;

    open spec fn view(&self) -> MemberValueV {
        match self {
            MemberValue::Tag(v) => MemberValueV::Tag(v@),
            MemberValue::Field(d) => MemberValueV::Field(d@),
            MemberValue::Timestamp(n) => MemberValueV::Timestamp(*n),
            MemberValue::Absent => MemberValueV::Absent,
        }
    }
}

impl DeepView for MemberValue {
    type V = MemberValueV;

    open spec fn deep_view(&self) -> MemberValueV {
        self.view()
    }
}

/// The tags contributed by a member list, in member order.
pub open spec fn members_tags(ms: Seq<(Seq<char>, MemberValueV)>) -> Seq<TagV>
    decreases ms.len(),
{
    if ms.len() == 0 {
        Seq::empty()
    } else {
        members_tags(ms.drop_last()) + (match ms.last().1 {
            MemberValueV::Tag(v) => seq![TagV { name: ms.last().0, value: v }],
            _ => Seq::empty(),
        })
    }
}

/// The fields contributed by a member list, in member order.
pub open spec fn members_fields(ms: Seq<(Seq<char>, MemberValueV)>) -> Seq<FieldV>
    decreases ms.len(),
{
    if ms.len() == 0 {
        Seq::empty()
    } else {
        members_fields(ms.drop_last()) + (match ms.last().1 {
            MemberValueV::Field(d) => seq![FieldV { name: ms.last().0, value: d }],
            _ => Seq::empty(),
        })
    }
}

/// The timestamp contributed by a member list: the value of the last member
/// with the timestamp role, if any member has it.
pub open spec fn members_timestamp(ms: Seq<(Seq<char>, MemberValueV)>) -> Option<u64>
    decreases ms.len(),
{
    if ms.len() == 0 {
        None
    } else {
        match ms.last().1 {
            MemberValueV::Timestamp(n) => Some(n),
            _ => members_timestamp(ms.drop_last()),
        }
    }
}

/// Builds the point that a struct-shaped metric maps to: each member listed
/// with its name and role, in declaration order. Members with the tag role
/// become the tag set and members with the field role the field set, both in
/// member order; the last member with the timestamp role sets the timestamp;
/// an absent member contributes nothing. The measurement is passed explicitly
/// (a type's own name, unless overridden).
pub fn point_from_members(measurement: String, members: Vec<(String, MemberValue)>) -> (r: Point)
    ensures
        r@ == (PointV {
            measurement: measurement@,
            tags: members_tags(members.deep_view()),
            fields: members_fields(members.deep_view()),
            timestamp: members_timestamp(members.deep_view()),
        }),
{
    let ghost ms = members.deep_view();
    let mut tags: Vec<Tag> = Vec::new();
    let mut fields: Vec<Field> = Vec::new();
    let mut timestamp: Option<u64> = None;
    let mut i: usize = 0;
    while i < members.len()
        invariant
            i <= members@.len(),
            ms == members.deep_view(),
            ms.len() == members@.len(),
            members_tags(ms.take(i as int)).len() == tags@.len(),
            forall|k: int|
                0 <= k < tags@.len() ==> (#[trigger] tags@[k])@ == members_tags(
                    ms.take(i as int),
                )[k],
            members_fields(ms.take(i as int)).len() == fields@.len(),
            forall|k: int|
                0 <= k < fields@.len() ==> (#[trigger] fields@[k])@ == members_fields(
                    ms.take(i as int),
                )[k],
            timestamp == members_timestamp(ms.take(i as int)),
        decreases members@.len() - i,
    {
        assert(members.deep_view()[i as int] == members@[i as int].deep_view());
        proof {
            assert(ms.take(i + 1 as int).drop_last() =~= ms.take(i as int));
            assert(ms.take(i + 1 as int).last() == ms[i as int]);
        }
        let name = members[i].0.clone();
        match &members[i].1 {
            MemberValue::Tag(v) => {
                tags.push(Tag { name, value: v.clone() });
            },
            MemberValue::Field(d) => {
                fields.push(Field { name, value: d.clone() });
            },
            MemberValue::Timestamp(n) => {
                timestamp = Some(*n);
            },
            MemberValue::Absent => {},
        }
        i = i + 1;
    }
    proof {
        assert(ms.take(members@.len() as int) =~= ms);
        assert(tags.deep_view() =~= members_tags(ms));
        assert(fields.deep_view() =~= members_fields(ms));
    }
    Point { measurement, tags, fields, timestamp }
}

/// Errors raised by the encoder at the write boundary.
#[derive(Debug, Clone, Copy, PartialEq, Eq, Structural)]
pub enum TelegrafError {
    /// The point (or one point of a batch) holds no field at all; the
    /// telegraf protocol requires at least one.
    EmptyFieldSet,
}

/// Encodes one point for writing: the terminated line on success, and
/// [`TelegrafError::EmptyFieldSet`] exactly when the point has no fields.
pub fn encode_point(p: &Point) -> (r: Result<LineProtocol, TelegrafError>)
    ensures
        match r {
            Ok(lp) => p@.fields.len() > 0 && lp@ == point_text(p@),
            Err(e) => p@.fields.len() == 0 && e == TelegrafError::EmptyFieldSet,
        },
{
    if p.fields.is_empty() {
        Err(TelegrafError::EmptyFieldSet)
    } else {
        Ok(p.to_lp())
    }
}

/// A batch of encoded points: each point's line in order, every line
/// newline-terminated, with no separator between lines.
pub open spec fn batch_text(ps: Seq<PointV>) -> Seq<char>
    decreases ps.len(),
{
    if ps.len() == 0 {
        Seq::empty()
    } else {
        batch_text(ps.drop_last()) + point_text(ps.last())
    }
}

/// Encodes a batch of points as the concatenation of their individually
/// terminated lines. Fails with [`TelegrafError::EmptyFieldSet`] exactly when
/// some point of the batch has no fields.
pub fn encode_batch(points: &Vec<Point>) -> (r: Result<String, TelegrafError>)
    ensures
        match r {
            Ok(s) => (forall|k: int|
                0 <= k < points.deep_view().len() ==> (#[trigger] points.deep_view()[k]).fields.len()
                    > 0) && s@ == batch_text(points.deep_view()),
            Err(e) => e == TelegrafError::EmptyFieldSet && (exists|k: int|
                0 <= k < points.deep_view().len() && (#[trigger] points.deep_view()[k]).fields.len()
                    == 0),
        },
{
    let ghost views = points.deep_view();
    let mut out = String::new();
    let mut i: usize = 0;
    while i < points.len()
        invariant
            i <= points@.len(),
            views == points.deep_view(),
            views.len() == points@.len(),
            forall|k: int| 0 <= k < i ==> (#[trigger] views[k]).fields.len() > 0,
            out@ == batch_text(views.take(i as int)),
        decreases points@.len() - i,
    {
        assert(points.deep_view()[i as int] == points@[i as int].deep_view());
        match encode_point(&points[i]) {
            Ok(lp) => {
                out.append(lp.to_str());
            },
            Err(e) => {
                assert(views[i as int].fields.len() == 0);
                return Err(e);
            },
        }
        proof {
            assert(views.take(i + 1 as int).drop_last() =~= views.take(i as int));
            assert(views.take(i + 1 as int).last() == views[i as int]);
        }
        i = i + 1;
    }
    proof {
        assert(views.take(points@.len() as int) =~= views);
    }
    Ok(out)
}

} // verus!
