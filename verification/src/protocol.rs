//! Line-protocol building blocks: typed field values, tag and field
//! attributes, space escaping, and the terminated wire line.

use vstd::prelude::*;
use vstd::string::StrSliceExecFns;
use vstd::string::StringExecFns;

use crate::order::insert_sorted;
use crate::order::lex_sort;
use crate::order::texts_of;
use crate::text::dec_digits;
use crate::text::i64_text;
use crate::text::signed_dec_digits;
use crate::text::u64_text;

verus! {

/// Influx types that can be used in a field.
///
/// The `Float` variant carries the default decimal rendering of the host's
/// 64-bit float, produced by the caller; the encoder emits that text verbatim
/// and unsuffixed.
#[derive(Debug)]
pub enum FieldData {
    Boolean(bool),
    UNumber(u64),
    Number(i64),
    Float(String),
    Str(String),
}

/// The mathematical value of a [`FieldData`]: text payloads as character
/// sequences.
#[verifier::ext_equal]
pub ghost enum FieldDataV {
    Boolean(bool),
    UNumber(u64),
    Number(i64),
    Float(Seq<char>),
    Str(Seq<char>),
}

impl View for FieldData {
    type V = FieldDataV;

    open spec fn view(&self) -> FieldDataV {
        match self {
            FieldData::Boolean(b) => FieldDataV::Boolean(*b),
            FieldData::UNumber(n) => FieldDataV::UNumber(*n),
            FieldData::Number(n) => FieldDataV::Number(*n),
            FieldData::Float(s) => FieldDataV::Float(s@),
            FieldData::Str(s) => FieldDataV::Str(s@),
        }
    }
}

impl DeepView for FieldData {
    type V = FieldDataV;

    open spec fn deep_view(&self) -> FieldDataV {
        self.view()
    }
}

impl PartialEq for FieldData {
    fn eq(&self, other: &Self) -> (r: bool) {
        match (self, other) {
            (FieldData::Boolean(a), FieldData::Boolean(b)) => *a == *b,
            (FieldData::UNumber(a), FieldData::UNumber(b)) => *a == *b,
            (FieldData::Number(a), FieldData::Number(b)) => *a == *b,
            (FieldData::Float(a), FieldData::Float(b)) => *a == *b,
            (FieldData::Str(a), FieldData::Str(b)) => *a == *b,
            _ => false,
        }
    }
}

impl vstd::std_specs::cmp::PartialEqSpecImpl for FieldData {
    open spec fn obeys_eq_spec() -> bool {
        true
    }

    open spec fn eq_spec(&self, other: &Self) -> bool {
        self@ == other@
    }
}

impl Clone for FieldData {
    fn clone(&self) -> (r: Self)
        ensures
            r == *self,
    {
        match self {
            FieldData::Boolean(b) => FieldData::Boolean(*b),
            FieldData::UNumber(n) => FieldData::UNumber(*n),
            FieldData::Number(n) => FieldData::Number(*n),
            FieldData::Float(s) => FieldData::Float(s.clone()),
            FieldData::Str(s) => FieldData::Str(s.clone()),
        }
    }
}

/// Used to convert Rust types to influx types. Must be implemented by any
/// type that will be used as a field value in a [`crate::Point`].
pub trait IntoFieldData {
    /// The one variant that a value of this type becomes.
    spec fn field_data_spec(&self) -> FieldDataV;

    /// Converts the value to its wire-typed field representation.
    fn into_field_data(&self) -> (r: FieldData)
        ensures
            r@ == self.field_data_spec(),
    ;
}

impl IntoFieldData for bool {
    open spec fn field_data_spec(&self) -> FieldDataV {
        FieldDataV::Boolean(*self)
    }

    fn into_field_data(&self) -> (r: FieldData) {
        FieldData::Boolean(*self)
    }
}

impl IntoFieldData for u8 {
    open spec fn field_data_spec(&self) -> FieldDataV {
        FieldDataV::UNumber(*self as u64)
    }

    fn into_field_data(&self) -> (r: FieldData) {
        FieldData::UNumber(*self as u64)
    }
}

impl IntoFieldData for u16 {
    open spec fn field_data_spec(&self) -> FieldDataV {
        FieldDataV::UNumber(*self as u64)
    }

    fn into_field_data(&self) -> (r: FieldData) {
        FieldData::UNumber(*self as u64)
    }
}

impl IntoFieldData for u32 {
    open spec fn field_data_spec(&self) -> FieldDataV {
        FieldDataV::UNumber(*self as u64)
    }

    fn into_field_data(&self) -> (r: FieldData) {
        FieldData::UNumber(*self as u64)
    }
}

impl IntoFieldData for u64 {
    open spec fn field_data_spec(&self) -> FieldDataV {
        FieldDataV::UNumber(*self)
    }

    fn into_field_data(&self) -> (r: FieldData) {
        FieldData::UNumber(*self)
    }
}

impl IntoFieldData for i8 {
    open spec fn field_data_spec(&self) -> FieldDataV {
        FieldDataV::Number(*self as i64)
    }

    fn into_field_data(&self) -> (r: FieldData) {
        FieldData::Number(*self as i64)
    }
}

impl IntoFieldData for i16 {
    open spec fn field_data_spec(&self) -> FieldDataV {
        FieldDataV::Number(*self as i64)
    }

    fn into_field_data(&self) -> (r: FieldData) {
        FieldData::Number(*self as i64)
    }
}

impl IntoFieldData for i32 {
    open spec fn field_data_spec(&self) -> FieldDataV {
        FieldDataV::Number(*self as i64)
    }

    fn into_field_data(&self) -> (r: FieldData) {
        FieldData::Number(*self as i64)
    }
}

impl IntoFieldData for i64 {
    open spec fn field_data_spec(&self) -> FieldDataV {
        FieldDataV::Number(*self)
    }

    fn into_field_data(&self) -> (r: FieldData) {
        FieldData::Number(*self)
    }
}

impl IntoFieldData for &str {
    open spec fn field_data_spec(&self) -> FieldDataV {
        FieldDataV::Str((*self)@)
    }

    fn into_field_data(&self) -> (r: FieldData) {
        FieldData::Str(String::from_str(*self))
    }
}

impl IntoFieldData for String {
    open spec fn field_data_spec(&self) -> FieldDataV {
        FieldDataV::Str(self@)
    }

    fn into_field_data(&self) -> (r: FieldData) {
        FieldData::Str(self.clone())
    }
}

/// Container struct for tag attributes.
#[derive(Debug)]
pub struct Tag {
    pub name: String,
    pub value: String,
}

impl PartialEq for Tag {
    fn eq(&self, other: &Self) -> (r: bool) {
        self.name == other.name && self.value == other.value
    }
}

impl vstd::std_specs::cmp::PartialEqSpecImpl for Tag {
    open spec fn obeys_eq_spec() -> bool {
        true
    }

    open spec fn eq_spec(&self, other: &Self) -> bool {
        self@ == other@
    }
}

impl Clone for Tag {
    fn clone(&self) -> (r: Self)
        ensures
            r == *self,
    {
        Tag { name: self.name.clone(), value: self.value.clone() }
    }
}

/// The mathematical value of a [`Tag`].
#[verifier::ext_equal]
pub ghost struct TagV {
    pub name: Seq<char>,
    pub value: Seq<char>,
}

impl View for Tag {
    type V = TagV;

    open spec fn view(&self) -> TagV {
        TagV { name: self.name@, value: self.value@ }
    }
}

impl DeepView for Tag {
    type V = TagV;

    open spec fn deep_view(&self) -> TagV {
        self.view()
    }
}

/// Container struct for field attributes.
#[derive(Debug)]
pub struct Field {
    pub name: String,
    pub value: FieldData,
}

impl PartialEq for Field {
    fn eq(&self, other: &Self) -> (r: bool) {
        self.name == other.name && self.value == other.value
    }
}

impl vstd::std_specs::cmp::PartialEqSpecImpl for Field {
    open spec fn obeys_eq_spec() -> bool {
        true
    }

    open spec fn eq_spec(&self, other: &Self) -> bool {
        self@ == other@
    }
}

impl Clone for Field {
    fn clone(&self) -> (r: Self)
        ensures
            r == *self,
    {
        Field { name: self.name.clone(), value: self.value.clone() }
    }
}

/// The mathematical value of a [`Field`].
#[verifier::ext_equal]
pub ghost struct FieldV {
    pub name: Seq<char>,
    pub value: FieldDataV,
}

impl View for Field {
    type V = FieldV;

    open spec fn view(&self) -> FieldV {
        FieldV { name: self.name@, value: self.value@ }
    }
}

impl DeepView for Field {
    type V = FieldV;

    open spec fn deep_view(&self) -> FieldV {
        self.view()
    }
}

/// Different types of data collections that can be in Influx.
#[derive(Debug)]
pub enum Attr {
    Tag(Tag),
    Field(Field),
}

/// The mathematical value of an [`Attr`].
#[verifier::ext_equal]
pub ghost enum AttrV {
    Tag(TagV),
    Field(FieldV),
}

impl View for Attr {
    type V = AttrV;

    open spec fn view(&self) -> AttrV {
        match self {
            Attr::Tag(t) => AttrV::Tag(t@),
            Attr::Field(f) => AttrV::Field(f@),
        }
    }
}

impl DeepView for Attr {
    type V = AttrV;

    open spec fn deep_view(&self) -> AttrV {
        self.view()
    }
}

/// One character of escaped text: a literal space becomes a backslash
/// followed by a space; every other character stands unchanged.
pub open spec fn escaped_char(c: char) -> Seq<char> {
    if c == ' ' {
        seq!['\\', ' ']
    } else {
        seq![c]
    }
}

/// Text with every literal space escaped as a backslash followed by a space.
pub open spec fn escaped_text(s: Seq<char>) -> Seq<char>
    decreases s.len(),
{
    if s.len() == 0 {
        Seq::empty()
    } else {
        escaped_char(s[0]) + escaped_text(s.drop_first())
    }
}

proof fn lemma_escaped_text_push(s: Seq<char>, c: char)
    ensures
        escaped_text(s.push(c)) == escaped_text(s) + escaped_char(c),
    decreases s.len(),
{
    if s.len() == 0 {
        assert(s.push(c).drop_first() =~= Seq::<char>::empty());
        assert(s.push(c)[0] == c);
        assert(escaped_text(s.push(c)) == escaped_char(c) + escaped_text(Seq::<char>::empty()));
        assert(escaped_char(c) + escaped_text(Seq::<char>::empty()) =~= escaped_char(c));
        assert(s =~= Seq::<char>::empty());
        assert(escaped_text(s) + escaped_char(c) =~= escaped_char(c));
    } else {
        assert(s.push(c).drop_first() =~= s.drop_first().push(c));
        lemma_escaped_text_push(s.drop_first(), c);
        assert(s.push(c)[0] == s[0]);
        assert(escaped_text(s.push(c)) == escaped_char(s[0]) + (escaped_text(s.drop_first())
            + escaped_char(c)));
        assert(escaped_char(s[0]) + (escaped_text(s.drop_first()) + escaped_char(c)) =~= (
        escaped_char(s[0]) + escaped_text(s.drop_first())) + escaped_char(c));
    }
}

/// Escapes every literal space in `s` as a backslash followed by a space.
pub fn escape_spaces(s: &str) -> (r: String)
    ensures
        r@ == escaped_text(s@),
{
    let n = s.unicode_len();
    let mut r = String::new();
    let mut i: usize = 0;
    while i < n
        invariant
            n == s@.len(),
            i <= n,
            r@ == escaped_text(s@.take(i as int)),
        decreases n - i,
    {
        let c = s.get_char(i);
        if c == ' ' {
            proof {
                reveal_strlit("\\ ");
            }
            assert("\\ "@ =~= escaped_char(' '));
            r.append("\\ ");
        } else {
            let piece = s.substring_char(i, i + 1);
            assert(piece@ =~= escaped_char(s@[i as int]));
            r.append(piece);
        }
        proof {
            lemma_escaped_text_push(s@.take(i as int), s@[i as int]);
            assert(s@.take(i as int).push(s@[i as int]) =~= s@.take(i + 1 as int));
        }
        i = i + 1;
    }
    proof {
        assert(s@.take(n as int) =~= s@);
    }
    r
}

/// The rendered text of one field value: `true`/`false` for booleans, decimal
/// digits suffixed `u` for unsigned and `i` for signed integers, the float's
/// decimal text verbatim, and text wrapped in double quotes.
pub open spec fn field_data_text(d: FieldDataV) -> Seq<char> {
    match d {
        FieldDataV::Boolean(b) => if b {
            seq!['t', 'r', 'u', 'e']
        } else {
            seq!['f', 'a', 'l', 's', 'e']
        },
        FieldDataV::UNumber(n) => dec_digits(n as nat) + seq!['u'],
        FieldDataV::Number(n) => signed_dec_digits(n as int) + seq!['i'],
        FieldDataV::Float(s) => s,
        FieldDataV::Str(s) => seq!['"'] + s + seq!['"'],
    }
}

/// Renders one field value as line-protocol text.
pub fn get_field_string(value: &FieldData) -> (r: String)
    ensures
        r@ == field_data_text(value@),
{
    match value {
        FieldData::Boolean(b) => {
            if *b {
                proof {
                    reveal_strlit("true");
                }
                assert("true"@ =~= field_data_text(FieldDataV::Boolean(true)));
                String::from_str("true")
            } else {
                proof {
                    reveal_strlit("false");
                }
                assert("false"@ =~= field_data_text(FieldDataV::Boolean(false)));
                String::from_str("false")
            }
        },
        FieldData::UNumber(n) => {
            proof {
                reveal_strlit("u");
            }
            assert("u"@ =~= seq!['u']);
            u64_text(*n).concat("u")
        },
        FieldData::Number(n) => {
            proof {
                reveal_strlit("i");
            }
            assert("i"@ =~= seq!['i']);
            i64_text(*n).concat("i")
        },
        FieldData::Float(s) => s.clone(),
        FieldData::Str(s) => {
            proof {
                reveal_strlit("\"");
            }
            assert("\""@ =~= seq!['"']);
            let r = String::from_str("\"").concat(s.as_str()).concat("\"");
            assert(r@ =~= seq!['"'] + s@ + seq!['"']);
            r
        },
    }
}

/// One attribute as rendered `name=value` text: a tag's name and value each
/// with spaces escaped; a field's name verbatim, with its rendered value.
pub open spec fn attr_text(a: AttrV) -> Seq<char> {
    match a {
        AttrV::Tag(t) => escaped_text(t.name) + seq!['='] + escaped_text(t.value),
        AttrV::Field(f) => f.name + seq!['='] + field_data_text(f.value),
    }
}

fn render_attr(a: &Attr) -> (r: String)
    ensures
        r@ == attr_text(a@),
{
    proof {
        reveal_strlit("=");
    }
    assert("="@ =~= seq!['=']);
    match a {
        Attr::Tag(t) => {
            let mut r = escape_spaces(t.name.as_str());
            r.append("=");
            let v = escape_spaces(t.value.as_str());
            r.append(v.as_str());
            assert(r@ =~= attr_text(a@));
            r
        },
        Attr::Field(f) => {
            let mut r = f.name.clone();
            r.append("=");
            let v = get_field_string(&f.value);
            r.append(v.as_str());
            assert(r@ =~= attr_text(a@));
            r
        },
    }
}

/// `items` joined with a comma between consecutive elements.
pub open spec fn join_comma(items: Seq<Seq<char>>) -> Seq<char>
    decreases items.len(),
{
    if items.len() == 0 {
        Seq::empty()
    } else if items.len() == 1 {
        items[0]
    } else {
        join_comma(items.drop_last()) + seq![','] + items.last()
    }
}

/// The full rendering of an attribute set: every attribute as a `name=value`
/// string, the strings sorted lexicographically as opaque whole strings, and
/// the sorted strings joined with commas.
pub open spec fn attrs_text(attrs: Seq<AttrV>) -> Seq<char> {
    join_comma(lex_sort(attrs.map_values(|a: AttrV| attr_text(a))))
}

/// Renders an attribute set as its comma-joined, whole-string-sorted
/// `name=value` pairs. An empty set renders as the empty string.
pub fn format_attr(attrs: Vec<Attr>) -> (r: String)
    ensures
        r@ == attrs_text(attrs.deep_view()),
{
    let ghost target = attrs.deep_view().map_values(|a: AttrV| attr_text(a));
    let mut sorted: Vec<String> = Vec::new();
    let mut i: usize = 0;
    while i < attrs.len()
        invariant
            i <= attrs@.len(),
            target == attrs.deep_view().map_values(|a: AttrV| attr_text(a)),
            target.len() == attrs@.len(),
            texts_of(sorted@) == lex_sort(target.take(i as int)),
        decreases attrs@.len() - i,
    {
        let s = render_attr(&attrs[i]);
        assert(s@ == target[i as int]);
        insert_sorted(&mut sorted, s);
        proof {
            assert(target.take(i + 1 as int).drop_last() =~= target.take(i as int));
            assert(target.take(i + 1 as int).last() == target[i as int]);
        }
        i = i + 1;
    }
    proof {
        assert(target.take(attrs@.len() as int) =~= target);
    }
    let ghost sorted_texts = texts_of(sorted@);
    let mut out = String::new();
    let mut k: usize = 0;
    while k < sorted.len()
        invariant
            k <= sorted@.len(),
            sorted_texts == texts_of(sorted@),
            sorted_texts.len() == sorted@.len(),
            out@ == join_comma(sorted_texts.take(k as int)),
        decreases sorted@.len() - k,
    {
        if k > 0 {
            proof {
                reveal_strlit(",");
            }
            assert(","@ =~= seq![',']);
            out.append(",");
        }
        out.append(sorted[k].as_str());
        proof {
            assert(sorted_texts.take(k + 1 as int).drop_last() =~= sorted_texts.take(k as int));
            assert(sorted_texts.take(k + 1 as int).last() == sorted_texts[k as int]);
        }
        k = k + 1;
    }
    proof {
        assert(sorted_texts.take(sorted@.len() as int) =~= sorted_texts);
    }
    out
}

/// One assembled line: the measurement, a comma and the rendered tags when
/// any tag is present, a space, the rendered fields, a space and the decimal
/// timestamp when one is present, and a single terminating newline.
pub open spec fn line_text(
    measurement: Seq<char>,
    tags: Option<Seq<char>>,
    fields: Seq<char>,
    timestamp: Option<u64>,
) -> Seq<char> {
    (match tags {
        Some(t) => measurement + seq![','] + t,
        None => measurement,
    }) + seq![' '] + fields + (match timestamp {
        Some(n) => seq![' '] + dec_digits(n as nat),
        None => Seq::empty(),
    }) + seq!['\n']
}

/// Container struct for a finished telegraf line-protocol line.
#[derive(Debug)]
pub struct LineProtocol(String);

impl LineProtocol {
    /// Assembles the terminated wire line from the rendered segments: the
    /// comma-led tag segment only when tags are present, and the space-led
    /// decimal timestamp only when one is present.
    pub fn new(
        measurement: String,
        tags: Option<String>,
        fields: String,
        timestamp: Option<u64>,
    ) -> (r: Self)
        ensures
            r@ == line_text(measurement@, tags.deep_view(), fields@, timestamp),
    {
        proof {
            reveal_strlit(",");
            reveal_strlit(" ");
            reveal_strlit("\n");
        }
        assert(","@ =~= seq![',']);
        assert(" "@ =~= seq![' ']);
        assert("\n"@ =~= seq!['\n']);
        let mut line = measurement;
        match &tags {
            Some(t) => {
                line.append(",");
                line.append(t.as_str());
            },
            None => {},
        }
        line.append(" ");
        line.append(fields.as_str());
        match timestamp {
            Some(n) => {
                line.append(" ");
                let digits = u64_text(n);
                line.append(digits.as_str());
            },
            None => {},
        }
        line.append("\n");
        assert(line@ =~= line_text(measurement@, tags.deep_view(), fields@, timestamp));
        LineProtocol(line)
    }

    /// The rendered line, including its trailing newline.
    pub fn to_str(&self) -> (r: &str)
        ensures
            r@ == self@,
    {
        self.0.as_str()
    }
}

impl View for LineProtocol {
    type V = Seq<char>;

    closed spec fn view(&self) -> Seq<char> {
        self.0@
    }
}

} // verus!
