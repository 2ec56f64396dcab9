//! The encoder's guarantees that span more than one function: purity of
//! encoding, order-insensitivity of the attribute formatter, and the shape of
//! every rendered line.

use vstd::prelude::*;

use crate::order::lemma_lex_sort_membership;
use crate::order::lemma_lex_sort_permutation;
use crate::protocol::attr_text;
use crate::protocol::field_data_text;
use crate::protocol::FieldDataV;
use crate::protocol::FieldV;
use crate::protocol::TagV;
use crate::text::dec_digits;
use crate::text::lemma_dec_digits_chars;
use crate::text::lemma_signed_dec_digits_chars;
use crate::text::signed_dec_digits;
use crate::point_text;
use crate::PointV;
use crate::protocol::attrs_text;
use crate::protocol::escaped_char;
use crate::protocol::escaped_text;
use crate::protocol::join_comma;
use crate::protocol::AttrV;
use crate::protocol::LineProtocol;
use crate::Point;

verus! {

/// A space at `i` that is not the second character of a backslash-space
/// escape.
pub open spec fn unescaped_space_at(s: Seq<char>, i: int) -> bool {
    &&& 0 <= i < s.len()
    &&& s[i] == ' '
    &&& (i == 0 || s[i - 1] != '\\')
}

/// Every space in `s` is the second character of a backslash-space escape.
pub open spec fn spaces_escaped(s: Seq<char>) -> bool {
    forall|i: int| !unescaped_space_at(s, i)
}

proof fn lemma_escaped_text_clean(s: Seq<char>)
    requires
        !s.contains('\\'),
    ensures
        spaces_escaped(escaped_text(s)),
        !s.contains('\n') ==> !escaped_text(s).contains('\n'),
        escaped_text(s).len() > 0 ==> escaped_text(s).last() != '\\',
        (escaped_text(s).len() == 0) == (s.len() == 0),
    decreases s.len(),
{
    if s.len() == 0 {
    } else {
        let t = s.drop_first();
        assert(!t.contains('\\')) by {
            if t.contains('\\') {
                let k = choose|k: int| 0 <= k < t.len() && t[k] == '\\';
                assert(s[k + 1] == '\\');
            }
        }
        lemma_escaped_text_clean(t);
        let e0 = escaped_char(s[0]);
        let rest = escaped_text(t);
        assert(s[0] != '\\');
        assert(escaped_text(s) == e0 + rest);
        assert forall|i: int| !unescaped_space_at(escaped_text(s), i) by {
            if 0 <= i < escaped_text(s).len() {
                if i < e0.len() {
                    if s[0] == ' ' {
                        assert(e0 == seq!['\\', ' ']);
                        assert(escaped_text(s)[0] == '\\');
                        if i == 1 {
                            assert(escaped_text(s)[0] == '\\');
                        }
                    } else {
                        assert(e0 == seq![s[0]]);
                        assert(escaped_text(s)[i] == s[0]);
                    }
                } else {
                    let j = i - e0.len();
                    assert(escaped_text(s)[i] == rest[j]);
                    assert(!unescaped_space_at(rest, j));
                    if rest[j] == ' ' {
                        assert(j > 0 && rest[j - 1] == '\\');
                        assert(escaped_text(s)[i - 1] == rest[j - 1]);
                    }
                }
            }
        }
        if !s.contains('\n') {
            assert(s[0] != '\n');
            assert(!t.contains('\n')) by {
                if t.contains('\n') {
                    let k = choose|k: int| 0 <= k < t.len() && t[k] == '\n';
                    assert(s[k + 1] == '\n');
                }
            }
            assert(!escaped_text(s).contains('\n')) by {
                if escaped_text(s).contains('\n') {
                    let k = choose|k: int|
                        0 <= k < escaped_text(s).len() && escaped_text(s)[k] == '\n';
                    if k >= e0.len() {
                        assert(rest[k - e0.len()] == '\n');
                        assert(rest.contains('\n'));
                    }
                }
            }
        }
        if rest.len() > 0 {
            assert(escaped_text(s).last() == rest.last());
        } else {
            assert(escaped_text(s).last() == e0.last());
        }
    }
}

/// A rendered piece of the tag segment: non-empty, free of newlines, every
/// space escaped, and not ending in a bare backslash.
pub open spec fn tag_piece_clean(s: Seq<char>) -> bool {
    &&& spaces_escaped(s)
    &&& !s.contains('\n')
    &&& s.len() > 0
    &&& s.last() != '\\'
}

/// A rendered piece of the field segment: non-empty and wholly free of
/// spaces, backslashes and newlines.
pub open spec fn field_piece_clean(s: Seq<char>) -> bool {
    &&& !s.contains(' ')
    &&& !s.contains('\\')
    &&& !s.contains('\n')
    &&& s.len() > 0
}

proof fn lemma_join_comma_tag_clean(items: Seq<Seq<char>>)
    requires
        items.len() > 0,
        forall|k: int| 0 <= k < items.len() ==> tag_piece_clean(#[trigger] items[k]),
    ensures
        tag_piece_clean(join_comma(items)),
    decreases items.len(),
{
    if items.len() == 1 {
        assert(join_comma(items) == items[0]);
    } else {
        let front = join_comma(items.drop_last());
        let last = items.last();
        lemma_join_comma_tag_clean(items.drop_last());
        let joined = front + seq![','] + last;
        assert(join_comma(items) == joined);
        assert forall|i: int| !unescaped_space_at(joined, i) by {
            if 0 <= i < joined.len() {
                if i < front.len() {
                    assert(joined[i] == front[i]);
                    assert(!unescaped_space_at(front, i));
                    if front[i] == ' ' {
                        assert(joined[i - 1] == front[i - 1]);
                    }
                } else if i == front.len() {
                    assert(joined[i] == ',');
                } else {
                    let j = i - front.len() - 1;
                    assert(joined[i] == last[j]);
                    assert(!unescaped_space_at(last, j));
                    if last[j] == ' ' {
                        assert(j > 0 && last[j - 1] == '\\');
                        assert(joined[i - 1] == last[j - 1]);
                    }
                }
            }
        }
        assert(!joined.contains('\n')) by {
            if joined.contains('\n') {
                let k = choose|k: int| 0 <= k < joined.len() && joined[k] == '\n';
                if k < front.len() {
                    assert(front.contains('\n'));
                } else if k > front.len() {
                    assert(last[k - front.len() - 1] == '\n');
                    assert(last.contains('\n'));
                }
            }
        }
        assert(joined.last() == last.last());
    }
}

proof fn lemma_join_comma_field_clean(items: Seq<Seq<char>>)
    requires
        items.len() > 0,
        forall|k: int| 0 <= k < items.len() ==> field_piece_clean(#[trigger] items[k]),
    ensures
        !join_comma(items).contains(' '),
        !join_comma(items).contains('\\'),
        !join_comma(items).contains('\n'),
        join_comma(items).len() > 0,
        join_comma(items).last() != '\\',
        join_comma(items)[0] != ' ',
    decreases items.len(),
{
    if items.len() == 1 {
        assert(join_comma(items) == items[0]);
        assert(items[0][0] != ' ') by {
            if items[0][0] == ' ' {
                assert(items[0].contains(' '));
            }
        }
        assert(items[0].last() != '\\') by {
            if items[0].last() == '\\' {
                assert(items[0].contains('\\'));
            }
        }
    } else {
        let front = join_comma(items.drop_last());
        let last = items.last();
        lemma_join_comma_field_clean(items.drop_last());
        let joined = front + seq![','] + last;
        assert(join_comma(items) == joined);
        assert(!last.contains(' ') && !last.contains('\\') && !last.contains('\n'));
        assert forall|c: char| c == ' ' || c == '\\' || c == '\n' implies !joined.contains(c) by {
            if joined.contains(c) {
                let k = choose|k: int| 0 <= k < joined.len() && joined[k] == c;
                if k < front.len() {
                    assert(front.contains(c));
                } else if k > front.len() {
                    assert(last[k - front.len() - 1] == c);
                    assert(last.contains(c));
                }
            }
        }
        assert(joined.last() == last.last());
        assert(last.last() != '\\') by {
            if last.last() == '\\' {
                assert(last.contains('\\'));
            }
        }
        assert(joined[0] == front[0]);
    }
}

/// Tag text that cannot itself disturb the line structure: no newlines and
/// no backslashes (spaces are fine; the encoder escapes them).
pub open spec fn tag_clean(t: TagV) -> bool {
    &&& !t.name.contains('\\')
    &&& !t.name.contains('\n')
    &&& !t.value.contains('\\')
    &&& !t.value.contains('\n')
}

/// Field data whose rendered value holds no space, backslash or newline.
/// Boolean and integer renderings always do; text and float renderings do
/// whenever their payload does.
pub open spec fn field_value_spaceless(d: FieldDataV) -> bool {
    match d {
        FieldDataV::Float(s) => !s.contains(' ') && !s.contains('\\') && !s.contains('\n'),
        FieldDataV::Str(s) => !s.contains(' ') && !s.contains('\\') && !s.contains('\n'),
        _ => true,
    }
}

/// A field that cannot itself disturb the line structure: its name and its
/// rendered value hold no space, backslash or newline.
pub open spec fn field_clean(f: FieldV) -> bool {
    &&& !f.name.contains(' ')
    &&& !f.name.contains('\\')
    &&& !f.name.contains('\n')
    &&& field_value_spaceless(f.value)
}

proof fn lemma_tag_attr_clean(t: TagV)
    requires
        tag_clean(t),
    ensures
        tag_piece_clean(attr_text(AttrV::Tag(t))),
{
    lemma_escaped_text_clean(t.name);
    lemma_escaped_text_clean(t.value);
    let en = escaped_text(t.name);
    let ev = escaped_text(t.value);
    let a = en + seq!['='] + ev;
    assert(attr_text(AttrV::Tag(t)) == a);
    assert forall|i: int| !unescaped_space_at(a, i) by {
        if 0 <= i < a.len() {
            if i < en.len() {
                assert(a[i] == en[i]);
                assert(!unescaped_space_at(en, i));
                if en[i] == ' ' {
                    assert(a[i - 1] == en[i - 1]);
                }
            } else if i == en.len() {
                assert(a[i] == '=');
            } else {
                let j = i - en.len() - 1;
                assert(a[i] == ev[j]);
                assert(!unescaped_space_at(ev, j));
                if ev[j] == ' ' {
                    assert(j > 0 && ev[j - 1] == '\\');
                    assert(a[i - 1] == ev[j - 1]);
                }
            }
        }
    }
    assert(!a.contains('\n')) by {
        if a.contains('\n') {
            let k = choose|k: int| 0 <= k < a.len() && a[k] == '\n';
            if k < en.len() {
                assert(en.contains('\n'));
            } else if k > en.len() {
                assert(ev[k - en.len() - 1] == '\n');
                assert(ev.contains('\n'));
            }
        }
    }
    if ev.len() > 0 {
        assert(a.last() == ev.last());
    } else {
        assert(a.last() == '=');
    }
}

proof fn lemma_field_attr_clean(f: FieldV)
    requires
        field_clean(f),
    ensures
        field_piece_clean(attr_text(AttrV::Field(f))),
{
    let vt = field_data_text(f.value);
    assert(!vt.contains(' ') && !vt.contains('\\') && !vt.contains('\n')) by {
        match f.value {
            FieldDataV::Boolean(b) => {
                assert forall|c: char| c == ' ' || c == '\\' || c == '\n' implies !vt.contains(
                    c,
                ) by {
                    if vt.contains(c) {
                        let k = choose|k: int| 0 <= k < vt.len() && vt[k] == c;
                    }
                }
            },
            FieldDataV::UNumber(n) => {
                lemma_dec_digits_chars(n as nat);
                assert forall|c: char| c == ' ' || c == '\\' || c == '\n' implies !vt.contains(
                    c,
                ) by {
                    if vt.contains(c) {
                        let k = choose|k: int| 0 <= k < vt.len() && vt[k] == c;
                        if k < dec_digits(n as nat).len() {
                            assert(vt[k] == dec_digits(n as nat)[k]);
                        } else {
                            assert(vt[k] == 'u');
                        }
                    }
                }
            },
            FieldDataV::Number(n) => {
                lemma_signed_dec_digits_chars(n as int);
                assert forall|c: char| c == ' ' || c == '\\' || c == '\n' implies !vt.contains(
                    c,
                ) by {
                    if vt.contains(c) {
                        let k = choose|k: int| 0 <= k < vt.len() && vt[k] == c;
                        if k < signed_dec_digits(n as int).len() {
                            assert(vt[k] == signed_dec_digits(n as int)[k]);
                        } else {
                            assert(vt[k] == 'i');
                        }
                    }
                }
            },
            FieldDataV::Float(s) => {
                assert forall|c: char| c == ' ' || c == '\\' || c == '\n' implies !vt.contains(
                    c,
                ) by {
                    if vt.contains(c) {
                        let k = choose|k: int| 0 <= k < vt.len() && vt[k] == c;
                        assert(s.contains(c));
                    }
                }
            },
            FieldDataV::Str(s) => {
                assert forall|c: char| c == ' ' || c == '\\' || c == '\n' implies !vt.contains(
                    c,
                ) by {
                    if vt.contains(c) {
                        let k = choose|k: int| 0 <= k < vt.len() && vt[k] == c;
                        if 0 < k < s.len() + 1 {
                            assert(vt[k] == s[k - 1]);
                            assert(s.contains(c));
                        } else {
                            assert(vt[k] == '"');
                        }
                    }
                }
            },
        }
    }
    let a = f.name + seq!['='] + vt;
    assert(attr_text(AttrV::Field(f)) == a);
    assert forall|c: char| c == ' ' || c == '\\' || c == '\n' implies !a.contains(c) by {
        if a.contains(c) {
            let k = choose|k: int| 0 <= k < a.len() && a[k] == c;
            if k < f.name.len() {
                assert(f.name.contains(c));
            } else if k > f.name.len() {
                assert(a[k] == vt[k - f.name.len() - 1]);
                assert(vt.contains(c));
            } else {
                assert(a[k] == '=');
            }
        }
    }
}

/// Encoding is a pure function of a point's contents: whatever two calls of
/// [`Point::to_lp`] return on points with equal values is the same text, so
/// encoding a point twice yields identical bytes.
pub proof fn lemma_to_lp_deterministic(p1: Point, p2: Point, r1: LineProtocol, r2: LineProtocol)
    requires
        p1@ == p2@,
        call_ensures(Point::to_lp, (&p1,), r1),
        call_ensures(Point::to_lp, (&p2,), r2),
    ensures
        r1@ == r2@,
{
}

/// Escaping protects the tag segment: in the rendered `name=value` text of a
/// tag whose name and value hold no backslash of their own, every remaining
/// space is preceded by a backslash. Field text values get no such treatment:
/// [`field_data_text`] emits them verbatim between their quotes.
pub proof fn lemma_tag_spaces_escaped(t: TagV)
    requires
        tag_clean(t),
    ensures
        spaces_escaped(attr_text(AttrV::Tag(t))),
{
    lemma_tag_attr_clean(t);
}

/// The rendered field segment of a point.
pub open spec fn fields_text(p: PointV) -> Seq<char> {
    attrs_text(p.fields.map_values(|f: FieldV| AttrV::Field(f)))
}

/// The head of a point's line: the measurement alone, or the measurement, a
/// comma, and the rendered tag segment.
pub open spec fn head_text(p: PointV) -> Seq<char> {
    if p.tags.len() == 0 {
        p.measurement
    } else {
        p.measurement + seq![','] + attrs_text(p.tags.map_values(|t: TagV| AttrV::Tag(t)))
    }
}

/// A point whose components cannot themselves disturb the line structure: a
/// measurement free of spaces, commas, backslashes and newlines, tags free of
/// backslashes and newlines, and fields whose names and rendered values are
/// free of spaces, backslashes and newlines.
pub open spec fn structural_clean(p: PointV) -> bool {
    &&& !p.measurement.contains(' ')
    &&& !p.measurement.contains('\\')
    &&& !p.measurement.contains('\n')
    &&& !p.measurement.contains(',')
    &&& (forall|k: int| 0 <= k < p.tags.len() ==> tag_clean(#[trigger] p.tags[k]))
    &&& (forall|k: int| 0 <= k < p.fields.len() ==> field_clean(#[trigger] p.fields[k]))
}

/// The shape of every rendered line. For a point with at least one field and
/// components that cannot themselves disturb the structure, the line ends
/// with exactly one newline; exactly one unescaped space separates the
/// measurement-and-tags head from the field segment, with one more unescaped
/// space before the timestamp when one is present, and no unescaped space
/// anywhere else; and when the point has no tags, no comma stands anywhere
/// before the separating space.
pub proof fn lemma_line_shape(p: PointV)
    requires
        p.fields.len() > 0,
        structural_clean(p),
    ensures
        point_text(p).len() > 0,
        point_text(p).last() == '\n',
        forall|i: int| 0 <= i < point_text(p).len() - 1 ==> point_text(p)[i] != '\n',
        unescaped_space_at(point_text(p), head_text(p).len() as int),
        p.timestamp is Some ==> unescaped_space_at(
            point_text(p),
            head_text(p).len() + 1 + fields_text(p).len() as int,
        ),
        forall|i: int|
            unescaped_space_at(point_text(p), i) ==> i == head_text(p).len() || (
            p.timestamp is Some && i == head_text(p).len() + 1 + fields_text(p).len() as int),
        p.tags.len() == 0 ==> forall|i: int|
            0 <= i < head_text(p).len() ==> point_text(p)[i] != ',',
{
    let fattrs = p.fields.map_values(|f: FieldV| AttrV::Field(f));
    let fitems = fattrs.map_values(|x: AttrV| attr_text(x));
    let fsorted = crate::order::lex_sort(fitems);
    let ftext = fields_text(p);
    assert(ftext == join_comma(fsorted));
    lemma_lex_sort_membership(fitems);
    assert forall|k: int| 0 <= k < fsorted.len() implies field_piece_clean(
        #[trigger] fsorted[k],
    ) by {
        assert(fitems.contains(fsorted[k]));
        let j = choose|j: int| 0 <= j < fitems.len() && fitems[j] == fsorted[k];
        assert(fitems[j] == attr_text(fattrs[j]));
        assert(fattrs[j] == AttrV::Field(p.fields[j]));
        lemma_field_attr_clean(p.fields[j]);
    }
    lemma_join_comma_field_clean(fsorted);
    let head = head_text(p);
    if p.tags.len() > 0 {
        let tattrs = p.tags.map_values(|t: TagV| AttrV::Tag(t));
        let titems = tattrs.map_values(|x: AttrV| attr_text(x));
        let tsorted = crate::order::lex_sort(titems);
        lemma_lex_sort_membership(titems);
        assert forall|k: int| 0 <= k < tsorted.len() implies tag_piece_clean(
            #[trigger] tsorted[k],
        ) by {
            assert(titems.contains(tsorted[k]));
            let j = choose|j: int| 0 <= j < titems.len() && titems[j] == tsorted[k];
            assert(titems[j] == attr_text(tattrs[j]));
            assert(tattrs[j] == AttrV::Tag(p.tags[j]));
            lemma_tag_attr_clean(p.tags[j]);
        }
        lemma_join_comma_tag_clean(tsorted);
        assert(head == p.measurement + seq![','] + join_comma(tsorted));
    }
    assert(p.tags.len() > 0 ==> tag_piece_clean(
        attrs_text(p.tags.map_values(|t: TagV| AttrV::Tag(t))),
    ));
    // Facts about the head: no newline, every space escaped, and no bare
    // trailing backslash.
    assert forall|i: int| 0 <= i < head.len() implies head[i] != '\n' by {
        if p.tags.len() == 0 {
            if head[i] == '\n' {
                assert(p.measurement.contains('\n'));
            }
        } else {
            let ttext = attrs_text(p.tags.map_values(|t: TagV| AttrV::Tag(t)));
            if i < p.measurement.len() {
                if head[i] == '\n' {
                    assert(p.measurement.contains('\n'));
                }
            } else if i > p.measurement.len() {
                assert(head[i] == ttext[i - p.measurement.len() - 1]);
                if head[i] == '\n' {
                    assert(ttext.contains('\n'));
                }
            } else {
                assert(head[i] == ',');
            }
        }
    }
    assert forall|i: int| !unescaped_space_at(head, i) by {
        if 0 <= i < head.len() {
            if p.tags.len() == 0 {
                if head[i] == ' ' {
                    assert(p.measurement.contains(' '));
                }
            } else {
                let ttext = attrs_text(p.tags.map_values(|t: TagV| AttrV::Tag(t)));
                if i < p.measurement.len() {
                    if head[i] == ' ' {
                        assert(p.measurement.contains(' '));
                    }
                } else if i > p.measurement.len() {
                    let j = i - p.measurement.len() - 1;
                    assert(head[i] == ttext[j]);
                    assert(!unescaped_space_at(ttext, j));
                    if ttext[j] == ' ' {
                        assert(j > 0 && ttext[j - 1] == '\\');
                        assert(head[i - 1] == ttext[j - 1]);
                    }
                } else {
                    assert(head[i] == ',');
                }
            }
        }
    }
    assert(head.len() > 0 ==> head.last() != '\\') by {
        if head.len() > 0 {
            if p.tags.len() == 0 {
                if head.last() == '\\' {
                    assert(p.measurement.contains('\\'));
                }
            } else {
                let ttext = attrs_text(p.tags.map_values(|t: TagV| AttrV::Tag(t)));
                assert(head.last() == ttext.last());
            }
        }
    }
    // The assembled line.
    let line = point_text(p);
    let sep = head.len() as int;
    let flen = ftext.len() as int;
    let ts_i = sep + 1 + flen;
    match p.timestamp {
        Some(n) => {
            lemma_dec_digits_chars(n as nat);
            assert(line == head + seq![' '] + ftext + (seq![' '] + dec_digits(n as nat))
                + seq!['\n']);
            assert(line.last() == '\n');
            assert forall|i: int| 0 <= i < line.len() - 1 implies line[i] != '\n' by {
                if i < sep {
                    assert(line[i] == head[i]);
                } else if i == sep {
                    assert(line[i] == ' ');
                } else if i < ts_i {
                    assert(line[i] == ftext[i - sep - 1]);
                    if line[i] == '\n' {
                        assert(ftext.contains('\n'));
                    }
                } else if i == ts_i {
                    assert(line[i] == ' ');
                } else {
                    assert(line[i] == dec_digits(n as nat)[i - ts_i - 1]);
                }
            }
            assert(unescaped_space_at(line, sep)) by {
                assert(line[sep] == ' ');
                if sep > 0 {
                    assert(line[sep - 1] == head.last());
                }
            }
            assert(unescaped_space_at(line, ts_i)) by {
                assert(line[ts_i] == ' ');
                assert(line[ts_i - 1] == ftext.last());
                assert(ftext.last() != '\\');
            }
            assert forall|i: int| unescaped_space_at(line, i) implies i == sep || i == ts_i by {
                if i < sep {
                    assert(line[i] == head[i]);
                    assert(!unescaped_space_at(head, i));
                    if head[i] == ' ' {
                        assert(i > 0 && head[i - 1] == '\\');
                        assert(line[i - 1] == head[i - 1]);
                    }
                } else if sep < i < ts_i {
                    assert(line[i] == ftext[i - sep - 1]);
                    if line[i] == ' ' {
                        assert(ftext.contains(' '));
                    }
                } else if ts_i < i < line.len() - 1 {
                    assert(line[i] == dec_digits(n as nat)[i - ts_i - 1]);
                } else if i == line.len() - 1 {
                    assert(line[i] == '\n');
                }
            }
        },
        None => {
            assert(line == head + seq![' '] + ftext + Seq::<char>::empty() + seq!['\n']);
            assert(line.last() == '\n');
            assert forall|i: int| 0 <= i < line.len() - 1 implies line[i] != '\n' by {
                if i < sep {
                    assert(line[i] == head[i]);
                } else if i == sep {
                    assert(line[i] == ' ');
                } else {
                    assert(line[i] == ftext[i - sep - 1]);
                    if line[i] == '\n' {
                        assert(ftext.contains('\n'));
                    }
                }
            }
            assert(unescaped_space_at(line, sep)) by {
                assert(line[sep] == ' ');
                if sep > 0 {
                    assert(line[sep - 1] == head.last());
                }
            }
            assert forall|i: int| unescaped_space_at(line, i) implies i == sep by {
                if i < sep {
                    assert(line[i] == head[i]);
                    assert(!unescaped_space_at(head, i));
                    if head[i] == ' ' {
                        assert(i > 0 && head[i - 1] == '\\');
                        assert(line[i - 1] == head[i - 1]);
                    }
                } else if sep < i < line.len() - 1 {
                    assert(line[i] == ftext[i - sep - 1]);
                    if line[i] == ' ' {
                        assert(ftext.contains(' '));
                    }
                } else if i == line.len() - 1 {
                    assert(line[i] == '\n');
                }
            }
        },
    }
    if p.tags.len() == 0 {
        assert forall|i: int| 0 <= i < head.len() implies line[i] != ',' by {
            assert(line[i] == head[i]);
            assert(head[i] == p.measurement[i]);
            if head[i] == ',' {
                assert(p.measurement.contains(','));
            }
        }
    }
}

/// The attribute formatter sorts the whole rendered `name=value` strings:
/// two attribute lists whose rendered strings agree as a multiset — for
/// instance, one list a permutation of the other, or names and values traded
/// so that the same pair strings arise — format to identical output.
pub proof fn lemma_attrs_text_permutation(a: Seq<AttrV>, b: Seq<AttrV>)
    requires
        a.map_values(|x: AttrV| attr_text(x)).to_multiset() == b.map_values(
            |x: AttrV| attr_text(x),
        ).to_multiset(),
    ensures
        attrs_text(a) == attrs_text(b),
{
    lemma_lex_sort_permutation(
        a.map_values(|x: AttrV| attr_text(x)),
        b.map_values(|x: AttrV| attr_text(x)),
    );
}

} // verus!
