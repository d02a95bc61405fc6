//! The lines of a file of delivery orders.
//!
//! A line holds fields separated by commas. The third field names the city.
//! The eighth and ninth fields hold the whole and the fractional part of the
//! latitude, the tenth and eleventh those of the longitude. White space
//! around a field does not count.

use vstd::prelude::*;

verus! {

pub const FIELD_SEPARATOR: u8 = 0x2c;

pub const DECIMAL_POINT: u8 = 0x2e;

/// How many fields a line must have at least.
pub const MIN_FIELDS: usize = 11;

/// The texts of the two coordinates that a line of orders holds.
#[derive(Debug, PartialEq, Eq)]
pub struct OrderLocation {
    pub latitude: Vec<u8>,
    pub longitude: Vec<u8>,
}

/// The fields of `line`: what stands before, between and after its commas.
/// A line without a comma is one field, and so is an empty line.
pub open spec fn fields_of(line: Seq<u8>) -> Seq<Seq<u8>>
    decreases line.len(),
{
    if line.len() == 0 {
        seq![Seq::empty()]
    } else {
        let before = fields_of(line.drop_last());
        if line.last() == FIELD_SEPARATOR {
            before.push(Seq::empty())
        } else {
            before.update(before.len() - 1, before.last().push(line.last()))
        }
    }
}

/// `fields`, each followed by a comma.
pub open spec fn terminated(fields: Seq<Seq<u8>>) -> Seq<u8>
    decreases fields.len(),
{
    if fields.len() == 0 {
        Seq::empty()
    } else {
        terminated(fields.drop_last()) + fields.last() + seq![FIELD_SEPARATOR]
    }
}

/// `fields` with a comma between each two.
pub open spec fn joined(fields: Seq<Seq<u8>>) -> Seq<u8> {
    terminated(fields.drop_last()) + fields.last()
}

/// The fields of a line hold no comma, and joined by commas they give the
/// line again.
pub proof fn lemma_fields_make_the_line(line: Seq<u8>)
    ensures
        fields_of(line).len() > 0,
        joined(fields_of(line)) == line,
        forall|k: int, i: int|
            0 <= k < fields_of(line).len() && 0 <= i < fields_of(line)[k].len() ==> fields_of(
                line,
            )[k][i] != FIELD_SEPARATOR,
    decreases line.len(),
{
    let fields = fields_of(line);
    if line.len() == 0 {
        assert(fields.drop_last() == Seq::<Seq<u8>>::empty());
        assert(joined(fields) == line);
    } else {
        let shorter = line.drop_last();
        let before = fields_of(shorter);
        lemma_fields_make_the_line(shorter);
        assert(line == shorter.push(line.last()));
        if line.last() == FIELD_SEPARATOR {
            assert(fields.drop_last() == before);
            assert(before == before.drop_last().push(before.last()));
            assert(terminated(before) == joined(before) + seq![FIELD_SEPARATOR]);
            assert(joined(fields) == line);
        } else {
            assert(fields.drop_last() == before.drop_last());
            assert(joined(fields) == line);
            assert forall|k: int, i: int|
                0 <= k < fields.len() && 0 <= i < fields[k].len() implies fields[k][i]
                != FIELD_SEPARATOR by {
                if k < fields.len() - 1 {
                    assert(fields[k] == before[k]);
                } else if i < before.last().len() {
                    assert(fields[k][i] == before.last()[i]);
                }
            }
        }
    }
}

/// The views of `fields`.
pub open spec fn field_views(fields: Seq<Vec<u8>>) -> Seq<Seq<u8>> {
    Seq::new(fields.len(), |k: int| fields[k]@)
}

/// Splits `line` at its commas.
pub fn split_fields(line: &[u8]) -> (fields: Vec<Vec<u8>>)
    ensures
        field_views(fields@) == fields_of(line@),
{
    let mut fields: Vec<Vec<u8>> = Vec::new();
    let mut current: Vec<u8> = Vec::new();
    let mut i: usize = 0;
    while i < line.len()
        invariant
            i <= line.len(),
            field_views(fields@).push(current@) == fields_of(line@.take(i as int)),
        decreases line.len() - i,
    {
        let byte = line[i];
        let ghost before = fields_of(line@.take(i as int));
        proof {
            assert(line@.take(i + 1).drop_last() == line@.take(i as int));
            assert(before.last() == current@);
            assert(before.len() == fields.len() + 1);
        }
        if byte == FIELD_SEPARATOR {
            fields.push(current);
            current = Vec::new();
            proof {
                assert(field_views(fields@) =~= before);
            }
        } else {
            current.push(byte);
            proof {
                assert(field_views(fields@).push(current@) =~= before.update(
                    before.len() - 1,
                    before.last().push(byte),
                ));
            }
        }
        i += 1;
    }
    let ghost done = field_views(fields@);
    fields.push(current);
    proof {
        assert(line@.take(line.len() as int) == line@);
        assert(field_views(fields@) =~= done.push(current@));
    }
    fields
}

/// A byte that is a white-space character by itself: tab, line feed,
/// vertical tab, form feed, carriage return, space.
pub open spec fn is_short_space(byte: u8) -> bool {
    0x09 <= byte <= 0x0d || byte == 0x20
}

/// Two bytes that encode a white-space character: next line, no-break
/// space.
pub open spec fn is_middle_space(first: u8, second: u8) -> bool {
    first == 0xc2 && (second == 0x85 || second == 0xa0)
}

/// Three bytes that encode a white-space character: the ogham space mark,
/// the spaces of fixed width, the line and paragraph separators, the narrow
/// no-break space, the medium mathematical space, the ideographic space.
pub open spec fn is_wide_space(first: u8, second: u8, third: u8) -> bool {
    ||| first == 0xe1 && second == 0x9a && third == 0x80
    ||| first == 0xe2 && second == 0x80 && (0x80 <= third <= 0x8a || third == 0xa8 || third
        == 0xa9 || third == 0xaf)
    ||| first == 0xe2 && second == 0x81 && third == 0x9f
    ||| first == 0xe3 && second == 0x80 && third == 0x80
}

/// How many bytes the white-space character takes that starts at `at` and
/// ends at or before `to`; zero if there is none.
pub open spec fn space_from(text: Seq<u8>, at: int, to: int) -> int {
    if 0 <= at && at + 1 <= to <= text.len() && is_short_space(text[at]) {
        1
    } else if 0 <= at && at + 2 <= to <= text.len() && is_middle_space(text[at], text[at + 1]) {
        2
    } else if 0 <= at && at + 3 <= to <= text.len() && is_wide_space(
        text[at],
        text[at + 1],
        text[at + 2],
    ) {
        3
    } else {
        0
    }
}

/// How many bytes the white-space character takes that ends at `at` and
/// starts at or after `from`; zero if there is none.
pub open spec fn space_until(text: Seq<u8>, from: int, at: int) -> int {
    if 0 <= from <= at - 1 && at <= text.len() && is_short_space(text[at - 1]) {
        1
    } else if 0 <= from <= at - 2 && at <= text.len() && is_middle_space(
        text[at - 2],
        text[at - 1],
    ) {
        2
    } else if 0 <= from <= at - 3 && at <= text.len() && is_wide_space(
        text[at - 3],
        text[at - 2],
        text[at - 1],
    ) {
        3
    } else {
        0
    }
}

/// Where the first character of `text[at..]` stands that is not white
/// space.
pub open spec fn content_start(text: Seq<u8>, at: int) -> int
    decreases text.len() - at,
{
    if space_from(text, at, text.len() as int) > 0 {
        content_start(text, at + space_from(text, at, text.len() as int))
    } else {
        at
    }
}

/// Where the last character of `text[from..at]` ends that is not white
/// space.
pub open spec fn content_end(text: Seq<u8>, from: int, at: int) -> int
    decreases at,
{
    if space_until(text, from, at) > 0 {
        content_end(text, from, at - space_until(text, from, at))
    } else {
        at
    }
}

/// `text` without the white space at its start and at its end.
pub open spec fn trimmed(text: Seq<u8>) -> Seq<u8> {
    let start = content_start(text, 0);
    let end = content_end(text, start, text.len() as int);
    text.subrange(start, end)
}

/// Computes [`space_from`].
fn space_len_from(text: &Vec<u8>, at: usize, to: usize) -> (len: usize)
    requires
        at <= to <= text.len(),
    ensures
        len == space_from(text@, at as int, to as int),
        at + len <= to,
{
    let room = to - at;
    if room >= 1 && (0x09 <= text[at] && text[at] <= 0x0d || text[at] == 0x20) {
        1
    } else if room >= 2 && text[at] == 0xc2 && (text[at + 1] == 0x85 || text[at + 1] == 0xa0) {
        2
    } else if room >= 3 && wide_space(text[at], text[at + 1], text[at + 2]) {
        3
    } else {
        0
    }
}

/// Computes [`space_until`].
fn space_len_until(text: &Vec<u8>, from: usize, at: usize) -> (len: usize)
    requires
        from <= at <= text.len(),
    ensures
        len == space_until(text@, from as int, at as int),
        from + len <= at,
{
    let room = at - from;
    if room >= 1 && (0x09 <= text[at - 1] && text[at - 1] <= 0x0d || text[at - 1] == 0x20) {
        1
    } else if room >= 2 && text[at - 2] == 0xc2 && (text[at - 1] == 0x85 || text[at - 1] == 0xa0) {
        2
    } else if room >= 3 && wide_space(text[at - 3], text[at - 2], text[at - 1]) {
        3
    } else {
        0
    }
}

/// Computes [`is_wide_space`].
fn wide_space(first: u8, second: u8, third: u8) -> (wide: bool)
    ensures
        wide == is_wide_space(first, second, third),
{
    first == 0xe1 && second == 0x9a && third == 0x80 || first == 0xe2 && second == 0x80 && (0x80
        <= third && third <= 0x8a || third == 0xa8 || third == 0xa9 || third == 0xaf) || first
        == 0xe2 && second == 0x81 && third == 0x9f || first == 0xe3 && second == 0x80 && third
        == 0x80
}

/// Appends to `out` the field `text` without the white space around it.
fn push_trimmed(out: &mut Vec<u8>, text: &Vec<u8>)
    ensures
        final(out)@ == old(out)@ + trimmed(text@),
{
    let len = text.len();
    let mut start: usize = 0;
    loop
        invariant
            start <= len,
            len == text.len(),
            content_start(text@, start as int) == content_start(text@, 0),
        ensures
            start <= len,
            start == content_start(text@, 0),
        decreases len - start,
    {
        let space = space_len_from(text, start, len);
        if space == 0 {
            break;
        }
        start += space;
    }
    let mut end: usize = len;
    loop
        invariant
            start <= end <= len,
            len == text.len(),
            content_end(text@, start as int, end as int) == content_end(
                text@,
                start as int,
                len as int,
            ),
        ensures
            start <= end <= len,
            end == content_end(text@, start as int, len as int),
        decreases end,
    {
        let space = space_len_until(text, start, end);
        if space == 0 {
            break;
        }
        end -= space;
    }
    let ghost before = out@;
    let mut i: usize = start;
    while i < end
        invariant
            start <= i <= end <= text.len(),
            out@ == before + text@.subrange(start as int, i as int),
        decreases end - i,
    {
        out.push(text[i]);
        proof {
            assert(text@.subrange(start as int, i + 1) == text@.subrange(start as int, i as int).push(
                text@[i as int],
            ));
        }
        i += 1;
    }
}

/// The field `text` without the white space around it.
pub fn trim_field(text: &Vec<u8>) -> (content: Vec<u8>)
    ensures
        content@ == trimmed(text@),
{
    let mut content: Vec<u8> = Vec::new();
    push_trimmed(&mut content, text);
    assert(Seq::<u8>::empty() + trimmed(text@) == trimmed(text@));
    content
}

/// `byte` in lower case, where it is a capital letter of the ASCII
/// alphabet; else `byte` itself.
pub open spec fn lower_case(byte: u8) -> u8 {
    if 0x41 <= byte <= 0x5a {
        (byte + 0x20) as u8
    } else {
        byte
    }
}

/// `a` and `b` agree but for the case of their ASCII letters.
pub open spec fn same_ignoring_case(a: Seq<u8>, b: Seq<u8>) -> bool {
    &&& a.len() == b.len()
    &&& forall|i: int| 0 <= i < a.len() ==> lower_case(#[trigger] a[i]) == lower_case(b[i])
}

/// Computes [`lower_case`].
fn to_lower_case(byte: u8) -> (lower: u8)
    ensures
        lower == lower_case(byte),
{
    if 0x41 <= byte && byte <= 0x5a {
        byte + 0x20
    } else {
        byte
    }
}

/// Tells whether `a` and `b` agree but for the case of their ASCII letters.
pub fn equals_ignoring_case(a: &[u8], b: &[u8]) -> (same: bool)
    ensures
        same == same_ignoring_case(a@, b@),
{
    if a.len() != b.len() {
        return false;
    }
    let mut i: usize = 0;
    while i < a.len()
        invariant
            i <= a.len(),
            a.len() == b.len(),
            forall|j: int| 0 <= j < i ==> lower_case(#[trigger] a@[j]) == lower_case(b@[j]),
        decreases a.len() - i,
    {
        if to_lower_case(a[i]) != to_lower_case(b[i]) {
            return false;
        }
        i += 1;
    }
    true
}

/// `line` is an order for `city`: it has enough fields, and its third
/// field names the city, whatever the case of the letters.
pub open spec fn is_order_for(line: Seq<u8>, city: Seq<u8>) -> bool {
    let fields = fields_of(line);
    fields.len() >= MIN_FIELDS && same_ignoring_case(trimmed(fields[2]), city)
}

/// The text of a coordinate: its whole part, a decimal point, its
/// fractional part.
pub open spec fn coordinate_text(whole: Seq<u8>, fraction: Seq<u8>) -> Seq<u8> {
    trimmed(whole) + seq![DECIMAL_POINT] + trimmed(fraction)
}

/// Joins the two parts of a coordinate.
fn join_coordinate(whole: &Vec<u8>, fraction: &Vec<u8>) -> (text: Vec<u8>)
    ensures
        text@ == coordinate_text(whole@, fraction@),
{
    let mut text: Vec<u8> = Vec::new();
    push_trimmed(&mut text, whole);
    text.push(DECIMAL_POINT);
    push_trimmed(&mut text, fraction);
    proof {
        assert(Seq::<u8>::empty() + trimmed(whole@) == trimmed(whole@));
        assert(trimmed(whole@).push(DECIMAL_POINT) == trimmed(whole@) + seq![DECIMAL_POINT]);
    }
    text
}

/// Reads one line of orders, given without its line end, and returns the
/// texts of its coordinates if it is an order for `city`.
pub fn read_order(line: &[u8], city: &[u8]) -> (location: Option<OrderLocation>)
    ensures
        location is Some <==> is_order_for(line@, city@),
        location matches Some(found) ==> {
            &&& found.latitude@ == coordinate_text(fields_of(line@)[7], fields_of(line@)[8])
            &&& found.longitude@ == coordinate_text(fields_of(line@)[9], fields_of(line@)[10])
        },
{
    let fields = split_fields(line);
    proof {
        assert(fields@.len() == fields_of(line@).len());
        assert forall|k: int| 0 <= k < fields.len() implies (#[trigger] fields@[k])@ == fields_of(
            line@,
        )[k] by {
            assert(field_views(fields@)[k] == fields@[k]@);
        }
    }
    if fields.len() < MIN_FIELDS {
        return None;
    }
    let named = trim_field(&fields[2]);
    if !equals_ignoring_case(named.as_slice(), city) {
        return None;
    }
    let latitude = join_coordinate(&fields[7], &fields[8]);
    let longitude = join_coordinate(&fields[9], &fields[10]);
    Some(OrderLocation { latitude, longitude })
}

} // verus!
