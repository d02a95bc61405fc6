//! The lines of a file of groups.
//!
//! A line that holds a single dash ends a group. A line with exactly one
//! semicolon holds the two coordinates of a location, before and after the
//! semicolon, where a comma may stand for the decimal point. Any other line
//! says nothing.

use vstd::prelude::*;

verus! {

pub const DASH: u8 = 0x2d;

pub const SEMICOLON: u8 = 0x3b;

pub const COMMA: u8 = 0x2c;

pub const POINT: u8 = 0x2e;

/// What a line says.
#[derive(Debug)]
pub enum Line {
    /// The group ends here.
    Separator,
    /// The texts of the two coordinates of a location, with decimal points.
    Coordinates { first: Vec<u8>, second: Vec<u8> },
    /// Nothing.
    Other,
}

/// `text` with a point in place of each comma.
pub open spec fn with_decimal_points(text: Seq<u8>) -> Seq<u8> {
    text.map_values(
        |byte: u8|
            if byte == COMMA {
                POINT
            } else {
                byte
            },
    )
}

/// The one semicolon of `line` stands at `at`.
pub open spec fn splits_at(line: Seq<u8>, at: int) -> bool {
    &&& 0 <= at < line.len()
    &&& line[at] == SEMICOLON
    &&& forall|i: int| 0 <= i < line.len() && i != at ==> line[i] != SEMICOLON
}

/// `line` ends a group.
pub open spec fn is_separator(line: Seq<u8>) -> bool {
    line == seq![DASH]
}

/// Copies `text[from..to]`, with a point in place of each comma.
fn copy_with_decimal_points(text: &[u8], from: usize, to: usize) -> (copy: Vec<u8>)
    requires
        from <= to <= text.len(),
    ensures
        copy@ == with_decimal_points(text@.subrange(from as int, to as int)),
{
    let mut copy: Vec<u8> = Vec::new();
    let mut i: usize = from;
    while i < to
        invariant
            from <= i <= to <= text.len(),
            copy@ == with_decimal_points(text@.subrange(from as int, i as int)),
        decreases to - i,
    {
        let byte = text[i];
        copy.push(if byte == COMMA { POINT } else { byte });
        proof {
            assert(text@.subrange(from as int, i + 1) == text@.subrange(from as int, i as int).push(
                byte,
            ));
            assert(copy@ =~= with_decimal_points(text@.subrange(from as int, i + 1)));
        }
        i += 1;
    }
    copy
}

/// Reads one line, given without its line end.
pub fn read_line(line: &[u8]) -> (read: Line)
    ensures
        match read {
            Line::Separator => is_separator(line@),
            Line::Coordinates { first, second } => exists|at: int|
                {
                    &&& #[trigger] splits_at(line@, at)
                    &&& first@ == with_decimal_points(line@.take(at))
                    &&& second@ == with_decimal_points(line@.skip(at + 1))
                },
            Line::Other => !is_separator(line@) && forall|at: int| !splits_at(line@, at),
        },
{
    if line.len() == 1 && line[0] == DASH {
        assert(line@ =~= seq![DASH]);
        return Line::Separator;
    }
    assert(line@ != seq![DASH]) by {
        if line@ == seq![DASH] {
            assert(line@.len() == 1 && line@[0] == DASH);
        }
    }
    let mut at: usize = 0;
    while at < line.len() && line[at] != SEMICOLON
        invariant
            at <= line.len(),
            forall|i: int| 0 <= i < at ==> line@[i] != SEMICOLON,
        decreases line.len() - at,
    {
        at += 1;
    }
    if at == line.len() {
        return Line::Other;
    }
    let mut i: usize = at + 1;
    while i < line.len()
        invariant
            at < i <= line.len(),
            line@[at as int] == SEMICOLON,
            forall|j: int| 0 <= j < i && j != at ==> line@[j] != SEMICOLON,
        decreases line.len() - i,
    {
        if line[i] == SEMICOLON {
            assert forall|p: int| !splits_at(line@, p) by {
                if splits_at(line@, p) {
                    if p == at {
                        assert(line@[i as int] != SEMICOLON);
                    } else {
                        assert(line@[at as int] != SEMICOLON);
                    }
                }
            }
            return Line::Other;
        }
        i += 1;
    }
    let first = copy_with_decimal_points(line, 0, at);
    let second = copy_with_decimal_points(line, at + 1, line.len());
    proof {
        assert(splits_at(line@, at as int));
        assert(line@.take(at as int) == line@.subrange(0, at as int));
        assert(line@.skip(at + 1) == line@.subrange(at + 1, line.len() as int));
    }
    Line::Coordinates { first, second }
}

} // verus!
