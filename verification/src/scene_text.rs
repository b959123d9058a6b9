//! Scenes as text: one box to a line, as `x y z size material`.
//!
//! The fields of a line are separated by blanks. A line without fields and a
//! line whose first field begins with `#` say nothing. The first four fields
//! are decimal numbers: an optional sign, digits with an optional point among
//! them, and an optional exponent, which is `e` or `E`, an optional sign and
//! digits. A number is rounded toward zero to a whole number of billionths
//! and clamped to the range of a scalar. The words for infinity and for what
//! is no number (`inf`, `infinity`, `nan`) are no numbers here, since no
//! scalar stands for them. The fifth field names a material of the table
//! that comes with the text.

use vstd::prelude::*;
use crate::bvh::all_valid;
use crate::cube::Cube;
use crate::material::Material;
use crate::scalar::{Scalar, SCALE, clamp_i64, clamp_wide};
use crate::vector::Vector3;

verus! {

/// The materials that a scene can name: `names[i]` is the name of
/// `materials[i]`.
#[derive(Debug)]
pub struct MaterialTable {
    pub names: Vec<Vec<u8>>,
    pub materials: Vec<Material>,
}

/// Why a text is no scene. Lines count from one; fields count from zero, in
/// the order x, y, z, size; `start` and `end` bound the field in the text.
#[derive(Clone, Copy, Debug, PartialEq, Eq, Structural)]
pub enum SceneError {
    /// A line has another number of fields than five.
    FieldCount { line: usize, found: usize },
    /// One of the first four fields is no decimal number.
    InvalidNumber { line: usize, field: usize, start: usize, end: usize },
    /// The fifth field names no material of the table.
    UnknownMaterial { line: usize, start: usize, end: usize },
    /// The size is negative, or so large that the box has no valid bounds.
    InvalidBounds { line: usize },
}

/// What a line of a scene says.
pub enum Line {
    /// Nothing: the line is empty or a comment.
    Nothing,
    Entry(Cube),
    Wrong(SceneError),
}

/// A blank, a tab, a line feed, a vertical tab, a form feed or a carriage
/// return.
pub open spec fn spec_is_blank(b: u8) -> bool {
    b == 32 || (9 <= b <= 13)
}

/// One of the digits `0` to `9`.
pub open spec fn spec_is_digit(b: u8) -> bool {
    48 <= b <= 57
}

/// The first position from `from` up to `to` that holds no blank, and `to`
/// if there is none.
pub open spec fn spec_skip_blanks(text: Seq<u8>, from: int, to: int) -> int
    decreases to - from,
{
    if from >= to {
        to
    } else if spec_is_blank(text[from]) {
        spec_skip_blanks(text, from + 1, to)
    } else {
        from
    }
}

/// The first position from `from` up to `to` that holds a blank, and `to` if
/// there is none.
pub open spec fn spec_field_end(text: Seq<u8>, from: int, to: int) -> int
    decreases to - from,
{
    if from >= to {
        to
    } else if spec_is_blank(text[from]) {
        from
    } else {
        spec_field_end(text, from + 1, to)
    }
}

/// The fields of the text from `from` up to `to`: the longest runs without a
/// blank, each as the positions of its first byte and after its last.
pub open spec fn spec_fields(text: Seq<u8>, from: int, to: int) -> Seq<(int, int)>
    decreases to - from,
{
    let start = spec_skip_blanks(text, from, to);
    let end = spec_field_end(text, start + 1, to);
    if from >= to || start >= to || end <= from || end > to {
        Seq::empty()
    } else {
        seq![(start, end)] + spec_fields(text, end, to)
    }
}

/// The first position from `from` on that holds a line feed, and the length
/// of the text if there is none.
pub open spec fn spec_line_end(text: Seq<u8>, from: int) -> int
    decreases text.len() - from,
{
    if from >= text.len() {
        text.len() as int
    } else if text[from] == 10 {
        from
    } else {
        spec_line_end(text, from + 1)
    }
}

/// The first position from `from` up to `to` that holds no digit, and `to` if
/// there is none.
pub open spec fn spec_digits_end(text: Seq<u8>, from: int, to: int) -> int
    decreases to - from,
{
    if from >= to {
        to
    } else if spec_is_digit(text[from]) {
        spec_digits_end(text, from + 1, to)
    } else {
        from
    }
}

/// The number that the digits from `from` up to `to` spell.
pub open spec fn spec_digits_value(text: Seq<u8>, from: int, to: int) -> nat
    decreases to - from,
{
    if from >= to {
        0
    } else {
        spec_digits_value(text, from, to - 1) * 10 + (text[to - 1] - 48) as nat
    }
}

/// Ten to the power `n`.
pub open spec fn spec_power_of_ten(n: nat) -> nat
    decreases n,
{
    if n == 0 {
        1
    } else {
        10 * spec_power_of_ten((n - 1) as nat)
    }
}

/// What the digits from `from` up to `to`, which stand behind a decimal
/// point, add to a number when the point is moved `places` digits to the
/// right: the number that the first `places` of them spell, with zeros for
/// those that are missing.
pub open spec fn spec_fraction_places(text: Seq<u8>, from: int, to: int, places: int) -> nat {
    if places <= 0 || to < from {
        0
    } else if to - from >= places {
        spec_digits_value(text, from, from + places)
    } else {
        spec_digits_value(text, from, to) * spec_power_of_ten((places - (to - from)) as nat)
    }
}

/// The number that the digits from `whole` up to `point` and, behind the
/// point, from `fraction` up to `end` spell, with the point moved by `places`
/// digits to the right, or to the left if `places` is negative; what is then
/// left behind the point is dropped.
pub open spec fn spec_shifted(
    text: Seq<u8>,
    whole: int,
    point: int,
    fraction: int,
    end: int,
    places: int,
) -> nat {
    if places >= 0 {
        spec_digits_value(text, whole, point) * spec_power_of_ten(places as nat)
            + spec_fraction_places(text, fraction, end, places)
    } else {
        spec_digits_value(text, whole, point + places)
    }
}

/// The position behind the sign of the field that begins at `from`, if it
/// has one.
pub open spec fn spec_after_sign(text: Seq<u8>, from: int, to: int) -> int {
    if from < to && (text[from] == 45 || text[from] == 43) {
        from + 1
    } else {
        from
    }
}

/// Where the parts of the number stand that begins at `from`: its digits
/// before the point begin at `whole` and end at `point`, those behind the
/// point begin at `fraction` and end at `mantissa_end`, and the digits of its
/// exponent, if it has one, begin at `exponent` and end at `end`.
pub struct NumberParts {
    pub whole: int,
    pub point: int,
    pub fraction: int,
    pub mantissa_end: int,
    pub has_exponent: bool,
    pub exponent: int,
    pub end: int,
}

/// The parts of the longest number that begins at `from`.
pub open spec fn spec_number_parts(text: Seq<u8>, from: int, to: int) -> NumberParts {
    let whole = spec_after_sign(text, from, to);
    let point = spec_digits_end(text, whole, to);
    let fraction = if point < to && text[point] == 46 {
        point + 1
    } else {
        point
    };
    let mantissa_end = spec_digits_end(text, fraction, to);
    let has_exponent = mantissa_end < to && (text[mantissa_end] == 101 || text[mantissa_end] == 69);
    let exponent = if has_exponent {
        spec_after_sign(text, mantissa_end + 1, to)
    } else {
        mantissa_end
    };
    let end = if has_exponent {
        spec_digits_end(text, exponent, to)
    } else {
        mantissa_end
    };
    NumberParts { whole, point, fraction, mantissa_end, has_exponent, exponent, end }
}

/// The field from `from` up to `to` is a decimal number: it is not empty, it
/// is a number to its end, it has a digit before its exponent, and its
/// exponent, if it has one, has a digit.
pub open spec fn spec_is_number(text: Seq<u8>, from: int, to: int) -> bool {
    let parts = spec_number_parts(text, from, to);
    &&& from < to
    &&& parts.end == to
    &&& (parts.point - parts.whole) + (parts.mantissa_end - parts.fraction) >= 1
    &&& parts.has_exponent ==> parts.end - parts.exponent >= 1
}

/// The exponent of the number: zero if it has none.
pub open spec fn spec_exponent(text: Seq<u8>, parts: NumberParts) -> int {
    if !parts.has_exponent {
        0
    } else if text[parts.mantissa_end + 1] == 45 {
        -(spec_digits_value(text, parts.exponent, parts.end) as int)
    } else {
        spec_digits_value(text, parts.exponent, parts.end) as int
    }
}

/// The billionths that the number spells, without its sign: its digits with
/// the point moved to the right by the exponent and by nine digits more.
pub open spec fn spec_magnitude(text: Seq<u8>, from: int, to: int) -> nat {
    let parts = spec_number_parts(text, from, to);
    spec_shifted(
        text,
        parts.whole,
        parts.point,
        parts.fraction,
        parts.mantissa_end,
        9 + spec_exponent(text, parts),
    )
}

/// The number that the field from `from` up to `to` spells, rounded toward
/// zero and clamped; `None` if the field is no decimal number.
pub open spec fn spec_number(text: Seq<u8>, from: int, to: int) -> Option<Scalar> {
    if !spec_is_number(text, from, to) {
        None
    } else if text[from] == 45 {
        Some(Scalar { raw: clamp_i64(-(spec_magnitude(text, from, to) as int)) as i64 })
    } else {
        Some(Scalar { raw: clamp_i64(spec_magnitude(text, from, to) as int) as i64 })
    }
}

/// The bytes of the text from `from` up to `to` are the bytes of `name`.
pub open spec fn spec_is_name(text: Seq<u8>, from: int, to: int, name: Seq<u8>) -> bool {
    text.subrange(from, to) == name
}

/// The first position from `k` on at which the table has a material with the
/// name that the text holds from `from` up to `to`, and the number of its
/// materials if there is none.
pub open spec fn spec_find_material(
    table: MaterialTable,
    text: Seq<u8>,
    from: int,
    to: int,
    k: int,
) -> int
    decreases table.names@.len() - k,
{
    if k >= table.names@.len() || k >= table.materials@.len() {
        table.materials@.len() as int
    } else if spec_is_name(text, from, to, table.names@[k]@) {
        k
    } else {
        spec_find_material(table, text, from, to, k + 1)
    }
}

/// What the line from `from` up to `to`, the line with the number `line`,
/// says.
pub open spec fn spec_parse_line(
    text: Seq<u8>,
    table: MaterialTable,
    from: int,
    to: int,
    line: int,
) -> Line {
    let fields = spec_fields(text, from, to);
    if fields.len() == 0 || text[fields[0].0] == 35 {
        Line::Nothing
    } else if fields.len() != 5 {
        Line::Wrong(SceneError::FieldCount { line: line as usize, found: fields.len() as usize })
    } else {
        let x = spec_number(text, fields[0].0, fields[0].1);
        let y = spec_number(text, fields[1].0, fields[1].1);
        let z = spec_number(text, fields[2].0, fields[2].1);
        let size = spec_number(text, fields[3].0, fields[3].1);
        let material = spec_find_material(table, text, fields[4].0, fields[4].1, 0);
        if x.is_none() {
            Line::Wrong(spec_invalid_number(line, 0, fields[0]))
        } else if y.is_none() {
            Line::Wrong(spec_invalid_number(line, 1, fields[1]))
        } else if z.is_none() {
            Line::Wrong(spec_invalid_number(line, 2, fields[2]))
        } else if size.is_none() {
            Line::Wrong(spec_invalid_number(line, 3, fields[3]))
        } else if material >= table.materials@.len() {
            Line::Wrong(
                SceneError::UnknownMaterial {
                    line: line as usize,
                    start: fields[4].0 as usize,
                    end: fields[4].1 as usize,
                },
            )
        } else {
            let cube = Cube::spec_new(
                Vector3 { x: x.unwrap(), y: y.unwrap(), z: z.unwrap() },
                size.unwrap(),
                table.materials@[material],
            );
            if cube.valid() {
                Line::Entry(cube)
            } else {
                Line::Wrong(SceneError::InvalidBounds { line: line as usize })
            }
        }
    }
}

/// The error for a field that is no number.
pub open spec fn spec_invalid_number(line: int, field: int, at: (int, int)) -> SceneError {
    SceneError::InvalidNumber {
        line: line as usize,
        field: field as usize,
        start: at.0 as usize,
        end: at.1 as usize,
    }
}

/// The boxes of the lines of the text from position `from` on, which begins
/// the line with the number `line`, behind the boxes `so_far`; or the error
/// of the first line that is wrong.
pub open spec fn spec_parse_from(
    text: Seq<u8>,
    table: MaterialTable,
    from: int,
    line: int,
    so_far: Seq<Cube>,
) -> Result<Seq<Cube>, SceneError>
    decreases text.len() - from,
{
    if from > text.len() {
        Ok(so_far)
    } else {
        let end = spec_line_end(text, from);
        match spec_parse_line(text, table, from, end, line) {
            Line::Wrong(error) => Err(error),
            Line::Nothing => {
                if end >= text.len() || end < from {
                    Ok(so_far)
                } else {
                    spec_parse_from(text, table, end + 1, line + 1, so_far)
                }
            },
            Line::Entry(cube) => {
                if end >= text.len() || end < from {
                    Ok(so_far.push(cube))
                } else {
                    spec_parse_from(text, table, end + 1, line + 1, so_far.push(cube))
                }
            },
        }
    }
}

/// The boxes of a scene given as text, in the order of its lines; or the
/// error of the first line that is wrong.
pub open spec fn spec_parse_scene(text: Seq<u8>, table: MaterialTable) -> Result<
    Seq<Cube>,
    SceneError,
> {
    spec_parse_from(text, table, 0, 1, Seq::empty())
}

/// Each field lies in the range it was taken from, is not empty, holds no
/// blank, and is bounded by blanks or by the ends of the range.
pub proof fn lemma_fields(text: Seq<u8>, from: int, to: int, k: int)
    requires
        0 <= from <= to <= text.len(),
        0 <= k < spec_fields(text, from, to).len(),
    ensures
        from <= spec_fields(text, from, to)[k].0 < spec_fields(text, from, to)[k].1 <= to,
        forall|i: int|
            spec_fields(text, from, to)[k].0 <= i < spec_fields(text, from, to)[k].1
                ==> !spec_is_blank(#[trigger] text[i]),
        spec_fields(text, from, to)[k].1 < to ==> spec_is_blank(
            text[spec_fields(text, from, to)[k].1],
        ),
        spec_fields(text, from, to)[k].0 > from ==> spec_is_blank(
            text[spec_fields(text, from, to)[k].0 - 1],
        ),
    decreases to - from,
{
    let start = spec_skip_blanks(text, from, to);
    lemma_skip_blanks(text, from, to);
    if from < to && start < to {
        let end = spec_field_end(text, start + 1, to);
        lemma_field_end(text, start + 1, to);
        assert(from < end <= to);
        if k > 0 {
            lemma_fields(text, end, to, k - 1);
            assert(spec_fields(text, from, to)[k] == spec_fields(text, end, to)[k - 1]);
            if spec_fields(text, end, to)[k - 1].0 == end {
                lemma_skip_blanks(text, end, to);
            }
        }
    }
}

/// What lies before the first byte that is no blank is blank.
pub proof fn lemma_skip_blanks(text: Seq<u8>, from: int, to: int)
    requires
        0 <= from <= to <= text.len(),
    ensures
        from <= spec_skip_blanks(text, from, to) <= to,
        forall|i: int| from <= i < spec_skip_blanks(text, from, to) ==> spec_is_blank(#[trigger] text[i]),
        spec_skip_blanks(text, from, to) < to ==> !spec_is_blank(
            text[spec_skip_blanks(text, from, to)],
        ),
    decreases to - from,
{
    if from < to && spec_is_blank(text[from]) {
        lemma_skip_blanks(text, from + 1, to);
    }
}

/// What lies before the first blank is no blank.
pub proof fn lemma_field_end(text: Seq<u8>, from: int, to: int)
    requires
        0 <= from <= to <= text.len(),
    ensures
        from <= spec_field_end(text, from, to) <= to,
        forall|i: int| from <= i < spec_field_end(text, from, to) ==> !spec_is_blank(#[trigger] text[i]),
        spec_field_end(text, from, to) < to ==> spec_is_blank(text[spec_field_end(text, from, to)]),
    decreases to - from,
{
    if from < to && !spec_is_blank(text[from]) {
        lemma_field_end(text, from + 1, to);
    }
}

/// The magnitude from which on a number lies beyond the range of a scalar
/// for certain: larger magnitudes are read as this one.
pub const MAGNITUDE_LIMIT: u128 = 10_000_000_000_000_000_000;

/// The exponent from which on a number is zero or out of range whatever its
/// digits, since no text has so many digits: larger exponents are read as
/// this one.
pub const EXPONENT_LIMIT: u128 = 0x40_0000_0000_0000_0000;

/// `x`, and `limit` if `x` is larger.
pub open spec fn spec_at_most(x: nat, limit: nat) -> nat {
    if x < limit {
        x
    } else {
        limit
    }
}

/// The digits of a number spell less than ten to the power of their count.
pub proof fn lemma_digits_bound(text: Seq<u8>, from: int, to: int)
    requires
        0 <= from <= to <= text.len(),
        forall|i: int| from <= i < to ==> spec_is_digit(#[trigger] text[i]),
    ensures
        spec_digits_value(text, from, to) < spec_power_of_ten((to - from) as nat),
    decreases to - from,
{
    if from < to {
        lemma_digits_bound(text, from, to - 1);
    }
}

/// What lies before the first byte that is no digit are digits.
pub proof fn lemma_digits_end(text: Seq<u8>, from: int, to: int)
    requires
        0 <= from <= to <= text.len(),
    ensures
        from <= spec_digits_end(text, from, to) <= to,
        forall|i: int| from <= i < spec_digits_end(text, from, to) ==> spec_is_digit(#[trigger] text[i]),
        spec_digits_end(text, from, to) < to ==> !spec_is_digit(
            text[spec_digits_end(text, from, to)],
        ),
    decreases to - from,
{
    if from < to && spec_is_digit(text[from]) {
        lemma_digits_end(text, from + 1, to);
    }
}

/// The end of a line lies in the text, at a line feed or at the end.
pub proof fn lemma_line_end(text: Seq<u8>, from: int)
    requires
        0 <= from <= text.len(),
    ensures
        from <= spec_line_end(text, from) <= text.len(),
        forall|i: int| from <= i < spec_line_end(text, from) ==> #[trigger] text[i] != 10,
        spec_line_end(text, from) < text.len() ==> text[spec_line_end(text, from)] == 10,
    decreases text.len() - from,
{
    if from < text.len() && text[from] != 10 {
        lemma_line_end(text, from + 1);
    }
}

/// Whether the byte is a blank.
fn is_blank(b: u8) -> (r: bool)
    ensures
        r == spec_is_blank(b),
{
    b == 32 || (9 <= b && b <= 13)
}

/// Whether the byte is a digit.
fn is_digit(b: u8) -> (r: bool)
    ensures
        r == spec_is_digit(b),
{
    48 <= b && b <= 57
}

/// The first position from `from` up to `to` that holds no blank.
fn skip_blanks(text: &Vec<u8>, from: usize, to: usize) -> (r: usize)
    requires
        from <= to <= text.len(),
    ensures
        r == spec_skip_blanks(text@, from as int, to as int),
        from <= r <= to,
{
    let mut i: usize = from;
    while i < to && is_blank(text[i])
        invariant
            from <= i <= to <= text.len(),
            spec_skip_blanks(text@, from as int, to as int) == spec_skip_blanks(
                text@,
                i as int,
                to as int,
            ),
        decreases to - i,
    {
        i = i + 1;
    }
    i
}

/// The first position from `from` up to `to` that holds a blank.
fn field_end(text: &Vec<u8>, from: usize, to: usize) -> (r: usize)
    requires
        from <= to <= text.len(),
    ensures
        r == spec_field_end(text@, from as int, to as int),
        from <= r <= to,
{
    let mut i: usize = from;
    while i < to && !is_blank(text[i])
        invariant
            from <= i <= to <= text.len(),
            spec_field_end(text@, from as int, to as int) == spec_field_end(
                text@,
                i as int,
                to as int,
            ),
        decreases to - i,
    {
        i = i + 1;
    }
    i
}

/// The first position from `from` up to `to` that holds no digit.
fn digits_end(text: &Vec<u8>, from: usize, to: usize) -> (r: usize)
    requires
        from <= to <= text.len(),
    ensures
        r == spec_digits_end(text@, from as int, to as int),
        from <= r <= to,
{
    let mut i: usize = from;
    while i < to && is_digit(text[i])
        invariant
            from <= i <= to <= text.len(),
            spec_digits_end(text@, from as int, to as int) == spec_digits_end(
                text@,
                i as int,
                to as int,
            ),
        decreases to - i,
    {
        i = i + 1;
    }
    i
}

/// The first position from `from` on that holds a line feed.
fn line_end(text: &Vec<u8>, from: usize) -> (r: usize)
    requires
        from <= text.len(),
    ensures
        r == spec_line_end(text@, from as int),
        from <= r <= text.len(),
{
    let mut i: usize = from;
    while i < text.len() && text[i] != 10
        invariant
            from <= i <= text.len(),
            spec_line_end(text@, from as int) == spec_line_end(text@, i as int),
        decreases text.len() - i,
    {
        i = i + 1;
    }
    i
}

/// The positions of a field as they stand in contracts.
pub open spec fn spec_span(field: (usize, usize)) -> (int, int) {
    (field.0 as int, field.1 as int)
}

/// The fields of the text from `from` up to `to`.
pub fn fields(text: &Vec<u8>, from: usize, to: usize) -> (out: Vec<(usize, usize)>)
    requires
        from <= to <= text.len(),
    ensures
        out@.map_values(|f: (usize, usize)| spec_span(f)) == spec_fields(
            text@,
            from as int,
            to as int,
        ),
{
    let mut out: Vec<(usize, usize)> = Vec::new();
    let mut cur: usize = from;
    loop
        invariant
            from <= cur <= to <= text.len(),
            spec_fields(text@, from as int, to as int) == out@.map_values(
                |f: (usize, usize)| spec_span(f),
            ) + spec_fields(text@, cur as int, to as int),
        ensures
            out@.map_values(|f: (usize, usize)| spec_span(f)) == spec_fields(
                text@,
                from as int,
                to as int,
            ),
        decreases to - cur,
    {
        let start: usize = skip_blanks(text, cur, to);
        if cur >= to || start >= to {
            proof {
                assert(spec_fields(text@, cur as int, to as int) =~= Seq::empty());
                assert(out@.map_values(|f: (usize, usize)| spec_span(f)) + Seq::<(int, int)>::empty()
                    =~= out@.map_values(|f: (usize, usize)| spec_span(f)));
            }
            break ;
        }
        let end: usize = field_end(text, start + 1, to);
        let ghost before = out@;
        out.push((start, end));
        proof {
            assert(out@.map_values(|f: (usize, usize)| spec_span(f)) =~= before.map_values(
                |f: (usize, usize)| spec_span(f),
            ) + seq![(start as int, end as int)]);
            assert(spec_fields(text@, cur as int, to as int) == seq![(start as int, end as int)]
                + spec_fields(text@, end as int, to as int));
            assert(before.map_values(|f: (usize, usize)| spec_span(f)) + (seq![
                (start as int, end as int),
            ] + spec_fields(text@, end as int, to as int)) =~= (before.map_values(
                |f: (usize, usize)| spec_span(f),
            ) + seq![(start as int, end as int)]) + spec_fields(text@, end as int, to as int));
        }
        cur = end;
    }
    out
}

/// The number that the digits from `from` up to `to` spell, and `limit` if
/// it is larger.
fn read_digits(text: &Vec<u8>, from: usize, to: usize, limit: u128) -> (r: u128)
    requires
        from <= to <= text.len(),
        forall|i: int| from <= i < to ==> spec_is_digit(#[trigger] text@[i]),
        limit <= 0x1_0000_0000_0000_0000_0000,
    ensures
        r == spec_at_most(spec_digits_value(text@, from as int, to as int), limit as nat),
{
    let mut acc: u128 = 0;
    let mut i: usize = from;
    while i < to
        invariant
            from <= i <= to <= text.len(),
            forall|j: int| from <= j < to ==> spec_is_digit(#[trigger] text@[j]),
            limit <= 0x1_0000_0000_0000_0000_0000,
            acc == spec_at_most(spec_digits_value(text@, from as int, i as int), limit as nat),
        decreases to - i,
    {
        let digit: u128 = (text[i] - 48) as u128;
        proof {
            assert(spec_digits_value(text@, from as int, i + 1) == spec_digits_value(
                text@,
                from as int,
                i as int,
            ) * 10 + digit);
        }
        let next: u128 = acc * 10 + digit;
        acc = if next > limit {
            limit
        } else {
            next
        };
        i = i + 1;
    }
    acc
}

/// Ten to the power `n` is ten times ten to the power `n - 1`, it is not
/// zero, and it grows with `n`.
pub proof fn lemma_power_of_ten(n: nat, m: nat)
    requires
        n <= m,
    ensures
        m > 0 ==> spec_power_of_ten(m) == 10 * spec_power_of_ten((m - 1) as nat),
        1 <= spec_power_of_ten(n) <= spec_power_of_ten(m),
        n == 20 ==> spec_power_of_ten(n) == 100_000_000_000_000_000_000,
    decreases m,
{
    if n == 20 {
        assert(spec_power_of_ten(20) == 100_000_000_000_000_000_000) by {
            reveal_with_fuel(spec_power_of_ten, 21);
        }
    }
    if m > n {
        lemma_power_of_ten(n, (m - 1) as nat);
    } else if n > 0 {
        lemma_power_of_ten((n - 1) as nat, (n - 1) as nat);
    }
}

/// Ten to the power `n + m` is ten to the power `n` times ten to the power
/// `m`.
pub proof fn lemma_power_of_ten_adds(n: nat, m: nat)
    ensures
        spec_power_of_ten(n + m) == spec_power_of_ten(n) * spec_power_of_ten(m),
    decreases m,
{
    if m == 0 {
        assert(spec_power_of_ten(n) * 1 == spec_power_of_ten(n));
    } else {
        lemma_power_of_ten_adds(n, (m - 1) as nat);
        let a = spec_power_of_ten(n);
        let b = spec_power_of_ten((m - 1) as nat);
        assert(10 * (a * b) == a * (10 * b)) by (nonlinear_arith);
    }
}

/// The digits of a number spell what those before a place spell, times ten
/// to the power of the count of the others, and what the others spell.
pub proof fn lemma_digits_split(text: Seq<u8>, from: int, at: int, to: int)
    requires
        from <= at <= to,
    ensures
        spec_digits_value(text, from, to) == spec_digits_value(text, from, at) * spec_power_of_ten(
            (to - at) as nat,
        ) + spec_digits_value(text, at, to),
    decreases to - at,
{
    if at == to {
        assert(spec_digits_value(text, from, at) * 1 == spec_digits_value(text, from, at));
    } else {
        lemma_digits_split(text, from, at, to - 1);
        let head = spec_digits_value(text, from, at);
        let p = spec_power_of_ten((to - 1 - at) as nat);
        let tail = spec_digits_value(text, at, to - 1);
        let last = (text[to - 1] - 48) as nat;
        assert(spec_power_of_ten((to - at) as nat) == 10 * p);
        assert((head * p + tail) * 10 + last == head * (10 * p) + (tail * 10 + last))
            by (nonlinear_arith);
    }
}

/// A number `head * d + tail` with `tail` below `d` gives `head` when divided
/// by `d`.
proof fn lemma_divide_off(head: nat, tail: nat, d: nat)
    requires
        tail < d,
    ensures
        (head * d + tail) / d == head,
{
    vstd::arithmetic::div_mod::lemma_fundamental_div_mod_converse(
        (head * d + tail) as int,
        d as int,
        head as int,
        tail as int,
    );
    assert(d * head == head * d) by (nonlinear_arith);
}

/// The number that digits spell with the point moved is the number that all
/// the digits spell together, times the power of ten that is left when the
/// digits behind the point are taken off the move, or divided by it and
/// rounded down: with `f` digits behind the point and a move by `places`, it
/// is `mantissa * 10^(places - f)`.
pub proof fn lemma_shifted_is_scaled(
    text: Seq<u8>,
    whole: int,
    point: int,
    fraction: int,
    end: int,
    places: int,
)
    requires
        0 <= whole <= point <= text.len(),
        0 <= fraction <= end <= text.len(),
        forall|i: int| whole <= i < point ==> spec_is_digit(#[trigger] text[i]),
        forall|i: int| fraction <= i < end ==> spec_is_digit(#[trigger] text[i]),
    ensures
        ({
            let behind = end - fraction;
            let mantissa = spec_digits_value(text, whole, point) * spec_power_of_ten(behind as nat)
                + spec_digits_value(text, fraction, end);
            let shifted = spec_shifted(text, whole, point, fraction, end, places);
            &&& places >= behind ==> shifted == mantissa * spec_power_of_ten(
                (places - behind) as nat,
            )
            &&& places < behind ==> shifted == mantissa / spec_power_of_ten(
                (behind - places) as nat,
            )
        }),
{
    let behind = end - fraction;
    let w = spec_digits_value(text, whole, point);
    let f = spec_digits_value(text, fraction, end);
    let pb = spec_power_of_ten(behind as nat);
    lemma_power_of_ten(0, behind as nat);
    if places >= behind {
        let rest = (places - behind) as nat;
        let pr = spec_power_of_ten(rest);
        lemma_power_of_ten_adds(behind as nat, rest);
        assert((w * pb + f) * pr == w * (pb * pr) + f * pr) by (nonlinear_arith);
        if places == behind {
            assert(pr == 1);
            assert(f * 1 == f);
            if places == 0 {
                assert(f == 0);
            }
        }
    } else if places >= 0 {
        let k = (behind - places) as nat;
        let pk = spec_power_of_ten(k);
        let pp = spec_power_of_ten(places as nat);
        let head = spec_digits_value(text, fraction, fraction + places);
        let tail = spec_digits_value(text, fraction + places, end);
        lemma_digits_split(text, fraction, fraction + places, end);
        lemma_digits_bound(text, fraction + places, end);
        lemma_power_of_ten_adds(places as nat, k);
        assert(w * pb + f == (w * pp + head) * pk + tail) by (nonlinear_arith)
            requires
                pb == pp * pk,
                f == head * pk + tail,
        ;
        lemma_divide_off(w * pp + head, tail, pk);
        if places == 0 {
            assert(head == 0);
            assert(pp == 1);
            assert(w * 1 == w);
        }
    } else {
        let j = (-places) as nat;
        let k = (behind - places) as nat;
        let pk = spec_power_of_ten(k);
        lemma_digits_bound(text, fraction, end);
        if point + places >= whole {
            let pj = spec_power_of_ten(j);
            let head = spec_digits_value(text, whole, point + places);
            let tail = spec_digits_value(text, point + places, point);
            lemma_digits_split(text, whole, point + places, point);
            lemma_digits_bound(text, point + places, point);
            lemma_power_of_ten_adds(j, behind as nat);
            assert(w * pb + f == head * pk + (tail * pb + f) && tail * pb + f < pk)
                by (nonlinear_arith)
                requires
                    pk == pj * pb,
                    w == head * pj + tail,
                    tail < pj,
                    f < pb,
            ;
            lemma_divide_off(head, tail * pb + f, pk);
        } else {
            let all = (point - whole) as nat;
            let more = (j - all) as nat;
            lemma_digits_bound(text, whole, point);
            lemma_power_of_ten_adds(all + behind as nat, more);
            lemma_power_of_ten_adds(all, behind as nat);
            lemma_power_of_ten(0, more);
            let pa = spec_power_of_ten(all);
            let pm = spec_power_of_ten(more);
            assert(w * pb + f < pk) by (nonlinear_arith)
                requires
                    pk == (pa * pb) * pm,
                    pm >= 1,
                    w < pa,
                    f < pb,
                    pb >= 1,
            ;
            assert(0 * pk == 0) by (nonlinear_arith);
            lemma_divide_off(0, w * pb + f, pk);
        }
    }
}

/// A number that is not zero, times a power of ten from the twentieth on, is
/// beyond the limit of magnitudes.
pub proof fn lemma_large_power(a: nat, n: nat)
    requires
        n >= 20,
    ensures
        spec_at_most(a * spec_power_of_ten(n), MAGNITUDE_LIMIT as nat) == if a == 0 {
            0
        } else {
            MAGNITUDE_LIMIT as nat
        },
{
    lemma_power_of_ten(20, n);
    let p = spec_power_of_ten(n);
    if a == 0 {
        assert(a * p == 0) by (nonlinear_arith)
            requires
                a == 0,
        ;
    } else {
        assert(a * p >= p) by (nonlinear_arith)
            requires
                a >= 1,
                p >= 0,
        ;
    }
}

/// `value` times ten to the power `count`, and [`MAGNITUDE_LIMIT`] if that
/// is larger.
fn shift_left(value: u128, count: u128) -> (r: u128)
    requires
        value <= MAGNITUDE_LIMIT,
    ensures
        r == spec_at_most(
            (value * spec_power_of_ten(count as nat)) as nat,
            MAGNITUDE_LIMIT as nat,
        ),
{
    let mut acc: u128 = value;
    let mut i: u128 = 0;
    proof {
        assert(spec_power_of_ten(0) == 1);
        assert(value * 1 == value);
    }
    while i < count && i < 20
        invariant
            i <= count,
            i <= 20,
            value <= MAGNITUDE_LIMIT,
            acc == spec_at_most(
                (value * spec_power_of_ten(i as nat)) as nat,
                MAGNITUDE_LIMIT as nat,
            ),
        decreases 20 - i,
    {
        proof {
            lemma_power_of_ten(i as nat + 1, i as nat + 1);
            let p = spec_power_of_ten(i as nat);
            assert(value * (10 * p) == (value * p) * 10) by (nonlinear_arith);
        }
        let next: u128 = acc * 10;
        acc = if next > MAGNITUDE_LIMIT {
            MAGNITUDE_LIMIT
        } else {
            next
        };
        i = i + 1;
    }
    proof {
        if i < count {
            lemma_large_power(value as nat, 20);
            lemma_large_power(value as nat, count as nat);
        }
    }
    acc
}

/// The number that the digits of a mantissa spell with the point moved
/// `places` digits to the right, and [`MAGNITUDE_LIMIT`] if it is larger.
fn read_shifted_right(
    text: &Vec<u8>,
    whole: usize,
    point: usize,
    fraction: usize,
    end: usize,
    places: u128,
) -> (r: u128)
    requires
        whole <= point <= fraction <= end <= text.len(),
        forall|i: int| whole <= i < point ==> spec_is_digit(#[trigger] text@[i]),
        forall|i: int| fraction <= i < end ==> spec_is_digit(#[trigger] text@[i]),
    ensures
        r == spec_at_most(
            spec_shifted(
                text@,
                whole as int,
                point as int,
                fraction as int,
                end as int,
                places as int,
            ),
            MAGNITUDE_LIMIT as nat,
        ),
{
    let units: u128 = read_digits(text, whole, point, MAGNITUDE_LIMIT);
    let before: u128 = shift_left(units, places);
    let given: usize = end - fraction;
    let used: usize = if places >= given as u128 {
        given
    } else {
        places as usize
    };
    let spelled: u128 = read_digits(text, fraction, fraction + used, MAGNITUDE_LIMIT);
    let behind: u128 = shift_left(spelled, places - used as u128);
    proof {
        let exact = spec_digits_value(text@, whole as int, point as int);
        let p = spec_power_of_ten(places as nat);
        lemma_power_of_ten(places as nat, places as nat);
        // reading the digits before the point up to the limit changes
        // nothing once they are shifted
        if exact >= MAGNITUDE_LIMIT {
            assert(exact * p >= MAGNITUDE_LIMIT * p >= MAGNITUDE_LIMIT) by (nonlinear_arith)
                requires
                    exact >= MAGNITUDE_LIMIT,
                    p >= 1,
            ;
            assert(units * p >= MAGNITUDE_LIMIT) by (nonlinear_arith)
                requires
                    units == MAGNITUDE_LIMIT,
                    p >= 1,
            ;
        }
        let part = spec_digits_value(text@, fraction as int, fraction + used);
        let q = spec_power_of_ten((places - used) as nat);
        lemma_power_of_ten((places - used) as nat, (places - used) as nat);
        if part >= MAGNITUDE_LIMIT {
            assert(part * q >= MAGNITUDE_LIMIT) by (nonlinear_arith)
                requires
                    part >= MAGNITUDE_LIMIT,
                    q >= 1,
            ;
            assert(spelled * q >= MAGNITUDE_LIMIT) by (nonlinear_arith)
                requires
                    spelled == MAGNITUDE_LIMIT,
                    q >= 1,
            ;
        }
        if places == 0 {
            assert(part == 0);
            assert(part * q == 0) by (nonlinear_arith)
                requires
                    part == 0,
            ;
        } else if given >= places {
            assert(q == 1);
            assert(part * 1 == part);
        }
        assert(spec_fraction_places(text@, fraction as int, end as int, places as int) == part * q);
    }
    let sum: u128 = before + behind;
    if sum > MAGNITUDE_LIMIT {
        MAGNITUDE_LIMIT
    } else {
        sum
    }
}

/// The billionths that a number spells, without its sign, and
/// [`MAGNITUDE_LIMIT`] if they are more.
fn read_magnitude(
    text: &Vec<u8>,
    whole: usize,
    point: usize,
    fraction: usize,
    mantissa_end: usize,
    has_exponent: bool,
    exponent: usize,
    end: usize,
) -> (r: u128)
    requires
        whole <= point <= fraction <= mantissa_end <= text.len(),
        mantissa_end < exponent < end <= text.len() || !has_exponent,
        forall|i: int| whole <= i < point ==> spec_is_digit(#[trigger] text@[i]),
        forall|i: int| fraction <= i < mantissa_end ==> spec_is_digit(#[trigger] text@[i]),
        has_exponent ==> forall|i: int| exponent <= i < end ==> spec_is_digit(#[trigger] text@[i]),
    ensures
        r == spec_at_most(
            spec_shifted(
                text@,
                whole as int,
                point as int,
                fraction as int,
                mantissa_end as int,
                9 + spec_exponent(
                    text@,
                    NumberParts {
                        whole: whole as int,
                        point: point as int,
                        fraction: fraction as int,
                        mantissa_end: mantissa_end as int,
                        has_exponent,
                        exponent: exponent as int,
                        end: end as int,
                    },
                ),
            ),
            MAGNITUDE_LIMIT as nat,
        ),
{
    if !has_exponent {
        return read_shifted_right(text, whole, point, fraction, mantissa_end, 9);
    }
    let size: u128 = read_digits(text, exponent, end, EXPONENT_LIMIT);
    let ghost exact = spec_digits_value(text@, exponent as int, end as int);
    let ghost along = spec_digits_value(text@, whole as int, point as int);
    let ghost given = mantissa_end - fraction;
    let ghost behind = spec_digits_value(text@, fraction as int, mantissa_end as int);
    if text[mantissa_end + 1] == 45 {
        if size <= 9 {
            read_shifted_right(text, whole, point, fraction, mantissa_end, 9 - size)
        } else if size - 9 >= (point - whole) as u128 {
            0
        } else {
            read_digits(text, whole, point - (size - 9) as usize, MAGNITUDE_LIMIT)
        }
    } else {
        let r: u128 = read_shifted_right(text, whole, point, fraction, mantissa_end, 9 + size);
        proof {
            if exact >= EXPONENT_LIMIT {
                // so large an exponent moves the point beyond every digit
                let here = (9 + size) as nat;
                let there = (9 + exact) as nat;
                lemma_large_power(along, here);
                lemma_large_power(along, there);
                lemma_large_power(behind, (here - given) as nat);
                lemma_large_power(behind, (there - given) as nat);
            }
        }
        r
    }
}

/// Where the parts of a number stand, as positions in the text.
struct Located {
    whole: usize,
    point: usize,
    fraction: usize,
    mantissa_end: usize,
    has_exponent: bool,
    exponent: usize,
    end: usize,
}

impl Located {
    /// The positions as they stand in contracts.
    spec fn parts(&self) -> NumberParts {
        NumberParts {
            whole: self.whole as int,
            point: self.point as int,
            fraction: self.fraction as int,
            mantissa_end: self.mantissa_end as int,
            has_exponent: self.has_exponent,
            exponent: self.exponent as int,
            end: self.end as int,
        }
    }
}

/// The parts of the longest number that begins at `from`.
fn locate(text: &Vec<u8>, from: usize, to: usize) -> (r: Located)
    requires
        from < to <= text.len(),
    ensures
        r.parts() == spec_number_parts(text@, from as int, to as int),
        from <= r.whole <= r.point <= r.fraction <= r.mantissa_end <= r.end <= to,
        r.has_exponent ==> r.mantissa_end < r.exponent <= r.end,
        forall|i: int| r.whole <= i < r.point ==> spec_is_digit(#[trigger] text@[i]),
        forall|i: int| r.fraction <= i < r.mantissa_end ==> spec_is_digit(#[trigger] text@[i]),
        r.has_exponent ==> forall|i: int|
            r.exponent <= i < r.end ==> spec_is_digit(#[trigger] text@[i]),
{
    let whole: usize = if text[from] == 45 || text[from] == 43 {
        from + 1
    } else {
        from
    };
    let point: usize = digits_end(text, whole, to);
    let fraction: usize = if point < to && text[point] == 46 {
        point + 1
    } else {
        point
    };
    let mantissa_end: usize = digits_end(text, fraction, to);
    proof {
        lemma_digits_end(text@, whole as int, to as int);
        lemma_digits_end(text@, fraction as int, to as int);
    }
    if mantissa_end < to && (text[mantissa_end] == 101 || text[mantissa_end] == 69) {
        let signed: bool = mantissa_end + 1 < to && (text[mantissa_end + 1] == 45 || text[mantissa_end
            + 1] == 43);
        let exponent: usize = if signed {
            mantissa_end + 2
        } else {
            mantissa_end + 1
        };
        let end: usize = digits_end(text, exponent, to);
        proof {
            lemma_digits_end(text@, exponent as int, to as int);
        }
        Located { whole, point, fraction, mantissa_end, has_exponent: true, exponent, end }
    } else {
        Located {
            whole,
            point,
            fraction,
            mantissa_end,
            has_exponent: false,
            exponent: mantissa_end,
            end: mantissa_end,
        }
    }
}

/// A magnitude with its sign, clamped.
fn signed(magnitude: u128, negative: bool, Ghost(exact): Ghost<nat>) -> (r: Scalar)
    requires
        magnitude == spec_at_most(exact, MAGNITUDE_LIMIT as nat),
    ensures
        r.raw == if negative {
            clamp_i64(-(exact as int))
        } else {
            clamp_i64(exact as int)
        },
{
    if negative {
        Scalar { raw: clamp_wide(-(magnitude as i128)) }
    } else {
        Scalar { raw: clamp_wide(magnitude as i128) }
    }
}

/// The number that the field from `from` up to `to` spells; `None` if the
/// field is no decimal number.
pub fn parse_number(text: &Vec<u8>, from: usize, to: usize) -> (r: Option<Scalar>)
    requires
        from <= to <= text.len(),
    ensures
        r == spec_number(text@, from as int, to as int),
{
    if from >= to {
        return None;
    }
    let negative: bool = text[from] == 45;
    let at: Located = locate(text, from, to);
    if at.end != to || (at.point - at.whole) + (at.mantissa_end - at.fraction) < 1 || (
    at.has_exponent && at.end - at.exponent < 1) {
        return None;
    }
    let magnitude: u128 = read_magnitude(
        text,
        at.whole,
        at.point,
        at.fraction,
        at.mantissa_end,
        at.has_exponent,
        at.exponent,
        at.end,
    );
    Some(signed(magnitude, negative, Ghost(spec_magnitude(text@, from as int, to as int))))
}

/// Whether the text holds the name from `from` up to `to`.
fn is_name(text: &Vec<u8>, from: usize, to: usize, name: &Vec<u8>) -> (r: bool)
    requires
        from <= to <= text.len(),
    ensures
        r == spec_is_name(text@, from as int, to as int, name@),
{
    if name.len() != to - from {
        proof {
            assert(text@.subrange(from as int, to as int).len() == to - from);
        }
        return false;
    }
    let mut i: usize = 0;
    while i < name.len()
        invariant
            from <= to <= text.len(),
            name.len() == to - from,
            i <= name.len(),
            forall|j: int| 0 <= j < i ==> text@[from + j] == name@[j],
        decreases name.len() - i,
    {
        if text[from + i] != name[i] {
            proof {
                assert(text@.subrange(from as int, to as int)[i as int] == text@[from + i]);
            }
            return false;
        }
        i = i + 1;
    }
    proof {
        assert(text@.subrange(from as int, to as int) =~= name@);
    }
    true
}

impl MaterialTable {
    /// The position of the first material with the name that the text holds
    /// from `from` up to `to`, if there is one.
    pub fn find(&self, text: &Vec<u8>, from: usize, to: usize) -> (r: Option<usize>)
        requires
            from <= to <= text.len(),
        ensures
            match r {
                Some(k) => k < self.materials@.len() && k == spec_find_material(
                    *self,
                    text@,
                    from as int,
                    to as int,
                    0,
                ),
                None => spec_find_material(*self, text@, from as int, to as int, 0)
                    >= self.materials@.len(),
            },
    {
        let mut k: usize = 0;
        while k < self.names.len() && k < self.materials.len()
            invariant
                from <= to <= text.len(),
                spec_find_material(*self, text@, from as int, to as int, 0) == spec_find_material(
                    *self,
                    text@,
                    from as int,
                    to as int,
                    k as int,
                ),
            decreases self.names.len() - k,
        {
            if is_name(text, from, to, &self.names[k]) {
                return Some(k);
            }
            k = k + 1;
        }
        None
    }
}

/// What a line of a scene says: the line from `from` up to `to`, with the
/// number `line`.
pub fn parse_line(text: &Vec<u8>, table: &MaterialTable, from: usize, to: usize, line: usize) -> (r:
    Line)
    requires
        from <= to <= text.len(),
    ensures
        r == spec_parse_line(text@, *table, from as int, to as int, line as int),
{
    let found: Vec<(usize, usize)> = fields(text, from, to);
    let ghost spans = spec_fields(text@, from as int, to as int);
    proof {
        assert(spans.len() == found@.len());
        assert forall|k: int| 0 <= k < found@.len() implies spans[k] == spec_span(
            #[trigger] found@[k],
        ) by {
            assert(found@.map_values(|f: (usize, usize)| spec_span(f))[k] == spec_span(found@[k]));
        }
        assert forall|k: int| 0 <= k < found@.len() implies from <= (#[trigger] found@[k]).0
            < found@[k].1 <= to by {
            lemma_fields(text@, from as int, to as int, k);
        }
    }
    if found.len() == 0 {
        return Line::Nothing;
    }
    if text[found[0].0] == 35 {
        return Line::Nothing;
    }
    if found.len() != 5 {
        return Line::Wrong(SceneError::FieldCount { line, found: found.len() });
    }
    let x = parse_number(text, found[0].0, found[0].1);
    let y = parse_number(text, found[1].0, found[1].1);
    let z = parse_number(text, found[2].0, found[2].1);
    let size = parse_number(text, found[3].0, found[3].1);
    let material = table.find(text, found[4].0, found[4].1);
    match (x, y, z, size, material) {
        (None, _, _, _, _) => Line::Wrong(
            SceneError::InvalidNumber { line, field: 0, start: found[0].0, end: found[0].1 },
        ),
        (_, None, _, _, _) => Line::Wrong(
            SceneError::InvalidNumber { line, field: 1, start: found[1].0, end: found[1].1 },
        ),
        (_, _, None, _, _) => Line::Wrong(
            SceneError::InvalidNumber { line, field: 2, start: found[2].0, end: found[2].1 },
        ),
        (_, _, _, None, _) => Line::Wrong(
            SceneError::InvalidNumber { line, field: 3, start: found[3].0, end: found[3].1 },
        ),
        (_, _, _, _, None) => Line::Wrong(
            SceneError::UnknownMaterial { line, start: found[4].0, end: found[4].1 },
        ),
        (Some(x), Some(y), Some(z), Some(size), Some(k)) => {
            let cube = Cube::new(Vector3::new(x, y, z), size, table.materials[k]);
            if cube.is_valid() {
                Line::Entry(cube)
            } else {
                Line::Wrong(SceneError::InvalidBounds { line })
            }
        },
    }
}

/// The boxes of a scene given as text, in the order of its lines, each with
/// valid bounds; or the error of the first line that is wrong.
pub fn parse_scene(text: &Vec<u8>, table: &MaterialTable) -> (r: Result<Vec<Cube>, SceneError>)
    requires
        text.len() < usize::MAX,
    ensures
        match r {
            Ok(cubes) => spec_parse_scene(text@, *table) == Ok::<Seq<Cube>, SceneError>(cubes@)
                && all_valid(cubes@),
            Err(error) => spec_parse_scene(text@, *table) == Err::<Seq<Cube>, SceneError>(error),
        },
{
    let mut cubes: Vec<Cube> = Vec::new();
    let mut from: usize = 0;
    let mut line: usize = 1;
    loop
        invariant
            from <= text.len() < usize::MAX,
            line <= from + 1,
            all_valid(cubes@),
            spec_parse_scene(text@, *table) == spec_parse_from(
                text@,
                *table,
                from as int,
                line as int,
                cubes@,
            ),
        decreases text.len() - from,
    {
        let end: usize = line_end(text, from);
        match parse_line(text, table, from, end, line) {
            Line::Wrong(error) => {
                return Err(error);
            },
            Line::Nothing => {},
            Line::Entry(cube) => {
                cubes.push(cube);
            },
        }
        if end >= text.len() {
            return Ok(cubes);
        }
        from = end + 1;
        line = line + 1;
    }
}

} // verus!
