//! The field grammar: one token of a rule's left-hand side.
//!
//! The first token of a line is a name pattern. Every other token is a
//! numeric field, read without regard to the case of its letters:
//!
//! ```text
//! [type] ( '*' | START '-' END | '>' LOWER | '<' UPPER | EXACT )
//! type ::= "ch" | "vel" | "ctrl"
//! ```
//!
//! where each number is an optional `-` and one or more decimal digits.

use vstd::prelude::*;
use crate::errors::{FieldErrorCause, FieldErrorKind, FieldErrorView, FieldFormatError, FieldParseError};
use crate::pattern::{pattern_is_valid, NamePattern};
use crate::routing::NumericRange;
use crate::text::to_chars;

verus! {

/// The slot of a condition that a numeric field fills.
#[derive(Debug, Clone, Copy, PartialEq, Eq, Structural)]
pub enum FieldType {
    /// No type prefix: a generic value field.
    Untyped,
    /// Prefix `ch`.
    Channel,
    /// Prefix `vel`.
    Velocity,
    /// Prefix `ctrl`.
    Controller,
}

/// A number as written in a field, as far as sixteen bits hold it.
#[derive(Debug, Clone, Copy, PartialEq, Eq, Structural)]
pub enum Literal {
    Value(i16),
    TooLarge,
    TooSmall,
}

/// The form of a numeric field behind its type prefix.
#[derive(Debug, Clone, Copy, PartialEq, Eq, Structural)]
pub enum FieldShape {
    /// `*`
    Wildcard,
    /// `START-END`
    Range(Literal, Literal),
    /// `>LOWER`
    Above(Literal),
    /// `<UPPER`
    Below(Literal),
    /// `EXACT`
    Exact(Literal),
}

/// The parts of a token that has the form of a numeric field.
#[derive(Debug, Clone, Copy, PartialEq, Eq, Structural)]
pub struct FieldCaptures {
    pub value_type: FieldType,
    pub shape: FieldShape,
}

/// A parsed field.
#[derive(Debug)]
#[allow(inconsistent_fields)]
pub enum Field {
    NameField { name_pattern: NamePattern },
    ValueField { start: i16, end: i16 },
    ChannelField { start: u8, end: u8 },
    VelocityField { start: u8, end: u8 },
    ControlNoField { start: u8, end: u8 },
}

/// What a field says: the pattern text, or the slot and its interval.
pub enum FieldView {
    Name(Seq<char>),
    Value(NumericRange<i16>),
    Channel(NumericRange<u8>),
    Velocity(NumericRange<u8>),
    Controller(NumericRange<u8>),
}

impl View for Field {
    type V = FieldView;

    open spec fn view(&self) -> FieldView {
        match *self {
            Field::NameField { name_pattern } => FieldView::Name(name_pattern@),
            Field::ValueField { start, end } => FieldView::Value(NumericRange { start, end }),
            Field::ChannelField { start, end } => FieldView::Channel(NumericRange { start, end }),
            Field::VelocityField { start, end } => FieldView::Velocity(
                NumericRange { start, end },
            ),
            Field::ControlNoField { start, end } => FieldView::Controller(
                NumericRange { start, end },
            ),
        }
    }
}

/// Whether `c` is one of the ASCII digits `0` to `9`.
pub open spec fn is_digit(c: char) -> bool {
    0x30 <= c as u32 <= 0x39
}

/// The decimal value of a text of digits; the empty text counts as zero.
pub open spec fn digits_value(digits: Seq<char>) -> int
    decreases digits.len(),
{
    if digits.len() == 0 {
        0
    } else {
        10 * digits_value(digits.drop_last()) + (digits.last() as u32 - 0x30)
    }
}

/// Whether `s` starts with a minus sign.
pub open spec fn has_sign(s: Seq<char>) -> bool {
    s.len() > 0 && s[0] == '-'
}

/// `s` without its minus sign, if it has one.
pub open spec fn unsigned_part(s: Seq<char>) -> Seq<char> {
    if has_sign(s) {
        s.skip(1)
    } else {
        s
    }
}

/// Whether `s` is a number: an optional minus sign, then one or more digits.
pub open spec fn is_number(s: Seq<char>) -> bool {
    let digits = unsigned_part(s);
    digits.len() > 0 && forall|i: int| 0 <= i < digits.len() ==> is_digit(#[trigger] digits[i])
}

/// The value of a number.
pub open spec fn number_value(s: Seq<char>) -> int {
    if has_sign(s) {
        -digits_value(s.skip(1))
    } else {
        digits_value(s)
    }
}

/// `n` as a literal of sixteen bits.
pub open spec fn literal_of(n: int) -> Literal {
    if n > i16::MAX {
        Literal::TooLarge
    } else if n < i16::MIN {
        Literal::TooSmall
    } else {
        Literal::Value(n as i16)
    }
}

/// Whether `c` is the lower-case ASCII letter `letter` in either case.
pub open spec fn is_letter(c: char, letter: char) -> bool {
    c == letter || c as u32 + 0x20 == letter as u32
}

/// The type that the prefix of a token names.
pub open spec fn type_of(token: Seq<char>) -> FieldType {
    if token.len() >= 2 && is_letter(token[0], 'c') && is_letter(token[1], 'h') {
        FieldType::Channel
    } else if token.len() >= 3 && is_letter(token[0], 'v') && is_letter(token[1], 'e')
        && is_letter(token[2], 'l') {
        FieldType::Velocity
    } else if token.len() >= 4 && is_letter(token[0], 'c') && is_letter(token[1], 't')
        && is_letter(token[2], 'r') && is_letter(token[3], 'l') {
        FieldType::Controller
    } else {
        FieldType::Untyped
    }
}

/// The length of the prefix that names a type.
pub open spec fn prefix_len(value_type: FieldType) -> int {
    match value_type {
        FieldType::Untyped => 0,
        FieldType::Channel => 2,
        FieldType::Velocity => 3,
        FieldType::Controller => 4,
    }
}

/// The position of the first `-` of `s` at or behind `from`, or the length of `s`.
pub open spec fn dash_index(s: Seq<char>, from: int) -> int
    decreases s.len() - from,
{
    if from >= s.len() || s[from] == '-' {
        from
    } else {
        dash_index(s, from + 1)
    }
}

/// The form of the part of a token behind its type prefix, if it has one.
pub open spec fn shape_of(body: Seq<char>) -> Option<FieldShape> {
    if body.len() == 0 {
        None
    } else if body[0] == '*' {
        if body.len() == 1 {
            Some(FieldShape::Wildcard)
        } else {
            None
        }
    } else if body[0] == '>' {
        if is_number(body.skip(1)) {
            Some(FieldShape::Above(literal_of(number_value(body.skip(1)))))
        } else {
            None
        }
    } else if body[0] == '<' {
        if is_number(body.skip(1)) {
            Some(FieldShape::Below(literal_of(number_value(body.skip(1)))))
        } else {
            None
        }
    } else if is_number(body) {
        Some(FieldShape::Exact(literal_of(number_value(body))))
    } else {
        let dash = dash_index(body, 1);
        if dash < body.len() && is_number(body.take(dash)) && is_number(body.skip(dash + 1)) {
            Some(
                FieldShape::Range(
                    literal_of(number_value(body.take(dash))),
                    literal_of(number_value(body.skip(dash + 1))),
                ),
            )
        } else {
            None
        }
    }
}

/// The parts of `token`, if it has the form of a numeric field.
pub open spec fn captured(token: Seq<char>) -> Option<FieldCaptures> {
    let value_type = type_of(token);
    match shape_of(token.skip(prefix_len(value_type))) {
        Some(shape) => Some(FieldCaptures { value_type, shape }),
        None => None,
    }
}

/// The lowest bound of a field of the given type.
pub open spec fn default_start(value_type: FieldType) -> int {
    if value_type is Untyped {
        i16::MIN as int
    } else {
        0
    }
}

/// The highest bound of a field of the given type.
pub open spec fn default_end(value_type: FieldType) -> int {
    if value_type is Untyped {
        i16::MAX as int
    } else {
        255
    }
}

/// The error of a literal that sixteen bits do not hold.
pub open spec fn literal_error(literal: Literal) -> Option<FieldErrorKind> {
    match literal {
        Literal::Value(_) => None,
        Literal::TooLarge => Some(FieldErrorKind::NumberTooLarge),
        Literal::TooSmall => Some(FieldErrorKind::NumberTooSmall),
    }
}

/// The error of the first literal of a shape that sixteen bits do not hold.
pub open spec fn shape_error(shape: FieldShape) -> Option<FieldErrorKind> {
    match shape {
        FieldShape::Wildcard => None,
        FieldShape::Range(start, end) => if literal_error(start) is Some {
            literal_error(start)
        } else {
            literal_error(end)
        },
        FieldShape::Above(lower) => literal_error(lower),
        FieldShape::Below(upper) => literal_error(upper),
        FieldShape::Exact(exact) => literal_error(exact),
    }
}

/// The value of a literal that sixteen bits hold.
pub open spec fn literal_value(literal: Literal) -> int {
    match literal {
        Literal::Value(value) => value as int,
        _ => 0,
    }
}

/// The inclusive bounds that a shape stands for in a field of the given type.
/// An exclusive bound moves by one.
pub open spec fn bounds_of(value_type: FieldType, shape: FieldShape) -> (int, int) {
    match shape {
        FieldShape::Wildcard => (default_start(value_type), default_end(value_type)),
        FieldShape::Range(start, end) => (literal_value(start), literal_value(end)),
        FieldShape::Above(lower) => (literal_value(lower) + 1, default_end(value_type)),
        FieldShape::Below(upper) => (default_start(value_type), literal_value(upper) - 1),
        FieldShape::Exact(exact) => (literal_value(exact), literal_value(exact)),
    }
}

/// The field that the parts of a token stand for, or why there is none.
///
/// A literal outside sixteen bits is refused first. A typed field must
/// satisfy `0 <= start <= end <= 255`. An untyped field is not checked
/// against these; it is refused only where a moved bound leaves sixteen bits.
pub open spec fn value_field_of(captures: FieldCaptures) -> Result<FieldView, FieldErrorKind> {
    let (start, end) = bounds_of(captures.value_type, captures.shape);
    if shape_error(captures.shape) is Some {
        Err(shape_error(captures.shape)->Some_0)
    } else if captures.value_type is Untyped {
        if start > i16::MAX {
            Err(FieldErrorKind::NumberTooLarge)
        } else if end < i16::MIN {
            Err(FieldErrorKind::NumberTooSmall)
        } else {
            Ok(FieldView::Value(NumericRange { start: start as i16, end: end as i16 }))
        }
    } else if !(0 <= start <= end <= 255) {
        Err(FieldErrorKind::Format(FieldFormatError::NumberOutOfRange { min: 0, max: 255 }))
    } else {
        let range = NumericRange { start: start as u8, end: end as u8 };
        match captures.value_type {
            FieldType::Channel => Ok(FieldView::Channel(range)),
            FieldType::Velocity => Ok(FieldView::Velocity(range)),
            _ => Ok(FieldView::Controller(range)),
        }
    }
}

/// The field that a name pattern stands for, or why there is none.
pub open spec fn name_field_of(token: Seq<char>) -> Result<FieldView, FieldErrorKind> {
    if pattern_is_valid(token) {
        Ok(FieldView::Name(token))
    } else {
        Err(FieldErrorKind::Pattern)
    }
}

/// The field that the token at position `field_id` of a line stands for, or
/// why there is none. The first token is a name pattern, the others are
/// numeric fields.
pub open spec fn field_of(field_id: usize, token: Seq<char>) -> Result<FieldView, FieldErrorKind> {
    if field_id == 0 {
        name_field_of(token)
    } else {
        match captured(token) {
            Some(captures) => value_field_of(captures),
            None => Err(FieldErrorKind::Format(FieldFormatError::InvalidFormat)),
        }
    }
}

/// Whether `result` is the outcome `expected` for the token `content` at
/// position `field_id`: the expected field, or an error that carries the
/// position, the token and the expected kind.
pub open spec fn field_result_is(
    result: Result<Field, FieldParseError>,
    field_id: usize,
    content: Seq<char>,
    expected: Result<FieldView, FieldErrorKind>,
) -> bool {
    match expected {
        Ok(view) => result is Ok && result->Ok_0@ == view,
        Err(kind) => result is Err && result->Err_0@ == (FieldErrorView {
            field_id,
            content,
            kind: Some(kind),
        }),
    }
}

/// Reads `chars[from..to]` as a number.
fn read_number(chars: &Vec<char>, from: usize, to: usize) -> (literal: Option<Literal>)
    requires
        from <= to <= chars@.len(),
    ensures
        literal is Some <==> is_number(chars@.subrange(from as int, to as int)),
        literal is Some ==> literal->Some_0 == literal_of(
            number_value(chars@.subrange(from as int, to as int)),
        ),
{
    let ghost text = chars@.subrange(from as int, to as int);
    let negative = from < to && chars[from] == '-';
    let first: usize = if negative {
        from + 1
    } else {
        from
    };
    let ghost digits = unsigned_part(text);
    proof {
        if negative {
            assert(text[0] == chars@[from as int]);
        } else if from < to {
            assert(text[0] == chars@[from as int]);
        }
        assert(digits =~= chars@.subrange(first as int, to as int));
    }
    if first == to {
        return None;
    }
    // Every magnitude above 32768 is out of range, so the sum stops growing
    // at 32769 and long texts of digits cannot overflow it.
    let mut magnitude: u32 = 0;
    let mut i: usize = first;
    while i < to
        invariant
            from <= first <= i <= to <= chars@.len(),
            text == chars@.subrange(from as int, to as int),
            digits == unsigned_part(text),
            negative == has_sign(text),
            digits == chars@.subrange(first as int, to as int),
            forall|k: int| 0 <= k < i - first ==> is_digit(#[trigger] digits[k]),
            digits_value(digits.take(i - first)) >= 0,
            magnitude <= 32769,
            magnitude == if digits_value(digits.take(i - first)) > 32769 {
                32769
            } else {
                digits_value(digits.take(i - first))
            },
        decreases to - i,
    {
        let code: u32 = chars[i] as u32;
        assert(digits[i - first] == chars@[i as int]);
        if code < 0x30 || code > 0x39 {
            return None;
        }
        proof {
            assert(digits.take(i + 1 - first).drop_last() =~= digits.take(i - first));
            assert(digits.take(i + 1 - first).last() == chars@[i as int]);
        }
        let next: u32 = magnitude * 10 + (code - 0x30);
        magnitude = if next > 32769 {
            32769
        } else {
            next
        };
        i += 1;
    }
    proof {
        assert(digits.take(digits.len() as int) =~= digits);
        assert(is_number(text));
        if negative {
            assert(text.skip(1) =~= digits);
        }
    }
    if negative {
        if magnitude > 32768 {
            Some(Literal::TooSmall)
        } else {
            let value: i32 = -(magnitude as i32);
            Some(Literal::Value(value as i16))
        }
    } else {
        if magnitude > 32767 {
            Some(Literal::TooLarge)
        } else {
            Some(Literal::Value(magnitude as i16))
        }
    }
}

/// Tests whether `c` is the lower-case ASCII letter `letter` in either case.
fn same_letter(c: char, letter: char) -> (same: bool)
    ensures
        same == is_letter(c, letter),
{
    c == letter || (c as u32) + 0x20 == (letter as u32)
}

/// Reads the type prefix of a token.
fn read_type(chars: &Vec<char>) -> (value_type: FieldType)
    ensures
        value_type == type_of(chars@),
        prefix_len(value_type) <= chars@.len(),
{
    let n = chars.len();
    if n >= 2 && same_letter(chars[0], 'c') && same_letter(chars[1], 'h') {
        FieldType::Channel
    } else if n >= 3 && same_letter(chars[0], 'v') && same_letter(chars[1], 'e') && same_letter(
        chars[2],
        'l',
    ) {
        FieldType::Velocity
    } else if n >= 4 && same_letter(chars[0], 'c') && same_letter(chars[1], 't') && same_letter(
        chars[2],
        'r',
    ) && same_letter(chars[3], 'l') {
        FieldType::Controller
    } else {
        FieldType::Untyped
    }
}

/// A number holds no `-` behind its first character.
proof fn lemma_number_has_no_inner_dash(s: Seq<char>, k: int)
    requires
        is_number(s),
        1 <= k < s.len(),
    ensures
        s[k] != '-',
{
    let digits = unsigned_part(s);
    if has_sign(s) {
        assert(digits[k - 1] == s[k]);
        assert(is_digit(digits[k - 1]));
    } else {
        assert(is_digit(digits[k]));
    }
}

/// The first `-` at or behind `from` is at `dash`.
proof fn lemma_dash_index_is(s: Seq<char>, from: int, dash: int)
    requires
        0 <= from <= dash <= s.len(),
        forall|k: int| from <= k < dash ==> s[k] != '-',
        dash == s.len() || s[dash] == '-',
    ensures
        dash_index(s, from) == dash,
    decreases dash - from,
{
    if from < dash {
        lemma_dash_index_is(s, from + 1, dash);
    }
}

/// Reads the form of the part of a token that starts at `from`.
fn read_shape(chars: &Vec<char>, from: usize) -> (shape: Option<FieldShape>)
    requires
        from <= chars@.len(),
    ensures
        shape == shape_of(chars@.skip(from as int)),
{
    let n = chars.len();
    let ghost body = chars@.skip(from as int);
    if from == n {
        return None;
    }
    let first = chars[from];
    assert(body[0] == first);
    if first == '*' {
        if n - from == 1 {
            Some(FieldShape::Wildcard)
        } else {
            None
        }
    } else if first == '>' {
        assert(body.skip(1) =~= chars@.subrange(from + 1, n as int));
        match read_number(chars, from + 1, n) {
            Some(lower) => Some(FieldShape::Above(lower)),
            None => None,
        }
    } else if first == '<' {
        assert(body.skip(1) =~= chars@.subrange(from + 1, n as int));
        match read_number(chars, from + 1, n) {
            Some(upper) => Some(FieldShape::Below(upper)),
            None => None,
        }
    } else {
        let mut dash: usize = from + 1;
        while dash < n && chars[dash] != '-'
            invariant
                from + 1 <= dash <= n,
                n == chars@.len(),
                forall|k: int| from + 1 <= k < dash ==> chars@[k] != '-',
            decreases n - dash,
        {
            dash += 1;
        }
        proof {
            assert forall|k: int| 1 <= k < dash - from implies body[k] != '-' by {
                assert(body[k] == chars@[from + k]);
            }
            if dash < n {
                assert(body[dash - from] == chars@[dash as int]);
            }
            lemma_dash_index_is(body, 1, dash - from);
            assert(body =~= chars@.subrange(from as int, n as int));
        }
        if dash == n {
            match read_number(chars, from, n) {
                Some(exact) => Some(FieldShape::Exact(exact)),
                None => None,
            }
        } else {
            proof {
                if is_number(body) {
                    lemma_number_has_no_inner_dash(body, dash - from);
                }
                assert(body.take(dash - from) =~= chars@.subrange(from as int, dash as int));
                assert(body.skip(dash - from + 1) =~= chars@.subrange(dash + 1, n as int));
            }
            match read_number(chars, from, dash) {
                Some(start) => match read_number(chars, dash + 1, n) {
                    Some(end) => Some(FieldShape::Range(start, end)),
                    None => None,
                },
                None => None,
            }
        }
    }
}

/// Takes a token apart, if it has the form of a numeric field.
pub fn capture_field(value: &str) -> (captures: Option<FieldCaptures>)
    ensures
        captures == captured(value@),
{
    let chars = to_chars(value);
    let value_type = read_type(&chars);
    let from: usize = match value_type {
        FieldType::Untyped => 0,
        FieldType::Channel => 2,
        FieldType::Velocity => 3,
        FieldType::Controller => 4,
    };
    match read_shape(&chars, from) {
        Some(shape) => Some(FieldCaptures { value_type, shape }),
        None => None,
    }
}

/// Builds the error of the token `value` at position `field_id`.
fn field_error(field_id: usize, value: &str, reason: FieldErrorCause) -> (error: FieldParseError)
    ensures
        error@ == (FieldErrorView {
            field_id,
            content: value@,
            kind: Some(reason.spec_kind()),
        }),
{
    FieldParseError { field_id, content: value.to_owned(), reason: Some(reason) }
}

/// The first literal of a shape that sixteen bits do not hold, as an error cause.
fn find_shape_error(shape: &FieldShape) -> (cause: Option<FieldErrorCause>)
    ensures
        cause is Some <==> shape_error(*shape) is Some,
        cause is Some ==> cause->Some_0.spec_kind() == shape_error(*shape)->Some_0,
{
    let first = match shape {
        FieldShape::Wildcard => { return None; },
        FieldShape::Range(start, end) => match start {
            Literal::Value(_) => *end,
            _ => *start,
        },
        FieldShape::Above(lower) => *lower,
        FieldShape::Below(upper) => *upper,
        FieldShape::Exact(exact) => *exact,
    };
    match first {
        Literal::Value(_) => None,
        Literal::TooLarge => Some(FieldErrorCause::NumberTooLarge),
        Literal::TooSmall => Some(FieldErrorCause::NumberTooSmall),
    }
}

/// The number that a literal holds, or zero.
fn value_of(literal: &Literal) -> (value: i32)
    ensures
        value == literal_value(*literal),
{
    match literal {
        Literal::Value(value) => *value as i32,
        _ => 0,
    }
}

/// Turns the parts of the token `value` at position `field_id` into a field.
///
/// Bounds are made inclusive, and those of a typed field are held to
/// `0 <= start <= end <= 255`.
pub fn parse_value_field(field_id: usize, value: &str, captures: FieldCaptures) -> (result: Result<
    Field,
    FieldParseError,
>)
    ensures
        field_result_is(result, field_id, value@, value_field_of(captures)),
{
    match find_shape_error(&captures.shape) {
        Some(cause) => {
            return Err(field_error(field_id, value, cause));
        },
        None => {},
    }
    let typed = match captures.value_type {
        FieldType::Untyped => false,
        _ => true,
    };
    let default_start: i32 = if typed {
        0
    } else {
        -32768
    };
    let default_end: i32 = if typed {
        255
    } else {
        32767
    };
    let (start, end): (i32, i32) = match captures.shape {
        FieldShape::Wildcard => (default_start, default_end),
        FieldShape::Range(first, last) => (value_of(&first), value_of(&last)),
        FieldShape::Above(lower) => (value_of(&lower) + 1, default_end),
        FieldShape::Below(upper) => (default_start, value_of(&upper) - 1),
        FieldShape::Exact(exact) => (value_of(&exact), value_of(&exact)),
    };
    assert((start as int, end as int) == bounds_of(captures.value_type, captures.shape));
    if !typed {
        if start > 32767 {
            return Err(field_error(field_id, value, FieldErrorCause::NumberTooLarge));
        }
        if end < -32768 {
            return Err(field_error(field_id, value, FieldErrorCause::NumberTooSmall));
        }
        return Ok(Field::ValueField { start: start as i16, end: end as i16 });
    }
    if !(0 <= start && start <= end && end <= 0xff) {
        return Err(
            field_error(
                field_id,
                value,
                FieldErrorCause::Format(FieldFormatError::NumberOutOfRange { min: 0, max: 0xff }),
            ),
        );
    }
    Ok(
        match captures.value_type {
            FieldType::Channel => Field::ChannelField { start: start as u8, end: end as u8 },
            FieldType::Velocity => Field::VelocityField { start: start as u8, end: end as u8 },
            _ => Field::ControlNoField { start: start as u8, end: end as u8 },
        },
    )
}

/// Compiles the token `value` at position `field_id` as a name pattern.
pub fn parse_name_pattern_field(field_id: usize, value: &str) -> (result: Result<
    Field,
    FieldParseError,
>)
    ensures
        field_result_is(result, field_id, value@, name_field_of(value@)),
{
    match NamePattern::new(value) {
        Ok(name_pattern) => Ok(Field::NameField { name_pattern }),
        Err(error) => Err(field_error(field_id, value, FieldErrorCause::Pattern(error))),
    }
}

/// Parses the token `value` at position `field_id` of a rule's left-hand side.
pub fn parse_field_lhs(field_id: usize, value: &str) -> (result: Result<Field, FieldParseError>)
    ensures
        field_result_is(result, field_id, value@, field_of(field_id, value@)),
{
    if field_id == 0 {
        parse_name_pattern_field(field_id, value)
    } else {
        match capture_field(value) {
            Some(captures) => parse_value_field(field_id, value, captures),
            None => Err(
                field_error(
                    field_id,
                    value,
                    FieldErrorCause::Format(FieldFormatError::InvalidFormat),
                ),
            ),
        }
    }
}

/// Whether a field of the given shape is meant to admit `value`.
pub open spec fn shape_admits(shape: FieldShape, value: int) -> bool {
    match shape {
        FieldShape::Wildcard => true,
        FieldShape::Range(start, end) => literal_value(start) <= value <= literal_value(end),
        FieldShape::Above(lower) => value > literal_value(lower),
        FieldShape::Below(upper) => value < literal_value(upper),
        FieldShape::Exact(exact) => value == literal_value(exact),
    }
}

/// Whether the interval of a numeric field holds `value`.
pub open spec fn view_admits(view: FieldView, value: int) -> bool {
    match view {
        FieldView::Name(_) => true,
        FieldView::Value(range) => range.contains(value),
        FieldView::Channel(range) => range.contains(value),
        FieldView::Velocity(range) => range.contains(value),
        FieldView::Controller(range) => range.contains(value),
    }
}

/// The slot that a numeric field fills is the one that its type names.
pub open spec fn view_type(view: FieldView) -> Option<FieldType> {
    match view {
        FieldView::Name(_) => None,
        FieldView::Value(_) => Some(FieldType::Untyped),
        FieldView::Channel(_) => Some(FieldType::Channel),
        FieldView::Velocity(_) => Some(FieldType::Velocity),
        FieldView::Controller(_) => Some(FieldType::Controller),
    }
}

/// An accepted field means what its shape says: it fills the slot of its
/// type, and among the values that the slot can hold, a byte for a typed
/// field and sixteen bits for an untyped one, its interval holds exactly
/// those that the shape admits, `>` and `<` being exclusive.
pub proof fn lemma_accepted_field_means_its_shape(captures: FieldCaptures, value: int)
    requires
        value_field_of(captures) is Ok,
        default_start(captures.value_type) <= value <= default_end(captures.value_type),
    ensures
        view_type(value_field_of(captures)->Ok_0) == Some(captures.value_type),
        view_admits(value_field_of(captures)->Ok_0, value) <==> shape_admits(
            captures.shape,
            value,
        ),
{
}

/// The interval of an accepted typed field is not empty and lies within a byte.
pub proof fn lemma_typed_field_is_ordered(captures: FieldCaptures)
    requires
        value_field_of(captures) is Ok,
        !(captures.value_type is Untyped),
    ensures
        0 <= bounds_of(captures.value_type, captures.shape).0 <= bounds_of(
            captures.value_type,
            captures.shape,
        ).1 <= 255,
        view_admits(
            value_field_of(captures)->Ok_0,
            bounds_of(captures.value_type, captures.shape).0,
        ),
{
}

} // verus!
