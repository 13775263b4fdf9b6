//! Errors of rule parsing: one per field, one per line, one per configuration.

use vstd::prelude::*;
use vstd::string::StringExecFns;
use crate::pattern::PatternError;
use crate::text::{decimal, indent, indented, push_decimal, push_digits, texts};

verus! {

/// The texts `items`, each indented by four spaces behind its line feeds,
/// as the entries of a list: between two entries stands a line feed and a dash.
pub open spec fn bullet_list(items: Seq<Seq<char>>) -> Seq<char>
    decreases items.len(),
{
    if items.len() == 0 {
        Seq::empty()
    } else if items.len() == 1 {
        indented(items[0], 4)
    } else {
        bullet_list(items.drop_last()) + "\n  - "@ + indented(items.last(), 4)
    }
}

/// Joins `items` into a list, see `bullet_list`.
pub fn join_bullets(items: &Vec<String>) -> (list: String)
    ensures
        list@ == bullet_list(texts(items@)),
{
    let ghost all = texts(items@);
    let mut list = String::new();
    let mut i: usize = 0;
    proof {
        assert(all.take(0) =~= Seq::<Seq<char>>::empty());
    }
    while i < items.len()
        invariant
            i <= items@.len(),
            all == texts(items@),
            list@ == bullet_list(all.take(i as int)),
        decreases items.len() - i,
    {
        let ghost before = list@;
        if i > 0 {
            list.append("\n  - ");
        }
        let entry = indent(items[i].clone(), 4);
        list.append(entry.as_str());
        proof {
            let done = all.take(i + 1);
            assert(done.drop_last() =~= all.take(i as int));
            assert(done.last() == items@[i as int]@);
            if i == 0 {
                assert(done[0] == items@[0]@);
                assert(Seq::<char>::empty() + entry@ =~= entry@);
            } else {
                assert(list@ =~= before + "\n  - "@ + entry@);
            }
        }
        i += 1;
    }
    proof {
        assert(all.take(items@.len() as int) =~= all);
    }
    list
}

/// A field that is not written as the field grammar asks.
#[derive(Debug, Clone, Copy, PartialEq, Eq, Structural)]
pub enum FieldFormatError {
    /// The token has none of the forms of a field.
    InvalidFormat,
    /// The bounds of a typed field are not within `min..=max`, or are reversed.
    NumberOutOfRange { min: i16, max: i16 },
}

/// Why a field was refused.
#[derive(Debug, Clone, PartialEq, Eq)]
pub enum FieldErrorCause {
    /// The field is malformed or out of range.
    Format(FieldFormatError),
    /// A number, or the bound it stands for, is above what sixteen bits hold.
    NumberTooLarge,
    /// A number, or the bound it stands for, is below what sixteen bits hold.
    NumberTooSmall,
    /// The name pattern is no regular expression.
    Pattern(PatternError),
}

impl FieldFormatError {
    /// The text of this error. The bounds of a range are given as exclusive
    /// ones: one above `min` and one below `max`.
    pub open spec fn spec_message(&self) -> Seq<char> {
        match *self {
            FieldFormatError::InvalidFormat => "Invalid format"@,
            FieldFormatError::NumberOutOfRange { min, max } => "Value must be between "@ + decimal(
                min + 1,
            ) + " and "@ + decimal(max - 1),
        }
    }

    /// Returns the text of this error.
    pub fn message(&self) -> (text: String)
        ensures
            text@ == self.spec_message(),
    {
        match *self {
            FieldFormatError::InvalidFormat => "Invalid format".to_owned(),
            FieldFormatError::NumberOutOfRange { min, max } => {
                let mut text = "Value must be between ".to_owned();
                push_decimal(&mut text, min as i64 + 1);
                text.append(" and ");
                push_decimal(&mut text, max as i64 - 1);
                text
            },
        }
    }
}

/// The kind of a cause: the cause without the words of a pattern's compile error.
#[derive(Debug, Clone, Copy, PartialEq, Eq, Structural)]
pub enum FieldErrorKind {
    Format(FieldFormatError),
    NumberTooLarge,
    NumberTooSmall,
    Pattern,
}

impl FieldErrorCause {
    /// The kind of this cause.
    pub open spec fn spec_kind(&self) -> FieldErrorKind {
        match self {
            FieldErrorCause::Format(error) => FieldErrorKind::Format(*error),
            FieldErrorCause::NumberTooLarge => FieldErrorKind::NumberTooLarge,
            FieldErrorCause::NumberTooSmall => FieldErrorKind::NumberTooSmall,
            FieldErrorCause::Pattern(_) => FieldErrorKind::Pattern,
        }
    }

    /// The text of this cause.
    pub open spec fn spec_message(&self) -> Seq<char> {
        match self {
            FieldErrorCause::Format(error) => error.spec_message(),
            FieldErrorCause::NumberTooLarge => "number too large to fit in target type"@,
            FieldErrorCause::NumberTooSmall => "number too small to fit in target type"@,
            FieldErrorCause::Pattern(error) => error.message@,
        }
    }

    /// Returns the text of this cause.
    pub fn message(&self) -> (text: String)
        ensures
            text@ == self.spec_message(),
    {
        match self {
            FieldErrorCause::Format(error) => error.message(),
            FieldErrorCause::NumberTooLarge => "number too large to fit in target type".to_owned(),
            FieldErrorCause::NumberTooSmall => "number too small to fit in target type".to_owned(),
            FieldErrorCause::Pattern(error) => error.message.clone(),
        }
    }

    /// Returns the kind of this cause.
    pub fn kind(&self) -> (kind: FieldErrorKind)
        ensures
            kind == self.spec_kind(),
    {
        match self {
            FieldErrorCause::Format(error) => FieldErrorKind::Format(*error),
            FieldErrorCause::NumberTooLarge => FieldErrorKind::NumberTooLarge,
            FieldErrorCause::NumberTooSmall => FieldErrorKind::NumberTooSmall,
            FieldErrorCause::Pattern(_) => FieldErrorKind::Pattern,
        }
    }
}

/// One refused field of a rule.
#[derive(Debug)]
pub struct FieldParseError {
    /// Position of the token in its line, counted from zero.
    pub field_id: usize,
    /// The token as it was written.
    pub content: String,
    /// Why it was refused, where that is known.
    pub reason: Option<FieldErrorCause>,
}

impl FieldParseError {
    /// The text of this error: the token, its position and the cause.
    pub open spec fn spec_message(&self) -> Seq<char> {
        "Parsing '"@ + self.content@ + "' in field "@ + decimal(self.field_id as int)
            + " failed: "@ + match self.reason {
            Some(cause) => cause.spec_message(),
            None => "Reason unknown"@,
        }
    }

    /// Returns the text of this error.
    pub fn message(&self) -> (text: String)
        ensures
            text@ == self.spec_message(),
    {
        let mut text = "Parsing '".to_owned();
        text.append(self.content.as_str());
        text.append("' in field ");
        push_digits(&mut text, self.field_id as u128);
        text.append(" failed: ");
        let reason = match &self.reason {
            Some(cause) => cause.message(),
            None => "Reason unknown".to_owned(),
        };
        text.append(reason.as_str());
        text
    }
}

/// The texts of a list of field errors.
pub open spec fn field_messages(errors: Seq<FieldParseError>) -> Seq<Seq<char>> {
    errors.map_values(|error: FieldParseError| error.spec_message())
}

/// What a field error says: where, on which text, and of which kind.
pub struct FieldErrorView {
    pub field_id: usize,
    pub content: Seq<char>,
    pub kind: Option<FieldErrorKind>,
}

impl View for FieldParseError {
    type V = FieldErrorView;

    open spec fn view(&self) -> FieldErrorView {
        FieldErrorView {
            field_id: self.field_id,
            content: self.content@,
            kind: match self.reason {
                Some(cause) => Some(cause.spec_kind()),
                None => None,
            },
        }
    }
}

/// The views of a list of field errors.
pub open spec fn field_error_views(errors: Seq<FieldParseError>) -> Seq<FieldErrorView> {
    errors.map_values(|error: FieldParseError| error@)
}

/// One refused line of a configuration.
#[derive(Debug)]
pub enum RuleParseError {
    /// Some fields of the line were refused; `line_no` counts from zero.
    InvalidFields { line_no: usize, invalid_fields: Vec<FieldParseError> },
}

impl RuleParseError {
    /// The text of this error: the number of the line, counted from one, and
    /// the list of the texts of its field errors.
    pub open spec fn spec_message(&self) -> Seq<char> {
        match self {
            RuleParseError::InvalidFields { line_no, invalid_fields } => "Invalid field in line "@
                + decimal(line_no + 1) + ":\n  - "@ + bullet_list(field_messages(invalid_fields@)),
        }
    }

    /// Returns the text of this error.
    pub fn message(&self) -> (text: String)
        ensures
            text@ == self.spec_message(),
    {
        match self {
            RuleParseError::InvalidFields { line_no, invalid_fields } => {
                let mut messages: Vec<String> = Vec::new();
                let mut i: usize = 0;
                while i < invalid_fields.len()
                    invariant
                        i <= invalid_fields@.len(),
                        texts(messages@) == field_messages(invalid_fields@.take(i as int)),
                    decreases invalid_fields.len() - i,
                {
                    let ghost before = texts(messages@);
                    let message = invalid_fields[i].message();
                    messages.push(message);
                    proof {
                        assert(invalid_fields@.take(i + 1) =~= invalid_fields@.take(i as int).push(
                            invalid_fields@[i as int],
                        ));
                        assert(texts(messages@) =~= before.push(message@));
                        assert(field_messages(invalid_fields@.take(i + 1)) =~= before.push(
                            message@,
                        ));
                    }
                    i += 1;
                }
                proof {
                    assert(invalid_fields@.take(invalid_fields@.len() as int) =~= invalid_fields@);
                }
                let mut text = "Invalid field in line ".to_owned();
                push_digits(&mut text, *line_no as u128 + 1);
                text.append(":\n  - ");
                let list = join_bullets(&messages);
                text.append(list.as_str());
                text
            },
        }
    }
}

/// The texts of a list of rule errors.
pub open spec fn rule_messages(errors: Seq<RuleParseError>) -> Seq<Seq<char>> {
    errors.map_values(|error: RuleParseError| error.spec_message())
}

/// What a rule error says: the line and the views of its field errors.
pub struct RuleErrorView {
    pub line_no: usize,
    pub invalid_fields: Seq<FieldErrorView>,
}

impl View for RuleParseError {
    type V = RuleErrorView;

    open spec fn view(&self) -> RuleErrorView {
        match self {
            RuleParseError::InvalidFields { line_no, invalid_fields } => RuleErrorView {
                line_no: *line_no,
                invalid_fields: field_error_views(invalid_fields@),
            },
        }
    }
}

/// The views of a list of rule errors.
pub open spec fn rule_error_views(errors: Seq<RuleParseError>) -> Seq<RuleErrorView> {
    errors.map_values(|error: RuleParseError| error@)
}

/// Every refused line of a configuration.
#[derive(Debug)]
pub struct RuleConfigError {
    pub errors: Vec<RuleParseError>,
}

impl RuleConfigError {
    /// The text of this error: the number of refused lines and the list of
    /// their texts.
    pub open spec fn spec_message(&self) -> Seq<char> {
        "Rule parsing failed. "@ + decimal(self.errors@.len() as int)
            + " errors were found: \n  - "@ + bullet_list(rule_messages(self.errors@))
    }

    /// Returns the text of this error.
    pub fn message(&self) -> (text: String)
        ensures
            text@ == self.spec_message(),
    {
        let mut messages: Vec<String> = Vec::new();
        let mut i: usize = 0;
        while i < self.errors.len()
            invariant
                i <= self.errors@.len(),
                texts(messages@) == rule_messages(self.errors@.take(i as int)),
            decreases self.errors.len() - i,
        {
            let ghost before = texts(messages@);
            let message = self.errors[i].message();
            messages.push(message);
            proof {
                assert(self.errors@.take(i + 1) =~= self.errors@.take(i as int).push(
                    self.errors@[i as int],
                ));
                assert(texts(messages@) =~= before.push(message@));
                assert(rule_messages(self.errors@.take(i + 1)) =~= before.push(message@));
            }
            i += 1;
        }
        proof {
            assert(self.errors@.take(self.errors@.len() as int) =~= self.errors@);
        }
        let mut text = "Rule parsing failed. ".to_owned();
        push_digits(&mut text, self.errors.len() as u128);
        text.append(" errors were found: \n  - ");
        let list = join_bullets(&messages);
        text.append(list.as_str());
        text
    }
}

impl View for RuleConfigError {
    type V = Seq<RuleErrorView>;

    open spec fn view(&self) -> Seq<RuleErrorView> {
        rule_error_views(self.errors@)
    }
}

} // verus!
