//! The rule parser: one line of a configuration, and a whole configuration.
//!
//! A line is a list of whitespace-separated tokens. The tokens before the
//! first `=>` are fields and fill the slots of the rule's condition; where
//! two fields fill the same slot, the later one stays. The tokens behind the
//! first `=>` are taken as they are as output port names; a further `=>` is
//! a port name like any other. A line without `=>` forwards to no port.

use vstd::prelude::*;
use crate::errors::{
    field_error_views,
    rule_error_views,
    FieldErrorView,
    FieldParseError,
    RuleConfigError,
    RuleErrorView,
    RuleParseError,
};
use crate::field::{field_of, parse_field_lhs, Field, FieldView};
use crate::pattern::NamePattern;
use crate::midi::MidiEvent;
use crate::routing::{
    action_ports,
    lemma_routing_depends_on_views,
    routed,
    rule_views,
    Action,
    Condition,
    ConditionView,
    NumericRange,
    Rule,
    RuleView,
};
use crate::text::{lines_of, split_lines, split_tokens, texts, tokens_of};

verus! {

/// Whether `token` is the separator `=>`.
pub open spec fn is_forward_symbol(token: Seq<char>) -> bool {
    token.len() == 2 && token[0] == '=' && token[1] == '>'
}

/// The position of the first separator among `tokens` at or behind `from`,
/// or the number of tokens.
pub open spec fn forward_index(tokens: Seq<Seq<char>>, from: int) -> int
    decreases tokens.len() - from,
{
    if from >= tokens.len() || is_forward_symbol(tokens[from]) {
        from
    } else {
        forward_index(tokens, from + 1)
    }
}

/// The tokens of a line's left-hand side.
pub open spec fn lhs_of(tokens: Seq<Seq<char>>) -> Seq<Seq<char>> {
    tokens.take(forward_index(tokens, 0))
}

/// The tokens of a line's right-hand side.
pub open spec fn rhs_of(tokens: Seq<Seq<char>>) -> Seq<Seq<char>> {
    let forward = forward_index(tokens, 0);
    if forward < tokens.len() {
        tokens.skip(forward + 1)
    } else {
        Seq::empty()
    }
}

/// The condition without any predicate.
pub open spec fn empty_condition() -> ConditionView {
    ConditionView {
        event_pattern: None,
        channel_pattern: None,
        value_pattern: None,
        velocity_pattern: None,
        controller_pattern: None,
    }
}

/// `condition` with the slot of `field` set to it.
pub open spec fn with_field(condition: ConditionView, field: FieldView) -> ConditionView {
    match field {
        FieldView::Name(pattern) => ConditionView { event_pattern: Some(pattern), ..condition },
        FieldView::Value(range) => ConditionView { value_pattern: Some(range), ..condition },
        FieldView::Channel(range) => ConditionView { channel_pattern: Some(range), ..condition },
        FieldView::Velocity(range) => ConditionView { velocity_pattern: Some(range), ..condition },
        FieldView::Controller(range) => ConditionView {
            controller_pattern: Some(range),
            ..condition
        },
    }
}

/// The condition that the fields `lhs` build: each valid field sets its
/// slot, in order, and an invalid one sets nothing.
pub open spec fn condition_of(lhs: Seq<Seq<char>>) -> ConditionView
    decreases lhs.len(),
{
    if lhs.len() == 0 {
        empty_condition()
    } else {
        let before = condition_of(lhs.drop_last());
        match field_of((lhs.len() - 1) as usize, lhs.last()) {
            Ok(field) => with_field(before, field),
            Err(_) => before,
        }
    }
}

/// The errors of the invalid fields among `lhs`, in order.
pub open spec fn field_errors_of(lhs: Seq<Seq<char>>) -> Seq<FieldErrorView>
    decreases lhs.len(),
{
    if lhs.len() == 0 {
        Seq::empty()
    } else {
        let before = field_errors_of(lhs.drop_last());
        match field_of((lhs.len() - 1) as usize, lhs.last()) {
            Ok(_) => before,
            Err(kind) => before.push(
                FieldErrorView {
                    field_id: (lhs.len() - 1) as usize,
                    content: lhs.last(),
                    kind: Some(kind),
                },
            ),
        }
    }
}

/// The rule that the tokens of line `line_no` stand for, or the error that
/// lists every invalid field of the line.
pub open spec fn rule_of(line_no: usize, tokens: Seq<Seq<char>>) -> Result<
    RuleView,
    RuleErrorView,
> {
    let errors = field_errors_of(lhs_of(tokens));
    if errors.len() > 0 {
        Err(RuleErrorView { line_no, invalid_fields: errors })
    } else {
        Ok(RuleView { condition: condition_of(lhs_of(tokens)), ports: rhs_of(tokens) })
    }
}

/// Whether `result` is the outcome `expected`.
pub open spec fn rule_result_is(
    result: Result<Rule, RuleParseError>,
    expected: Result<RuleView, RuleErrorView>,
) -> bool {
    match expected {
        Ok(view) => result is Ok && result->Ok_0@ == view,
        Err(view) => result is Err && result->Err_0@ == view,
    }
}

/// The rules of the lines that parse, in order. A line without tokens is skipped.
pub open spec fn loaded_rules(lines: Seq<Seq<char>>) -> Seq<RuleView>
    decreases lines.len(),
{
    if lines.len() == 0 {
        Seq::empty()
    } else {
        let before = loaded_rules(lines.drop_last());
        let tokens = tokens_of(lines.last());
        if tokens.len() == 0 {
            before
        } else {
            match rule_of((lines.len() - 1) as usize, tokens) {
                Ok(rule) => before.push(rule),
                Err(_) => before,
            }
        }
    }
}

/// The errors of the lines that do not parse, in order. Each carries the
/// position of its line among all lines, skipped ones included.
pub open spec fn load_errors(lines: Seq<Seq<char>>) -> Seq<RuleErrorView>
    decreases lines.len(),
{
    if lines.len() == 0 {
        Seq::empty()
    } else {
        let before = load_errors(lines.drop_last());
        let tokens = tokens_of(lines.last());
        if tokens.len() == 0 {
            before
        } else {
            match rule_of((lines.len() - 1) as usize, tokens) {
                Ok(_) => before,
                Err(error) => before.push(error),
            }
        }
    }
}

/// Whether `result` is the outcome of loading `lines`: every rule if every
/// line parses, and else every error.
pub open spec fn load_result_is(
    result: Result<Vec<Rule>, RuleConfigError>,
    lines: Seq<Seq<char>>,
) -> bool {
    if load_errors(lines).len() == 0 {
        result is Ok && rule_views(result->Ok_0@) == loaded_rules(lines)
    } else {
        result is Err && result->Err_0@ == load_errors(lines)
    }
}

/// Which side of the separator the parser is on.
#[derive(Debug, Clone, Copy, PartialEq, Eq, Structural)]
pub enum RuleParserState {
    ParseLeftHandSide,
    ParseRightHandSide,
}

/// The slots of a condition while a line is read.
#[derive(Debug)]
pub struct ConditionBuilder {
    pub event_pattern: Option<NamePattern>,
    pub channel_pattern: Option<NumericRange<u8>>,
    pub value_pattern: Option<NumericRange<i16>>,
    pub velocity_pattern: Option<NumericRange<u8>>,
    pub control_no_pattern: Option<NumericRange<u8>>,
}

impl View for ConditionBuilder {
    type V = ConditionView;

    open spec fn view(&self) -> ConditionView {
        ConditionView {
            event_pattern: match self.event_pattern {
                Some(pattern) => Some(pattern@),
                None => None,
            },
            channel_pattern: self.channel_pattern,
            value_pattern: self.value_pattern,
            velocity_pattern: self.velocity_pattern,
            controller_pattern: self.control_no_pattern,
        }
    }
}

impl ConditionBuilder {
    /// A builder with every slot empty.
    pub fn new() -> (builder: ConditionBuilder)
        ensures
            builder@ == empty_condition(),
    {
        ConditionBuilder {
            event_pattern: None,
            channel_pattern: None,
            value_pattern: None,
            velocity_pattern: None,
            control_no_pattern: None,
        }
    }

    /// The condition with the slots as they are.
    pub fn build(self) -> (condition: Condition)
        ensures
            condition@ == self@,
    {
        Condition {
            event_pattern: self.event_pattern,
            channel_pattern: self.channel_pattern,
            value_pattern: self.value_pattern,
            velocity_pattern: self.velocity_pattern,
            controller_pattern: self.control_no_pattern,
        }
    }
}

/// The state of reading one line.
#[derive(Debug)]
pub struct RuleParser {
    pub condition_builder: ConditionBuilder,
    pub errors: Vec<FieldParseError>,
    pub output_names: Vec<String>,
    pub state: RuleParserState,
}

/// Tests whether `token` is the separator `=>`.
fn is_forward(token: &str) -> (forward: bool)
    ensures
        forward == is_forward_symbol(token@),
{
    token.unicode_len() == 2 && token.get_char(0) == '=' && token.get_char(1) == '>'
}

/// The first separator at or behind `from` is at `forward`.
proof fn lemma_forward_index_is(tokens: Seq<Seq<char>>, from: int, forward: int)
    requires
        0 <= from <= forward <= tokens.len(),
        forall|k: int| from <= k < forward ==> !is_forward_symbol(#[trigger] tokens[k]),
        forward == tokens.len() || is_forward_symbol(tokens[forward]),
    ensures
        forward_index(tokens, from) == forward,
    decreases forward - from,
{
    if from < forward {
        lemma_forward_index_is(tokens, from + 1, forward);
    }
}

impl RuleParser {
    /// Whether nothing has been read yet.
    pub open spec fn is_fresh(&self) -> bool {
        &&& self.condition_builder@ == empty_condition()
        &&& self.errors@.len() == 0
        &&& self.output_names@.len() == 0
        &&& self.state == RuleParserState::ParseLeftHandSide
    }

    /// A parser that has read nothing.
    pub fn new() -> (parser: RuleParser)
        ensures
            parser.is_fresh(),
    {
        RuleParser {
            condition_builder: ConditionBuilder::new(),
            errors: Vec::new(),
            output_names: Vec::new(),
            state: RuleParserState::ParseLeftHandSide,
        }
    }

    /// Runs a fresh parser over the line `line` of number `line_no` and
    /// builds its rule.
    pub fn parse(line_no: usize, line: String) -> (result: Result<Rule, RuleParseError>)
        ensures
            rule_result_is(result, rule_of(line_no, tokens_of(line@))),
    {
        let tokens = split_tokens(line.as_str());
        Self::parse_tokens(line_no, &tokens)
    }

    /// Runs a fresh parser over the tokens of line `line_no` and builds its
    /// rule.
    pub fn parse_tokens(line_no: usize, tokens: &Vec<String>) -> (result: Result<
        Rule,
        RuleParseError,
    >)
        ensures
            rule_result_is(result, rule_of(line_no, texts(tokens@))),
    {
        let mut parser = RuleParser::new();
        let ghost all = texts(tokens@);
        let ghost mut forward: int = 0;
        let mut field_id: usize = 0;
        proof {
            assert(all.take(0) =~= Seq::<Seq<char>>::empty());
            assert(field_error_views(parser.errors@) =~= Seq::<FieldErrorView>::empty());
        }
        while field_id < tokens.len()
            invariant
                field_id <= tokens@.len(),
                all == texts(tokens@),
                parser.state == RuleParserState::ParseLeftHandSide ==> {
                    &&& forward == field_id
                    &&& parser.output_names@.len() == 0
                },
                parser.state == RuleParserState::ParseRightHandSide ==> {
                    &&& forward < field_id
                    &&& is_forward_symbol(all[forward])
                    &&& texts(parser.output_names@) == all.subrange(forward + 1, field_id as int)
                },
                0 <= forward <= field_id,
                forall|k: int| 0 <= k < forward ==> !is_forward_symbol(#[trigger] all[k]),
                parser.condition_builder@ == condition_of(all.take(forward)),
                field_error_views(parser.errors@) == field_errors_of(all.take(forward)),
            decreases tokens.len() - field_id,
        {
            let value = tokens[field_id].as_str();
            assert(value@ == all[field_id as int]);
            match parser.state {
                RuleParserState::ParseLeftHandSide => {
                    if is_forward(value) {
                        parser.state = RuleParserState::ParseRightHandSide;
                        proof {
                            assert(texts(parser.output_names@) =~= all.subrange(
                                forward + 1,
                                field_id + 1,
                            ));
                        }
                    } else {
                        proof {
                            assert(all.take(forward + 1).drop_last() =~= all.take(forward));
                            assert(all.take(forward + 1).last() == value@);
                        }
                        parser.parse_lhs(field_id, value);
                        proof {
                            forward = forward + 1;
                        }
                    }
                },
                RuleParserState::ParseRightHandSide => {
                    let ghost before = texts(parser.output_names@);
                    parser.parse_rhs(field_id, value);
                    proof {
                        assert(before.push(value@) =~= all.subrange(forward + 1, field_id + 1));
                    }
                },
            }
            field_id += 1;
        }
        proof {
            lemma_forward_index_is(all, 0, forward);
            if parser.state == RuleParserState::ParseRightHandSide {
                assert(all.subrange(forward + 1, all.len() as int) =~= all.skip(forward + 1));
            } else {
                assert(texts(parser.output_names@) =~= Seq::<Seq<char>>::empty());
            }
        }
        if parser.errors.len() > 0 {
            return Err(RuleParseError::InvalidFields { line_no, invalid_fields: parser.errors });
        }
        let actions = forward_to_all(parser.output_names);
        Ok(Rule { condition: parser.condition_builder.build(), actions })
    }

    /// Reads one field of the left-hand side: a valid field sets its slot, an
    /// invalid one adds its error.
    pub fn parse_lhs(&mut self, field_id: usize, value: &str)
        ensures
            final(self).state == old(self).state,
            final(self).output_names == old(self).output_names,
            final(self).condition_builder@ == match field_of(field_id, value@) {
                Ok(field) => with_field(old(self).condition_builder@, field),
                Err(_) => old(self).condition_builder@,
            },
            field_error_views(final(self).errors@) == match field_of(field_id, value@) {
                Ok(_) => field_error_views(old(self).errors@),
                Err(kind) => field_error_views(old(self).errors@).push(
                    FieldErrorView { field_id, content: value@, kind: Some(kind) },
                ),
            },
    {
        let outcome = parse_field_lhs(field_id, value);
        self.accept_field(outcome);
    }

    /// Takes in the outcome of parsing one field: a field sets its slot and
    /// replaces what the slot held, an error is added behind the others.
    pub fn accept_field(&mut self, outcome: Result<Field, FieldParseError>)
        ensures
            final(self).state == old(self).state,
            final(self).output_names == old(self).output_names,
            final(self).condition_builder@ == match outcome {
                Ok(field) => with_field(old(self).condition_builder@, field@),
                Err(_) => old(self).condition_builder@,
            },
            final(self).errors@ == match outcome {
                Ok(_) => old(self).errors@,
                Err(error) => old(self).errors@.push(error),
            },
    {
        match outcome {
            Ok(Field::NameField { name_pattern }) => {
                self.condition_builder.event_pattern = Some(name_pattern);
            },
            Ok(Field::ValueField { start, end }) => {
                self.condition_builder.value_pattern = Some(NumericRange { start, end });
            },
            Ok(Field::ChannelField { start, end }) => {
                self.condition_builder.channel_pattern = Some(NumericRange { start, end });
            },
            Ok(Field::VelocityField { start, end }) => {
                self.condition_builder.velocity_pattern = Some(NumericRange { start, end });
            },
            Ok(Field::ControlNoField { start, end }) => {
                self.condition_builder.control_no_pattern = Some(NumericRange { start, end });
            },
            Err(error) => {
                self.errors.push(error);
            },
        }
    }

    /// Reads one token of the right-hand side: it names an output port.
    pub fn parse_rhs(&mut self, field_id: usize, value: &str)
        ensures
            final(self).state == old(self).state,
            final(self).errors == old(self).errors,
            final(self).condition_builder == old(self).condition_builder,
            texts(final(self).output_names@) == texts(old(self).output_names@).push(value@),
    {
        let ghost before = texts(self.output_names@);
        self.output_names.push(value.to_owned());
        assert(texts(self.output_names@) =~= before.push(value@));
    }
}

/// One forwarding action for each name, in order.
fn forward_to_all(names: Vec<String>) -> (actions: Vec<Action>)
    ensures
        action_ports(actions@) == texts(names@),
{
    let mut names = names;
    let ghost all = texts(names@);
    let mut actions: Vec<Action> = Vec::new();
    let mut i: usize = 0;
    let n = names.len();
    while i < n
        invariant
            i <= n,
            n == names@.len(),
            all.len() == n,
            action_ports(actions@) == all.take(i as int),
            forall|k: int| i <= k < n ==> (#[trigger] names@[k])@ == all[k],
        decreases n - i,
    {
        let ghost before = action_ports(actions@);
        let mut name = String::new();
        let ghost old_names = names@;
        core::mem::swap(&mut name, &mut names[i]);
        actions.push(Action::ForwardTo { output_port: name });
        proof {
            assert(action_ports(actions@) =~= before.push(name@));
            assert(all.take(i + 1) =~= all.take(i as int).push(all[i as int]));
        }
        i += 1;
    }
    proof {
        assert(all.take(n as int) =~= all);
    }
    actions
}

/// Parses the line `line` of number `line_no` into a rule.
///
/// Every invalid field of the line is reported, not only the first, and a
/// line with an invalid field gives no rule.
pub fn parse_rule(line_no: usize, line: String) -> (result: Result<Rule, RuleParseError>)
    ensures
        rule_result_is(result, rule_of(line_no, tokens_of(line@))),
{
    RuleParser::parse(line_no, line)
}

/// Parses the lines of a configuration into its rules.
///
/// A line without tokens is skipped. If some line does not parse, no rule is
/// returned: the error lists every line that failed, each under its position
/// among all lines, counted from zero.
pub fn load_rules_from_lines(lines: &Vec<String>) -> (result: Result<Vec<Rule>, RuleConfigError>)
    ensures
        load_result_is(result, texts(lines@)),
{
    let ghost all = texts(lines@);
    let mut rules: Vec<Rule> = Vec::new();
    let mut errors: Vec<RuleParseError> = Vec::new();
    let mut line_no: usize = 0;
    proof {
        assert(all.take(0) =~= Seq::<Seq<char>>::empty());
        assert(rule_views(rules@) =~= Seq::<RuleView>::empty());
        assert(rule_error_views(errors@) =~= Seq::<RuleErrorView>::empty());
    }
    while line_no < lines.len()
        invariant
            line_no <= lines@.len(),
            all == texts(lines@),
            rule_views(rules@) == loaded_rules(all.take(line_no as int)),
            rule_error_views(errors@) == load_errors(all.take(line_no as int)),
        decreases lines.len() - line_no,
    {
        let tokens = split_tokens(lines[line_no].as_str());
        proof {
            assert(all.take(line_no + 1).drop_last() =~= all.take(line_no as int));
            assert(all.take(line_no + 1).last() == lines@[line_no as int]@);
        }
        if tokens.len() > 0 {
            let ghost rules_before = rule_views(rules@);
            let ghost errors_before = rule_error_views(errors@);
            match RuleParser::parse_tokens(line_no, &tokens) {
                Ok(rule) => {
                    rules.push(rule);
                    assert(rule_views(rules@) =~= rules_before.push(rule@));
                },
                Err(error) => {
                    errors.push(error);
                    assert(rule_error_views(errors@) =~= errors_before.push(error@));
                },
            }
        }
        line_no += 1;
    }
    proof {
        assert(all.take(lines@.len() as int) =~= all);
    }
    if errors.len() == 0 {
        Ok(rules)
    } else {
        Err(RuleConfigError { errors })
    }
}

/// Parses the text of a configuration, line by line, into its rules.
pub fn load_rules_from_text(text: &str) -> (result: Result<Vec<Rule>, RuleConfigError>)
    ensures
        load_result_is(result, lines_of(text@)),
{
    let lines = split_lines(text);
    load_rules_from_lines(&lines)
}

/// Whether line `i` of `lines` holds tokens that do not parse.
pub open spec fn is_bad_line(lines: Seq<Seq<char>>, i: int) -> bool {
    &&& 0 <= i < lines.len()
    &&& tokens_of(lines[i]).len() > 0
    &&& rule_of(i as usize, tokens_of(lines[i])) is Err
}

/// The error of line `i` of `lines`, where that line is bad.
pub open spec fn line_error(lines: Seq<Seq<char>>, i: int) -> RuleErrorView {
    rule_of(i as usize, tokens_of(lines[i]))->Err_0
}

/// The error of a line lists every invalid field of its left-hand side, not
/// only the first: the field at position `k` is there with its position, its
/// text and the kind of its fault.
pub proof fn lemma_every_invalid_field_is_reported(lhs: Seq<Seq<char>>, k: int)
    requires
        0 <= k < lhs.len(),
        field_of(k as usize, lhs[k]) is Err,
    ensures
        field_errors_of(lhs).contains(
            FieldErrorView {
                field_id: k as usize,
                content: lhs[k],
                kind: Some(field_of(k as usize, lhs[k])->Err_0),
            },
        ),
    decreases lhs.len(),
{
    let init = lhs.drop_last();
    let before = field_errors_of(init);
    if k == lhs.len() - 1 {
        let error = FieldErrorView {
            field_id: k as usize,
            content: lhs[k],
            kind: Some(field_of(k as usize, lhs[k])->Err_0),
        };
        assert(field_errors_of(lhs) == before.push(error));
        assert(before.push(error)[before.len() as int] == error);
    } else {
        assert(init[k] == lhs[k]);
        lemma_every_invalid_field_is_reported(init, k);
        let error = FieldErrorView {
            field_id: k as usize,
            content: lhs[k],
            kind: Some(field_of(k as usize, lhs[k])->Err_0),
        };
        let at = choose|at: int| 0 <= at < before.len() && before[at] == error;
        if field_of((lhs.len() - 1) as usize, lhs.last()) is Err {
            assert(field_errors_of(lhs)[at] == error);
        }
    }
}

/// A line gives a rule exactly if every field of its left-hand side is valid.
pub proof fn lemma_rule_needs_every_field(line_no: usize, tokens: Seq<Seq<char>>)
    ensures
        rule_of(line_no, tokens) is Ok <==> forall|k: int|
            0 <= k < lhs_of(tokens).len() ==> field_of(k as usize, #[trigger] lhs_of(tokens)[k])
                is Ok,
{
    let lhs = lhs_of(tokens);
    if rule_of(line_no, tokens) is Ok {
        assert forall|k: int| 0 <= k < lhs.len() implies field_of(k as usize, #[trigger] lhs[k])
            is Ok by {
            if field_of(k as usize, lhs[k]) is Err {
                lemma_every_invalid_field_is_reported(lhs, k);
            }
        }
    } else {
        lemma_some_field_is_invalid(lhs);
    }
}

/// Where fields were refused, one of them is invalid.
proof fn lemma_some_field_is_invalid(lhs: Seq<Seq<char>>)
    requires
        field_errors_of(lhs).len() > 0,
    ensures
        exists|k: int| 0 <= k < lhs.len() && field_of(k as usize, #[trigger] lhs[k]) is Err,
    decreases lhs.len(),
{
    if lhs.len() > 0 {
        if field_of((lhs.len() - 1) as usize, lhs.last()) is Err {
            assert(lhs[lhs.len() - 1] == lhs.last());
        } else {
            let init = lhs.drop_last();
            lemma_some_field_is_invalid(init);
            let k = choose|k: int| 0 <= k < init.len() && field_of(k as usize, #[trigger] init[k])
                is Err;
            assert(init[k] == lhs[k]);
        }
    }
}

/// Loading goes on behind a bad line: the error of every bad line is
/// reported, whatever stands before or behind it.
pub proof fn lemma_every_bad_line_is_reported(lines: Seq<Seq<char>>, i: int)
    requires
        is_bad_line(lines, i),
    ensures
        load_errors(lines).contains(line_error(lines, i)),
    decreases lines.len(),
{
    let init = lines.drop_last();
    let before = load_errors(init);
    if i == lines.len() - 1 {
        let error = line_error(lines, i);
        assert(load_errors(lines) == before.push(error));
        assert(before.push(error)[before.len() as int] == error);
    } else {
        assert(init[i] == lines[i]);
        lemma_every_bad_line_is_reported(init, i);
        let error = line_error(lines, i);
        let at = choose|at: int| 0 <= at < before.len() && before[at] == error;
        if load_errors(lines).len() > before.len() {
            assert(load_errors(lines)[at] == error);
        }
    }
}

/// Nothing else is reported: each reported error is the error of a bad line,
/// under the position of that line among all lines, and the errors stand in
/// the order of their lines. So there are as many errors as bad lines.
pub proof fn lemma_reported_lines_are_bad(lines: Seq<Seq<char>>)
    requires
        lines.len() <= usize::MAX,
    ensures
        load_errors(lines).len() <= lines.len(),
        forall|k: int|
            0 <= k < load_errors(lines).len() ==> {
                let error = #[trigger] load_errors(lines)[k];
                is_bad_line(lines, error.line_no as int) && error == line_error(
                    lines,
                    error.line_no as int,
                )
            },
        forall|j: int, k: int|
            0 <= j < k < load_errors(lines).len() ==> (#[trigger] load_errors(lines)[j]).line_no < (
            #[trigger] load_errors(lines)[k]).line_no,
    decreases lines.len(),
{
    if lines.len() > 0 {
        let init = lines.drop_last();
        let before = load_errors(init);
        lemma_reported_lines_are_bad(init);
        let last = lines.len() - 1;
        assert forall|k: int| 0 <= k < load_errors(lines).len() implies {
            let error = #[trigger] load_errors(lines)[k];
            is_bad_line(lines, error.line_no as int) && error == line_error(
                lines,
                error.line_no as int,
            )
        } by {
            let error = load_errors(lines)[k];
            if k < before.len() {
                assert(error == before[k]);
                assert(is_bad_line(init, error.line_no as int));
                assert(init[error.line_no as int] == lines[error.line_no as int]);
            } else {
                assert(error == rule_of(last as usize, tokens_of(lines.last()))->Err_0);
                assert(error.line_no == last);
            }
        }
        assert forall|j: int, k: int| 0 <= j < k < load_errors(lines).len() implies (
        #[trigger] load_errors(lines)[j]).line_no < (#[trigger] load_errors(lines)[k]).line_no by {
            assert(load_errors(lines)[j] == before[j]);
            assert(is_bad_line(init, before[j].line_no as int));
            if k < before.len() {
                assert(load_errors(lines)[k] == before[k]);
            } else {
                assert(load_errors(lines)[k].line_no == last);
            }
        }
    }
}

/// Parsing a line is a function of the line: two outcomes for the same line
/// and number agree on success, on what the rule says and on what the error
/// says.
pub proof fn lemma_parsing_is_deterministic(
    first: Result<Rule, RuleParseError>,
    second: Result<Rule, RuleParseError>,
    line_no: usize,
    line: Seq<char>,
)
    requires
        rule_result_is(first, rule_of(line_no, tokens_of(line))),
        rule_result_is(second, rule_of(line_no, tokens_of(line))),
    ensures
        first is Ok <==> second is Ok,
        first is Ok ==> first->Ok_0@ == second->Ok_0@,
        first is Err ==> first->Err_0@ == second->Err_0@,
{
}

/// Loading is a function of the lines: two outcomes for the same lines agree
/// on success, on what the rules say, in order, and on what the errors say.
pub proof fn lemma_loading_is_deterministic(
    first: Result<Vec<Rule>, RuleConfigError>,
    second: Result<Vec<Rule>, RuleConfigError>,
    lines: Seq<Seq<char>>,
)
    requires
        load_result_is(first, lines),
        load_result_is(second, lines),
    ensures
        first is Ok <==> second is Ok,
        first is Ok ==> rule_views(first->Ok_0@) == rule_views(second->Ok_0@),
        first is Err ==> first->Err_0@ == second->Err_0@,
{
}

/// Two tables loaded from the same lines route every event alike.
pub proof fn lemma_same_lines_route_alike(
    first: Vec<Rule>,
    second: Vec<Rule>,
    lines: Seq<Seq<char>>,
    event: MidiEvent,
)
    requires
        load_result_is(Ok(first), lines),
        load_result_is(Ok(second), lines),
    ensures
        routed(first@, event) == routed(second@, event),
{
    lemma_routing_depends_on_views(first@, second@, event);
}

} // verus!
