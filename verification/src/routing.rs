//! The routing table: rules, their conditions, and the ports they forward to.

use vstd::prelude::*;
use crate::midi::{decode_raw_midi, decoded, message_len, DecodeError, MidiEvent};
use crate::pattern::NamePattern;

verus! {

/// A closed interval `[start, end]`.
#[derive(Debug, Clone, Copy, PartialEq, Eq)]
pub struct NumericRange<T> {
    pub start: T,
    pub end: T,
}

impl NumericRange<u8> {
    /// Whether `value` lies between `start` and `end`, both included.
    pub open spec fn contains(&self, value: int) -> bool {
        self.start <= value <= self.end
    }

    /// Tests whether `value` lies in the interval.
    pub fn is_within(&self, value: u8) -> (within: bool)
        ensures
            within == self.contains(value as int),
    {
        value >= self.start && value <= self.end
    }
}

impl NumericRange<i16> {
    /// Whether `value` lies between `start` and `end`, both included.
    pub open spec fn contains(&self, value: int) -> bool {
        self.start <= value <= self.end
    }

    /// Tests whether `value` lies in the interval.
    pub fn is_within(&self, value: i16) -> (within: bool)
        ensures
            within == self.contains(value as int),
    {
        value >= self.start && value <= self.end
    }
}

/// Whether an optional byte range admits `value`; an absent range admits everything.
pub open spec fn admits_u8(range: Option<NumericRange<u8>>, value: int) -> bool {
    match range {
        Some(r) => r.contains(value),
        None => true,
    }
}

/// Whether an optional signed range admits `value`; an absent range admits everything.
pub open spec fn admits_i16(range: Option<NumericRange<i16>>, value: int) -> bool {
    match range {
        Some(r) => r.contains(value),
        None => true,
    }
}

/// A conjunction of optional predicates on an event. An absent predicate holds
/// of every event, and so does one whose field the event does not carry.
#[derive(Debug)]
pub struct Condition {
    pub event_pattern: Option<NamePattern>,
    pub channel_pattern: Option<NumericRange<u8>>,
    pub value_pattern: Option<NumericRange<i16>>,
    pub velocity_pattern: Option<NumericRange<u8>>,
    pub controller_pattern: Option<NumericRange<u8>>,
}

impl Default for Condition {
    fn default() -> (condition: Condition)
        ensures
            condition.event_pattern is None,
            condition.channel_pattern is None,
            condition.value_pattern is None,
            condition.velocity_pattern is None,
            condition.controller_pattern is None,
    {
        Condition {
            event_pattern: None,
            channel_pattern: None,
            value_pattern: None,
            velocity_pattern: None,
            controller_pattern: None,
        }
    }
}

/// What a condition says: the text of its name pattern and its intervals.
pub struct ConditionView {
    pub event_pattern: Option<Seq<char>>,
    pub channel_pattern: Option<NumericRange<u8>>,
    pub value_pattern: Option<NumericRange<i16>>,
    pub velocity_pattern: Option<NumericRange<u8>>,
    pub controller_pattern: Option<NumericRange<u8>>,
}

impl View for Condition {
    type V = ConditionView;

    open spec fn view(&self) -> ConditionView {
        ConditionView {
            event_pattern: match self.event_pattern {
                Some(pattern) => Some(pattern@),
                None => None,
            },
            channel_pattern: self.channel_pattern,
            value_pattern: self.value_pattern,
            velocity_pattern: self.velocity_pattern,
            controller_pattern: self.controller_pattern,
        }
    }
}

impl Condition {
    /// Whether the name pattern, if any, matches the event's kind name.
    pub open spec fn name_holds(&self, event: MidiEvent) -> bool {
        match self.event_pattern {
            Some(pattern) => pattern.accepts(event.spec_kind_name()),
            None => true,
        }
    }

    /// Whether every numeric predicate holds of the field it applies to.
    pub open spec fn fields_hold(&self, event: MidiEvent) -> bool {
        &&& event.channel_field() matches Some(channel) ==> admits_u8(
            self.channel_pattern,
            channel,
        )
        &&& event.value_field() matches Some(value) ==> admits_i16(self.value_pattern, value)
        &&& event.velocity_field() matches Some(velocity) ==> admits_u8(
            self.velocity_pattern,
            velocity,
        )
        &&& event.controller_field() matches Some(controller) ==> admits_u8(
            self.controller_pattern,
            controller,
        )
    }

    /// Whether the condition holds of `event`.
    pub open spec fn spec_matches(&self, event: MidiEvent) -> bool {
        self.name_holds(event) && self.fields_hold(event)
    }

    /// Decides whether the condition holds of `midi_event`.
    pub fn matches(&self, midi_event: &MidiEvent) -> (matched: bool)
        ensures
            matched == self.spec_matches(*midi_event),
    {
        let name_matched = match &self.event_pattern {
            Some(pattern) => pattern.is_match(midi_event.kind_name()),
            None => true,
        };
        name_matched && self.fields_match(midi_event)
    }

    /// Decides whether every numeric predicate holds of the field of
    /// `midi_event` that it applies to. The name pattern is not consulted.
    pub fn fields_match(&self, midi_event: &MidiEvent) -> (matched: bool)
        ensures
            matched == self.fields_hold(*midi_event),
    {
        match *midi_event {
            MidiEvent::NoteOff { channel, note, velocity }
            | MidiEvent::NoteOn { channel, note, velocity }
            | MidiEvent::PolyphonicAftertouch { channel, note, pressure: velocity } => {
                self.match_velocity(velocity) && self.match_value_u8(note) && self.match_channel(
                    channel,
                )
            },
            MidiEvent::ControlChange { channel, control_no, value } => {
                self.match_channel(channel) && self.match_control_no(control_no)
                    && self.match_value_u8(value)
            },
            MidiEvent::ProgramChange { channel, program: value }
            | MidiEvent::ChannelAftertouch { channel, pressure: value } => {
                self.match_channel(channel) && self.match_value_u8(value)
            },
            MidiEvent::PitchBendChange { channel, value } => {
                self.match_channel(channel) && self.match_value(value)
            },
            MidiEvent::SongSelect { song_num } => self.match_value_u8(song_num),
            _ => true,
        }
    }

    fn match_channel(&self, channel: u8) -> (matched: bool)
        ensures
            matched == admits_u8(self.channel_pattern, channel as int),
    {
        match_range_u8(&self.channel_pattern, channel)
    }

    fn match_value(&self, value: i16) -> (matched: bool)
        ensures
            matched == admits_i16(self.value_pattern, value as int),
    {
        match &self.value_pattern {
            Some(range) => range.is_within(value),
            None => true,
        }
    }

    fn match_value_u8(&self, value: u8) -> (matched: bool)
        ensures
            matched == admits_i16(self.value_pattern, value as int),
    {
        self.match_value(value as i16)
    }

    fn match_velocity(&self, velocity: u8) -> (matched: bool)
        ensures
            matched == admits_u8(self.velocity_pattern, velocity as int),
    {
        match_range_u8(&self.velocity_pattern, velocity)
    }

    fn match_control_no(&self, controller: u8) -> (matched: bool)
        ensures
            matched == admits_u8(self.controller_pattern, controller as int),
    {
        match_range_u8(&self.controller_pattern, controller)
    }
}

fn match_range_u8(range: &Option<NumericRange<u8>>, value: u8) -> (matched: bool)
    ensures
        matched == admits_u8(*range, value as int),
{
    match range {
        Some(r) => r.is_within(value),
        None => true,
    }
}

/// What happens to an event whose rule matched.
#[derive(Debug, Clone, PartialEq, Eq)]
pub enum Action {
    /// The event is written to the named output port.
    ForwardTo { output_port: String },
}

impl Action {
    /// The name of the port this action forwards to.
    pub open spec fn port(&self) -> Seq<char> {
        match self {
            Action::ForwardTo { output_port } => output_port@,
        }
    }
}

/// A condition and the actions taken on the events it holds of, in order.
#[derive(Debug)]
pub struct Rule {
    pub condition: Condition,
    pub actions: Vec<Action>,
}

/// What a rule says: its condition and the ports it forwards to, in order.
pub struct RuleView {
    pub condition: ConditionView,
    pub ports: Seq<Seq<char>>,
}

impl View for Rule {
    type V = RuleView;

    open spec fn view(&self) -> RuleView {
        RuleView { condition: self.condition@, ports: action_ports(self.actions@) }
    }
}

/// The views of a list of rules.
pub open spec fn rule_views(rules: Seq<Rule>) -> Seq<RuleView> {
    rules.map_values(|rule: Rule| rule@)
}

/// The port names of a list of actions, in order.
pub open spec fn action_ports(actions: Seq<Action>) -> Seq<Seq<char>> {
    actions.map_values(|action: Action| action.port())
}

/// The ports that `rules` send `event` to: the ports of every matching rule,
/// rule by rule and action by action, duplicates kept.
pub open spec fn routed(rules: Seq<Rule>, event: MidiEvent) -> Seq<Seq<char>>
    decreases rules.len(),
{
    if rules.len() == 0 {
        Seq::empty()
    } else {
        let last = rules.last();
        routed(rules.drop_last(), event) + if last.condition.spec_matches(event) {
            action_ports(last.actions@)
        } else {
            Seq::empty()
        }
    }
}

/// Every port name that an action of `rules` mentions, in order of appearance.
pub open spec fn mentioned_ports(rules: Seq<Rule>) -> Seq<Seq<char>>
    decreases rules.len(),
{
    if rules.len() == 0 {
        Seq::empty()
    } else {
        mentioned_ports(rules.drop_last()) + action_ports(rules.last().actions@)
    }
}

/// `names` without repetitions: each name stays where it first appears.
pub open spec fn distinct(names: Seq<Seq<char>>) -> Seq<Seq<char>>
    decreases names.len(),
{
    if names.len() == 0 {
        Seq::empty()
    } else if names.drop_last().contains(names.last()) {
        distinct(names.drop_last())
    } else {
        distinct(names.drop_last()).push(names.last())
    }
}

/// The texts of a list of borrowed port names.
pub open spec fn port_names(ports: Seq<&str>) -> Seq<Seq<char>> {
    ports.map_values(|port: &str| port@)
}

/// The texts of a list of borrowed owned port names.
pub open spec fn owned_port_names(ports: Seq<&String>) -> Seq<Seq<char>> {
    ports.map_values(|port: &String| port@)
}

/// The ordered list of rules.
#[derive(Debug)]
pub struct RoutingTable {
    pub rules: Vec<Rule>,
}

impl RoutingTable {
    /// Lists every output port that some action names, each once, in order
    /// of first appearance.
    pub fn get_all_output_ports<'a>(&'a self) -> (ports: Vec<&'a String>)
        ensures
            owned_port_names(ports@) == distinct(mentioned_ports(self.rules@)),
            owned_port_names(ports@).no_duplicates(),
            owned_port_names(ports@).to_set() == mentioned_ports(self.rules@).to_set(),
    {
        let mut ports: Vec<&'a String> = Vec::new();
        let mut i: usize = 0;
        proof {
            assert(owned_port_names(ports@) =~= Seq::<Seq<char>>::empty());
        }
        while i < self.rules.len()
            invariant
                i <= self.rules.len(),
                owned_port_names(ports@) == distinct(mentioned_ports(self.rules@.take(i as int))),
            decreases self.rules.len() - i,
        {
            let actions = &self.rules[i].actions;
            let ghost before = mentioned_ports(self.rules@.take(i as int));
            let mut j: usize = 0;
            proof {
                assert(before + action_ports(actions@.take(0)) =~= before);
            }
            while j < actions.len()
                invariant
                    j <= actions.len(),
                    owned_port_names(ports@) == distinct(
                        before + action_ports(actions@.take(j as int)),
                    ),
                decreases actions.len() - j,
            {
                let name: &'a String = match &actions[j] {
                    Action::ForwardTo { output_port } => output_port,
                };
                let ghost seen = before + action_ports(actions@.take(j as int));
                let ghost next = before + action_ports(actions@.take(j + 1));
                let ghost listed = owned_port_names(ports@);
                proof {
                    assert(actions@.take(j + 1) =~= actions@.take(j as int).push(actions@[j as int]));
                    assert(next =~= seen.push(name@));
                    assert(next.drop_last() =~= seen);
                    lemma_distinct_keeps_every_name(seen, name@);
                }
                if !contains_port(&ports, name) {
                    ports.push(name);
                    assert(owned_port_names(ports@) =~= listed.push(name@));
                }
                j += 1;
            }
            proof {
                assert(actions@.take(actions@.len() as int) =~= actions@);
                assert(self.rules@.take(i + 1).drop_last() =~= self.rules@.take(i as int));
                assert(self.rules@.take(i + 1).last() == self.rules@[i as int]);
            }
            i += 1;
        }
        proof {
            assert(self.rules@.take(self.rules@.len() as int) =~= self.rules@);
            let all = mentioned_ports(self.rules@);
            assert forall|name: Seq<char>| distinct(all).contains(name) <==> all.contains(name) by {
                lemma_distinct_keeps_every_name(all, name);
            }
            lemma_distinct_keeps_every_name(all, Seq::empty());
            assert(distinct(all).to_set() =~= all.to_set());
        }
        ports
    }

    /// Routes `midi_event`: the ports of every rule whose condition holds of
    /// it, in rule order and then action order, duplicates kept.
    pub fn get_output_ports<'a>(&'a self, midi_event: MidiEvent) -> (ports: Vec<&'a str>)
        ensures
            port_names(ports@) == routed(self.rules@, midi_event),
    {
        let mut ports: Vec<&'a str> = Vec::new();
        let mut i: usize = 0;
        while i < self.rules.len()
            invariant
                i <= self.rules.len(),
                port_names(ports@) == routed(self.rules@.take(i as int), midi_event),
            decreases self.rules.len() - i,
        {
            let rule = &self.rules[i];
            proof {
                assert(self.rules@.take(i + 1).drop_last() =~= self.rules@.take(i as int));
                assert(self.rules@.take(i + 1).last() == self.rules@[i as int]);
            }
            if rule.condition.matches(&midi_event) {
                let mut found = Self::get_ports_from_actions(&rule.actions);
                let ghost before = port_names(ports@);
                ports.append(&mut found);
                proof {
                    assert(port_names(ports@) =~= before + action_ports(rule.actions@));
                }
            } else {
                proof {
                    assert(port_names(ports@) + Seq::<Seq<char>>::empty() =~= port_names(ports@));
                }
            }
            i += 1;
        }
        proof {
            assert(self.rules@.take(self.rules@.len() as int) =~= self.rules@);
        }
        ports
    }

    /// Decides what happens to one raw message: it is decoded and routed, or
    /// it is to be skipped because its status byte names no message family.
    /// The decoded event is handed back beside its ports.
    pub fn route_raw_midi<'a>(&'a self, bytes: &[u8]) -> (result: Result<
        (MidiEvent, Vec<&'a str>),
        DecodeError,
    >)
        requires
            bytes@.len() >= 1,
            bytes@.len() >= message_len(bytes@[0]),
        ensures
            match decoded(bytes@) {
                Ok(event) => result is Ok && result->Ok_0.0 == event && port_names(
                    result->Ok_0.1@,
                ) == routed(self.rules@, event),
                Err(error) => result == Err::<(MidiEvent, Vec<&'a str>), DecodeError>(error),
            },
    {
        match decode_raw_midi(bytes) {
            Ok(event) => Ok((event, self.get_output_ports(event))),
            Err(error) => Err(error),
        }
    }

    /// The ports that a list of actions forwards to, in order.
    pub fn get_ports_from_actions<'a>(actions: &'a Vec<Action>) -> (ports: Vec<&'a str>)
        ensures
            port_names(ports@) == action_ports(actions@),
    {
        let mut ports: Vec<&'a str> = Vec::new();
        let mut j: usize = 0;
        while j < actions.len()
            invariant
                j <= actions.len(),
                port_names(ports@) == action_ports(actions@.take(j as int)),
            decreases actions.len() - j,
        {
            let ghost before = port_names(ports@);
            let port = Self::get_port_from_action(&actions[j]);
            ports.push(port);
            proof {
                assert(actions@.take(j + 1) =~= actions@.take(j as int).push(actions@[j as int]));
                assert(port_names(ports@) =~= before.push(port@));
                assert(action_ports(actions@.take(j + 1)) =~= before.push(port@));
            }
            j += 1;
        }
        proof {
            assert(actions@.take(actions@.len() as int) =~= actions@);
        }
        ports
    }

    /// The port that one action forwards to.
    pub fn get_port_from_action<'a>(action: &'a Action) -> (port: &'a str)
        ensures
            port@ == action.port(),
    {
        match action {
            Action::ForwardTo { output_port } => output_port.as_str(),
        }
    }
}

/// Tests whether `name` is already among `ports`.
fn contains_port(ports: &Vec<&String>, name: &String) -> (found: bool)
    ensures
        found == owned_port_names(ports@).contains(name@),
{
    let mut k: usize = 0;
    while k < ports.len()
        invariant
            k <= ports.len(),
            forall|m: int| 0 <= m < k ==> owned_port_names(ports@)[m] != name@,
        decreases ports.len() - k,
    {
        if *ports[k] == *name {
            assert(owned_port_names(ports@)[k as int] == name@);
            return true;
        }
        k += 1;
    }
    false
}

/// A value is in `s.push(x)` exactly if it is in `s` or is `x`.
proof fn lemma_push_contains(s: Seq<Seq<char>>, x: Seq<char>, p: Seq<char>)
    ensures
        s.push(x).contains(p) <==> (s.contains(p) || p == x),
{
    if s.contains(p) {
        let k = choose|k: int| 0 <= k < s.len() && s[k] == p;
        assert(s.push(x)[k] == p);
    }
    if p == x {
        assert(s.push(x)[s.len() as int] == p);
    }
}

/// Pushing a value that is not yet there keeps a list free of duplicates.
proof fn lemma_push_no_duplicates(s: Seq<Seq<char>>, x: Seq<char>)
    requires
        s.no_duplicates(),
        !s.contains(x),
    ensures
        s.push(x).no_duplicates(),
{
    assert forall|a: int, b: int| 0 <= a < s.push(x).len() && 0 <= b < s.push(x).len() && a != b implies s.push(x)[a] != s.push(x)[b] by {
        if a < s.len() && b < s.len() {
        } else if a < s.len() {
            assert(s.contains(s[a]));
        } else if b < s.len() {
            assert(s.contains(s[b]));
        }
    }
}

/// Whether a condition holds of an event depends only on what the condition
/// says: two conditions with the same view hold of the same events.
pub proof fn lemma_matching_depends_on_view(first: Condition, second: Condition, event: MidiEvent)
    requires
        first@ == second@,
    ensures
        first.spec_matches(event) == second.spec_matches(event),
{
    assert(first@.event_pattern == second@.event_pattern);
    assert(first.channel_pattern == second.channel_pattern);
    assert(first.value_pattern == second.value_pattern);
    assert(first.velocity_pattern == second.velocity_pattern);
    assert(first.controller_pattern == second.controller_pattern);
}

/// Routing is a function of what the rules say and of the event: two rule
/// lists with the same views send every event to the same ports, in the same
/// order.
pub proof fn lemma_routing_depends_on_views(first: Seq<Rule>, second: Seq<Rule>, event: MidiEvent)
    requires
        rule_views(first) == rule_views(second),
    ensures
        routed(first, event) == routed(second, event),
    decreases first.len(),
{
    assert(first.len() == rule_views(first).len());
    assert(second.len() == rule_views(second).len());
    if first.len() > 0 {
        let n = first.len() - 1;
        assert(first.last()@ == rule_views(first)[n]);
        assert(second.last()@ == rule_views(second)[n]);
        lemma_matching_depends_on_view(first.last().condition, second.last().condition, event);
        assert(rule_views(first.drop_last()) =~= rule_views(first).drop_last());
        assert(rule_views(second.drop_last()) =~= rule_views(second).drop_last());
        lemma_routing_depends_on_views(first.drop_last(), second.drop_last(), event);
    }
}

/// Rules fire side by side: an event goes to the ports of the first rules,
/// then to those of the rules behind them.
pub proof fn lemma_routing_follows_rule_order(first: Seq<Rule>, second: Seq<Rule>, event: MidiEvent)
    ensures
        routed(first + second, event) == routed(first, event) + routed(second, event),
    decreases second.len(),
{
    if second.len() == 0 {
        assert(first + second =~= first);
        assert(routed(first, event) + routed(second, event) =~= routed(first, event));
    } else {
        assert((first + second).drop_last() =~= first + second.drop_last());
        assert((first + second).last() == second.last());
        lemma_routing_follows_rule_order(first, second.drop_last(), event);
        let tail = if second.last().condition.spec_matches(event) {
            action_ports(second.last().actions@)
        } else {
            Seq::empty()
        };
        assert((routed(first, event) + routed(second.drop_last(), event)) + tail =~= routed(
            first,
            event,
        ) + (routed(second.drop_last(), event) + tail));
    }
}

/// Where every rule matches, the event goes to every port that the rules
/// mention, rule by rule and action by action, repetitions included.
pub proof fn lemma_all_matching_rules_fire(rules: Seq<Rule>, event: MidiEvent)
    requires
        forall|i: int| 0 <= i < rules.len() ==> (#[trigger] rules[i]).condition.spec_matches(event),
    ensures
        routed(rules, event) == mentioned_ports(rules),
    decreases rules.len(),
{
    if rules.len() > 0 {
        let init = rules.drop_last();
        assert forall|i: int| 0 <= i < init.len() implies (#[trigger] init[i]).condition.spec_matches(
            event,
        ) by {
            assert(init[i] == rules[i]);
        }
        lemma_all_matching_rules_fire(init, event);
        assert(rules.last() == rules[rules.len() - 1]);
    }
}

/// A rule that does not match sends the event nowhere, and a rule without
/// actions sends no event anywhere.
pub proof fn lemma_silent_rule_adds_nothing(rules: Seq<Rule>, rule: Rule, event: MidiEvent)
    requires
        !rule.condition.spec_matches(event) || rule.actions@.len() == 0,
    ensures
        routed(rules.push(rule), event) == routed(rules, event),
{
    assert(rules.push(rule).drop_last() =~= rules);
    assert(rules.push(rule).last() == rule);
    if rule.actions@.len() == 0 {
        assert(action_ports(rule.actions@) =~= Seq::<Seq<char>>::empty());
    }
    assert(routed(rules, event) + Seq::<Seq<char>>::empty() =~= routed(rules, event));
}

/// An event goes only to ports that the rules mention: every routed port is
/// among those that `get_all_output_ports` lists.
pub proof fn lemma_routed_ports_are_mentioned(rules: Seq<Rule>, event: MidiEvent, k: int)
    requires
        0 <= k < routed(rules, event).len(),
    ensures
        mentioned_ports(rules).contains(routed(rules, event)[k]),
        distinct(mentioned_ports(rules)).contains(routed(rules, event)[k]),
    decreases rules.len(),
{
    if rules.len() > 0 {
        let init = rules.drop_last();
        let head = routed(init, event);
        let ports = action_ports(rules.last().actions@);
        let all = mentioned_ports(rules);
        if k < head.len() {
            lemma_routed_ports_are_mentioned(init, event, k);
            let at = choose|at: int|
                0 <= at < mentioned_ports(init).len() && mentioned_ports(init)[at] == head[k];
            assert(all[at] == head[k]);
        } else {
            let at = mentioned_ports(init).len() + (k - head.len());
            assert(all[at] == ports[k - head.len()]);
        }
    }
    lemma_distinct_keeps_every_name(mentioned_ports(rules), routed(rules, event)[k]);
}

/// Dropping repetitions drops no name and adds none.
pub proof fn lemma_distinct_keeps_every_name(names: Seq<Seq<char>>, name: Seq<char>)
    ensures
        distinct(names).contains(name) <==> names.contains(name),
        distinct(names).no_duplicates(),
    decreases names.len(),
{
    if names.len() > 0 {
        let init = names.drop_last();
        let last = names.last();
        lemma_distinct_keeps_every_name(init, name);
        lemma_distinct_keeps_every_name(init, last);
        assert(names =~= init.push(last));
        lemma_push_contains(init, last, name);
        if !init.contains(last) {
            lemma_push_contains(distinct(init), last, name);
            lemma_push_no_duplicates(distinct(init), last);
        }
    }
}

} // verus!
