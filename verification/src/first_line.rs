//! Reading the first line of a file, and what it is read for.

use vstd::prelude::*;

use crate::action::{Action, ActionView, Event, EventView};
use crate::host::Host;
use crate::refresh::{after_hostname, hostname_steps};
use crate::stats::{
    after_frequency, after_temperature, after_uptime, frequency_steps, temperature_steps,
    uptime_steps,
};
use crate::step::{step_views, Goal, GoalView, Stage, Step, StepView};
use crate::text::{
    before, is_white_space, lemma_position_is, text_before, trim, trim_end, trim_start, trimmed,
    Text,
};

verus! {

/// Files shorter than this are read whole.
pub const WHOLE: u64 = 1024;

/// The steps that follow once a line has been read.
pub open spec fn goal_steps(h: Host, goal: GoalView, line: Text) -> Seq<StepView> {
    match goal {
        GoalView::Hostname(routine) => hostname_steps(routine, line),
        GoalView::Frequency(tools) => frequency_steps(h, tools, line),
        GoalView::Temperature { tools, frequency } => temperature_steps(h, tools, frequency, line),
        GoalView::Uptime { tools, frequency, temperature } => uptime_steps(
            tools,
            frequency,
            temperature,
            line,
        ),
    }
}

/// The first line of a text, without white space at either end.
pub open spec fn first_line(text: Text) -> Text {
    trimmed(before(text, '\n'))
}

/// What the reading of a first line asks for.
pub open spec fn line_ask(stage: Stage, path: Text) -> ActionView {
    match stage {
        Stage::Probe => ActionView::Exists(path),
        Stage::Length => ActionView::FileLength(path),
        Stage::Short => ActionView::ReadText(path),
        Stage::Long => ActionView::ReadLine(path),
    }
}

/// Whether an event answers the reading of a first line.
pub open spec fn line_accepts(stage: Stage, e: EventView) -> bool {
    match stage {
        Stage::Probe => e is Answer,
        Stage::Length => e is Length,
        Stage::Short => e is Text,
        Stage::Long => e is Text || e is NotOpened,
    }
}

/// The steps that follow from the answer to the reading of a first line. A file that does not
/// exist, and a long one that cannot be opened, has an empty first line.
pub open spec fn line_expand(
    h: Host,
    stage: Stage,
    path: Text,
    goal: GoalView,
    e: EventView,
) -> Seq<StepView> {
    match (stage, e) {
        (Stage::Probe, EventView::Answer(found)) => if found {
            seq![StepView::FirstLine { stage: Stage::Length, path, goal }]
        } else {
            goal_steps(h, goal, seq![])
        },
        (Stage::Length, EventView::Length(n)) => if n < WHOLE {
            seq![StepView::FirstLine { stage: Stage::Short, path, goal }]
        } else {
            seq![StepView::FirstLine { stage: Stage::Long, path, goal }]
        },
        (Stage::Short, EventView::Text(text)) => goal_steps(h, goal, first_line(text)),
        (Stage::Long, EventView::Text(line)) => goal_steps(h, goal, trimmed(line)),
        (Stage::Long, EventView::NotOpened) => goal_steps(h, goal, seq![]),
        _ => seq![],
    }
}

fn after_line(host: &Host, goal: Goal, line: String) -> (r: Vec<Step>)
    ensures
        step_views(r@) == goal_steps(*host, goal@, line@),
{
    match goal {
        Goal::Hostname(routine) => after_hostname(routine, line),
        Goal::Frequency(tools) => after_frequency(host, tools, line.as_str()),
        Goal::Temperature { tools, frequency } => after_temperature(
            host,
            tools,
            frequency,
            line.as_str(),
        ),
        Goal::Uptime { tools, frequency, temperature } => after_uptime(
            tools,
            frequency,
            temperature,
            line.as_str(),
        ),
    }
}

/// The first line of a text, without white space at either end.
pub fn first_line_of(text: &str) -> (r: String)
    ensures
        r@ == first_line(text@),
{
    let line: String = text_before(text, '\n');
    trim(line.as_str())
}

/// What the reading of a first line asks for.
pub fn line_action(stage: Stage, path: &str) -> (r: Action)
    ensures
        r@ == line_ask(stage, path@),
{
    let path: String = path.to_string();
    match stage {
        Stage::Probe => Action::Exists(path),
        Stage::Length => Action::FileLength(path),
        Stage::Short => Action::ReadText(path),
        Stage::Long => Action::ReadLine(path),
    }
}

/// Whether an event answers the reading of a first line.
pub fn line_admits(stage: Stage, e: &Event) -> (r: bool)
    ensures
        r == line_accepts(stage, e@),
{
    match stage {
        Stage::Probe => matches!(e, Event::Answer(_)),
        Stage::Length => matches!(e, Event::Length(_)),
        Stage::Short => matches!(e, Event::Text(_)),
        Stage::Long => matches!(e, Event::Text(_) | Event::NotOpened),
    }
}

/// The steps that follow from the answer to the reading of a first line.
pub fn get_first_line_of_file(
    host: &Host,
    stage: Stage,
    path: String,
    goal: Goal,
    e: Event,
) -> (r: Vec<Step>)
    requires
        line_accepts(stage, e@),
    ensures
        step_views(r@) == line_expand(*host, stage, path@, goal@, e@),
{
    let ghost expected = line_expand(*host, stage, path@, goal@, e@);
    let out: Vec<Step> = match (stage, e) {
        (Stage::Probe, Event::Answer(found)) => {
            if found {
                vec![Step::FirstLine { stage: Stage::Length, path, goal }]
            } else {
                after_line(host, goal, String::new())
            }
        },
        (Stage::Length, Event::Length(n)) => {
            if n < WHOLE {
                vec![Step::FirstLine { stage: Stage::Short, path, goal }]
            } else {
                vec![Step::FirstLine { stage: Stage::Long, path, goal }]
            }
        },
        (Stage::Short, Event::Text(text)) => after_line(host, goal, first_line_of(text.as_str())),
        (Stage::Long, Event::Text(line)) => after_line(host, goal, trim(line.as_str())),
        (Stage::Long, Event::NotOpened) => after_line(host, goal, String::new()),
        _ => Vec::new(),
    };
    proof {
        assert(step_views(out@) =~= expected);
    }
    out
}

proof fn lemma_trim_start_push(s: Text)
    ensures
        trim_end(trim_start(s.push('\n'))) == trim_end(trim_start(s)),
    decreases s.len(),
{
    if s.len() == 0 {
        assert(s.push('\n').drop_first() =~= s);
    } else if is_white_space(s[0]) {
        lemma_trim_start_push(s.drop_first());
        assert(s.push('\n').drop_first() =~= s.drop_first().push('\n'));
    } else {
        assert(s.push('\n').drop_last() =~= s);
    }
}

/// A file has the same first line whether it is read whole or only up to its first line end.
pub proof fn law_first_line_agrees(line: Text, rest: Text)
    requires
        !line.contains('\n'),
    ensures
        first_line(line + seq!['\n'] + rest) == trimmed(line.push('\n')),
        first_line(line) == trimmed(line),
{
    let text = line + seq!['\n'] + rest;
    assert forall|i: int| 0 <= i < line.len() implies line[i] != '\n' by {
        assert(line.contains(line[i]));
    }
    lemma_position_is(text, '\n', line.len() as int);
    assert(before(text, '\n') =~= line);
    lemma_position_is(line, '\n', line.len() as int);
    assert(before(line, '\n') =~= line);
    lemma_trim_start_push(line);
}

} // verus!
