//! A script: steps to take, each of which asks the outside world for one thing and may call for
//! further steps when it is answered.

use vstd::prelude::*;

use crate::action::{Action, ActionView, Event, EventView};
use crate::first_line::{
    get_first_line_of_file, line_accepts, line_action, line_admits, line_ask, line_expand,
};
use crate::git::{after_listing, git, list_branches, listing_steps};
use crate::host::Host;
use crate::packages::{
    repo_accepts, repo_action, repo_admits, repo_ask, repo_expand, repo_next,
};
use crate::outside::reads_utf8;
use crate::program::{after_exit, failure_steps};
use crate::refresh::{
    refresh_accepts, refresh_action, refresh_admits, refresh_ask, refresh_expand, refresh_next,
};
use crate::services::{list_services, service_table, services_command, show_services};
use crate::stats::{
    stats_accepts, stats_action, stats_admits, stats_ask, stats_expand, stats_next,
};
use crate::step::{say_all, step_views, Step, StepView};
use crate::text::clone_opt;
use crate::vault::{
    follows_earlier_days, password_accepts, password_action, password_admits, password_ask,
    password_expand, password_next,
};

verus! {

// ---------------------------------------------------------------------------
// One step
// ---------------------------------------------------------------------------

/// What a step asks for.
pub open spec fn ask(h: Host, s: StepView) -> ActionView {
    match s {
        StepView::Say(text) => ActionView::Say(text),
        StepView::SayErr(text) => ActionView::SayErr(text),
        StepView::Log(text) => ActionView::Log(text),
        StepView::Guard { path, .. } => ActionView::Exists(path),
        StepView::Run { command, .. } => ActionView::Status(command),
        StepView::Pipe { command, .. } => ActionView::Pipe(command),
        StepView::Rename { from, to } => ActionView::Rename { from, to },
        StepView::Remove(path) => ActionView::Remove(path),
        StepView::RemoveTree(path) => ActionView::RemoveTree(path),
        StepView::Sleep(seconds) => ActionView::Sleep(seconds),
        StepView::UpdateRepos => ActionView::UpdateRepos,
        StepView::Branches { dir } => ActionView::Output(git(dir, seq!["branch"@])),
        StepView::Services => ActionView::Output(services_command()),
        StepView::Halt(outcome) => ActionView::Finish(outcome),
        StepView::FirstLine { stage, path, .. } => line_ask(stage, path),
        StepView::Refresh(s) => refresh_ask(s),
        StepView::Repo(s) => repo_ask(h, s),
        StepView::Stats(s) => stats_ask(h, s),
        StepView::Password(s) => password_ask(h, s),
    }
}

/// Whether an event other than a failure answers a step.
pub open spec fn answers(s: StepView, e: EventView) -> bool {
    match s {
        StepView::Say(_) | StepView::SayErr(_) | StepView::Log(_) => e is Done,
        StepView::Guard { .. } => e is Answer,
        StepView::Run { .. } | StepView::Pipe { .. } => e is Exit,
        StepView::Rename { .. } | StepView::Remove(_) | StepView::RemoveTree(_) => e is Done,
        StepView::Sleep(_) | StepView::UpdateRepos => e is Done,
        StepView::Branches { .. } | StepView::Services => e is Output,
        StepView::Halt(_) => false,
        StepView::FirstLine { stage, .. } => line_accepts(stage, e),
        StepView::Refresh(s) => refresh_accepts(s, e),
        StepView::Repo(s) => repo_accepts(s, e),
        StepView::Stats(s) => stats_accepts(s, e),
        StepView::Password(s) => password_accepts(s, e),
    }
}

/// The steps that the answer to a step calls for.
pub open spec fn expand(h: Host, s: StepView, e: EventView) -> Seq<StepView> {
    match (s, e) {
        (StepView::Run { on_failure, .. }, EventView::Exit(code)) => failure_steps(
            on_failure,
            code,
        ),
        (StepView::Pipe { on_failure, .. }, EventView::Exit(code)) => failure_steps(
            on_failure,
            code,
        ),
        (StepView::Branches { dir }, EventView::Output(output)) => listing_steps(dir, output),
        (StepView::Services, EventView::Output(output)) => say_all(service_table(h, output)),
        (StepView::FirstLine { stage, path, goal }, _) => line_expand(h, stage, path, goal, e),
        (StepView::Refresh(s), _) => refresh_expand(h, s, e),
        (StepView::Repo(s), _) => repo_expand(h, s, e),
        (StepView::Stats(s), _) => stats_expand(h, s, e),
        (StepView::Password(s), _) => password_expand(h, s, e),
        _ => seq![],
    }
}

// ---------------------------------------------------------------------------
// All steps
// ---------------------------------------------------------------------------

/// Whether nothing is left to do.
pub open spec fn finished(todo: Seq<StepView>) -> bool {
    todo.len() == 0 || todo[0] is Halt
}

/// What a script with these steps left asks for.
pub open spec fn next_action(h: Host, todo: Seq<StepView>) -> ActionView {
    if todo.len() == 0 {
        ActionView::Finish(None)
    } else {
        ask(h, todo[0])
    }
}

/// Whether an event answers a script with these steps left. That it could not be done is always an
/// answer, as long as something was asked for.
pub open spec fn accepts(todo: Seq<StepView>, e: EventView) -> bool {
    !finished(todo) && (e is Failed || answers(todo[0], e))
}

/// `todo` without its first `n` steps, or without all of them.
pub open spec fn without(todo: Seq<StepView>, n: int) -> Seq<StepView> {
    if n < todo.len() {
        todo.skip(n)
    } else {
        seq![]
    }
}

/// The steps that are left after an answer. A failure ends the script; where a path that guards
/// steps does not exist they are left out; else the step is replaced by what it calls for.
pub open spec fn advance(h: Host, todo: Seq<StepView>, e: EventView) -> Seq<StepView> {
    match (todo[0], e) {
        (_, EventView::Failed(message)) => seq![StepView::Halt(Some(message))],
        (StepView::Guard { span, .. }, EventView::Answer(false)) => without(todo, 1 + span),
        _ => expand(h, todo[0], e) + todo.skip(1),
    }
}

/// The steps that are left after these answers.
pub open spec fn after(h: Host, todo: Seq<StepView>, events: Seq<EventView>) -> Seq<StepView>
    decreases events.len(),
{
    if events.len() == 0 {
        todo
    } else {
        advance(h, after(h, todo, events.drop_last()), events.last())
    }
}

/// Whether each of these answers is one to what was asked for.
pub open spec fn possible(h: Host, todo: Seq<StepView>, events: Seq<EventView>) -> bool
    decreases events.len(),
{
    events.len() == 0 || (possible(h, todo, events.drop_last()) && accepts(
        after(h, todo, events.drop_last()),
        events.last(),
    ))
}

// ---------------------------------------------------------------------------
// Running it
// ---------------------------------------------------------------------------

/// A script.
#[derive(Debug, PartialEq, Eq)]
pub struct Script {
    // The steps that are left, the next one at the end.
    stack: Vec<Step>,
}

fn step_action(host: &Host, s: &Step) -> (r: Action)
    ensures
        r@ == ask(*host, s@),
{
    match s {
        Step::Say(text) => Action::Say(text.clone()),
        Step::SayErr(text) => Action::SayErr(text.clone()),
        Step::Log(text) => Action::Log(text.clone()),
        Step::Guard { path, .. } => Action::Exists(path.clone()),
        Step::Run { command, .. } => Action::Status(command.copy()),
        Step::Pipe { command, .. } => Action::Pipe(command.copy()),
        Step::Rename { from, to } => Action::Rename { from: from.clone(), to: to.clone() },
        Step::Remove(path) => Action::Remove(path.clone()),
        Step::RemoveTree(path) => Action::RemoveTree(path.clone()),
        Step::Sleep(seconds) => Action::Sleep(*seconds),
        Step::UpdateRepos => Action::UpdateRepos,
        Step::Branches { dir } => Action::Output(list_branches(dir.as_str())),
        Step::Services => Action::Output(list_services()),
        Step::Halt(outcome) => Action::Finish(clone_opt(outcome)),
        Step::FirstLine { stage, path, .. } => line_action(*stage, path.as_str()),
        Step::Refresh(s) => refresh_action(s),
        Step::Repo(s) => repo_action(host, s),
        Step::Stats(s) => stats_action(host, s),
        Step::Password(s) => password_action(host, s),
    }
}

fn step_admits(s: &Step, e: &Event) -> (r: bool)
    ensures
        r == answers(s@, e@),
{
    match s {
        Step::Say(_) | Step::SayErr(_) | Step::Log(_) => matches!(e, Event::Done),
        Step::Guard { .. } => matches!(e, Event::Answer(_)),
        Step::Run { .. } | Step::Pipe { .. } => matches!(e, Event::Exit(_)),
        Step::Rename { .. } | Step::Remove(_) | Step::RemoveTree(_) => matches!(e, Event::Done),
        Step::Sleep(_) | Step::UpdateRepos => matches!(e, Event::Done),
        Step::Branches { .. } | Step::Services => matches!(e, Event::Output(_)),
        Step::Halt(_) => false,
        Step::FirstLine { stage, .. } => line_admits(*stage, e),
        Step::Refresh(s) => refresh_admits(s, e),
        Step::Repo(s) => repo_admits(s, e),
        Step::Stats(s) => stats_admits(s, e),
        Step::Password(s) => password_admits(s, e),
    }
}

fn step_next(host: &Host, s: Step, e: Event) -> (r: Vec<Step>)
    requires
        answers(s@, e@),
    ensures
        step_views(r@) == expand(*host, s@, e@),
        e@ matches EventView::Output(bytes) ==> reads_utf8(bytes),
        e@ matches EventView::Clock(t) ==> follows_earlier_days(t),
{
    let ghost expected = expand(*host, s@, e@);
    let out: Vec<Step> = match (s, e) {
        (Step::Run { on_failure, .. }, Event::Exit(code)) => after_exit(on_failure, code),
        (Step::Pipe { on_failure, .. }, Event::Exit(code)) => after_exit(on_failure, code),
        (Step::Branches { dir }, Event::Output(output)) => after_listing(dir.as_str(), &output),
        (Step::Services, Event::Output(output)) => show_services(host, &output),
        (Step::FirstLine { stage, path, goal }, e) => get_first_line_of_file(
            host,
            stage,
            path,
            goal,
            e,
        ),
        (Step::Refresh(s), e) => refresh_next(host, s, e),
        (Step::Repo(s), e) => repo_next(host, s, e),
        (Step::Stats(s), e) => stats_next(host, s, e),
        (Step::Password(s), e) => password_next(host, s, e),
        _ => Vec::new(),
    };
    proof {
        assert(step_views(out@) =~= expected);
    }
    out
}

/// The steps of `v` in reverse.
fn reversed(v: Vec<Step>) -> (r: Vec<Step>)
    ensures
        step_views(r@).reverse() == step_views(v@),
{
    let ghost all = step_views(v@);
    let mut from: Vec<Step> = v;
    let mut to: Vec<Step> = Vec::new();
    proof {
        assert(step_views(from@) + step_views(to@).reverse() =~= all);
    }
    while from.len() > 0
        invariant
            step_views(from@) + step_views(to@).reverse() == all,
        decreases from@.len(),
    {
        let ghost f = step_views(from@);
        let ghost t = step_views(to@);
        match from.pop() {
            Some(s) => {
                to.push(s);
                proof {
                    assert(f =~= step_views(from@).push(s@));
                    assert(step_views(to@) =~= t.push(s@));
                    assert(step_views(to@).reverse() =~= seq![s@] + t.reverse());
                    assert(step_views(from@) + step_views(to@).reverse() =~= f + t.reverse());
                }
            },
            None => {},
        }
    }
    proof {
        assert(step_views(to@).reverse() =~= all);
    }
    to
}

impl Script {
    /// The steps that are left, the next one first.
    pub closed spec fn todo(self) -> Seq<StepView> {
        step_views(self.stack@).reverse()
    }

    /// A script with these steps.
    pub fn new(steps: Vec<Step>) -> (r: Script)
        ensures
            r.todo() == step_views(steps@),
    {
        Script { stack: reversed(steps) }
    }

    /// Whether nothing is left to do.
    pub fn is_finished(&self) -> (r: bool)
        ensures
            r == finished(self.todo()),
    {
        let n: usize = self.stack.len();
        if n == 0 {
            return true;
        }
        proof {
            assert(self.todo()[0] == self.stack@[n - 1]@);
        }
        matches!(self.stack[n - 1], Step::Halt(_))
    }

    /// What is asked for next.
    pub fn action(&self, host: &Host) -> (r: Action)
        ensures
            r@ == next_action(*host, self.todo()),
    {
        let n: usize = self.stack.len();
        if n == 0 {
            return Action::Finish(None);
        }
        proof {
            assert(self.todo()[0] == self.stack@[n - 1]@);
        }
        step_action(host, &self.stack[n - 1])
    }

    /// Whether an event answers what is asked for.
    pub fn admits(&self, event: &Event) -> (r: bool)
        ensures
            r == accepts(self.todo(), event@),
    {
        if self.is_finished() {
            return false;
        }
        let n: usize = self.stack.len();
        proof {
            assert(self.todo()[0] == self.stack@[n - 1]@);
        }
        matches!(event, Event::Failed(_)) || step_admits(&self.stack[n - 1], event)
    }

    /// Takes note of the answer to what was asked for. What a program wrote is read as the text
    /// that it encodes, and the files that are named by the date come in the order of the days.
    pub fn answer(&mut self, host: &Host, event: Event)
        requires
            accepts(old(self).todo(), event@),
        ensures
            final(self).todo() == advance(*host, old(self).todo(), event@),
            event@ matches EventView::Output(bytes) ==> reads_utf8(bytes),
            event@ matches EventView::Clock(t) ==> follows_earlier_days(t),
    {
        let ghost before = self.todo();
        let ghost expected = advance(*host, before, event@);
        let n: usize = self.stack.len();
        proof {
            assert(before[0] == self.stack@[n - 1]@);
        }
        match event {
            Event::Failed(message) => {
                let end: Vec<Step> = vec![Step::Halt(Some(message))];
                self.stack = end;
                proof {
                    assert(self.todo() =~= expected);
                }
            },
            other => match self.stack.pop() {
                Some(top) => {
                    proof {
                        assert(self.todo() =~= before.skip(1));
                    }
                    match (top, other) {
                        (Step::Guard { path, span }, Event::Answer(false)) => {
                            let left: usize = self.stack.len();
                            let keep: usize = if span < left {
                                left - span
                            } else {
                                0
                            };
                            self.stack.truncate(keep);
                            proof {
                                assert(self.todo() =~= expected);
                            }
                        },
                        (top, other) => {
                            let mut more: Vec<Step> = step_next(host, top, other);
                            proof {
                                assert(step_views(more@) + self.todo() =~= expected);
                            }
                            while more.len() > 0
                                invariant
                                    step_views(more@) + self.todo() == expected,
                                decreases more@.len(),
                            {
                                let ghost m = step_views(more@);
                                let ghost t = self.todo();
                                match more.pop() {
                                    Some(s) => {
                                        self.stack.push(s);
                                        proof {
                                            assert(m =~= step_views(more@).push(s@));
                                            assert(self.todo() =~= seq![s@] + t);
                                            assert(step_views(more@) + self.todo() =~= m + t);
                                        }
                                    },
                                    None => {},
                                }
                            }
                            proof {
                                assert(self.todo() =~= expected);
                            }
                        },
                    }
                },
                None => {},
            },
        }
    }
}

} // verus!
