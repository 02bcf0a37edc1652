//! What a run asks for from its beginning to its end.

use vstd::prelude::*;

use crate::action::{ActionView, CommandView, EventView};
use crate::cleanup::asked;
use crate::host::Host;
use crate::program::failure_steps;
use crate::runs::law_runs_compose;
use crate::script::{accepts, advance, after, answers, ask, expand, next_action, possible, without};
use crate::step::{FailureView, StepView};
use crate::text::Text;

verus! {

/// To run a program with these arguments, in the current directory, on the terminal.
pub open spec fn to_run(program: Text, args: Seq<Text>) -> ActionView {
    ActionView::Status(CommandView { program, args, dir: None })
}

/// To run a program with these arguments, in the current directory, and to pass on what it writes.
pub open spec fn to_pipe(program: Text, args: Seq<Text>) -> ActionView {
    ActionView::Pipe(CommandView { program, args, dir: None })
}

/// These actions, but only under a condition.
pub open spec fn provided(condition: bool, actions: Seq<ActionView>) -> Seq<ActionView> {
    if condition {
        actions
    } else {
        seq![]
    }
}

// ---------------------------------------------------------------------------
// Runs that are told answer by answer
// ---------------------------------------------------------------------------

/// Whether these answers fit, lead from `todo` to `end`, and answer what `trace` asked for.
pub open spec fn goes(
    h: Host,
    todo: Seq<StepView>,
    events: Seq<EventView>,
    end: Seq<StepView>,
    trace: Seq<ActionView>,
) -> bool {
    &&& possible(h, todo, events)
    &&& after(h, todo, events) == end
    &&& asked(h, todo, events) == trace
}

pub proof fn lemma_start(h: Host, todo: Seq<StepView>)
    ensures
        goes(h, todo, seq![], todo, seq![]),
{
}

/// One more answer.
pub proof fn lemma_then(
    h: Host,
    todo: Seq<StepView>,
    events: Seq<EventView>,
    s: StepView,
    rest: Seq<StepView>,
    trace: Seq<ActionView>,
    e: EventView,
)
    requires
        goes(h, todo, events, seq![s] + rest, trace),
        answers(s, e),
        !(e is Failed),
        !(s is Guard),
        !(s is Halt),
    ensures
        goes(h, todo, events.push(e), expand(h, s, e) + rest, trace.push(ask(h, s))),
{
    let now = seq![s] + rest;
    assert(events.push(e).drop_last() =~= events);
    assert(now[0] == s);
    assert(now.skip(1) =~= rest);
}

/// One more answer, to the question whether the path that guards steps exists.
pub proof fn lemma_then_guard(
    h: Host,
    todo: Seq<StepView>,
    events: Seq<EventView>,
    path: Text,
    span: usize,
    rest: Seq<StepView>,
    trace: Seq<ActionView>,
    found: bool,
)
    requires
        goes(h, todo, events, seq![StepView::Guard { path, span }] + rest, trace),
    ensures
        goes(
            h,
            todo,
            events.push(EventView::Answer(found)),
            if found {
                rest
            } else {
                without(rest, span as int)
            },
            trace.push(ActionView::Exists(path)),
        ),
{
    let e = EventView::Answer(found);
    let now = seq![StepView::Guard { path, span }] + rest;
    assert(events.push(e).drop_last() =~= events);
    assert(now[0] == StepView::Guard { path, span });
    assert(now.skip(1) =~= rest);
    if found {
        assert(advance(h, now, e) =~= rest);
    } else {
        assert(advance(h, now, e) =~= without(rest, span as int));
    }
}

proof fn lemma_asked_adds(h: Host, todo: Seq<StepView>, a: Seq<EventView>, b: Seq<EventView>)
    ensures
        asked(h, todo, a + b) == asked(h, todo, a) + asked(h, after(h, todo, a), b),
        possible(h, todo, a) && possible(h, after(h, todo, a), b) ==> possible(h, todo, a + b),
    decreases b.len(),
{
    if b.len() == 0 {
        assert(a + b =~= a);
        assert(asked(h, todo, a) + asked(h, after(h, todo, a), b) =~= asked(h, todo, a));
    } else {
        let init = b.drop_last();
        lemma_asked_adds(h, todo, a, init);
        law_runs_compose(h, todo, a, init);
        assert((a + b).drop_last() =~= a + init);
        assert((a + b).last() == b.last());
        assert(asked(h, todo, a + b) =~= asked(h, todo, a) + asked(h, after(h, todo, a), b));
    }
}

/// A run can be put together from two.
pub proof fn lemma_goes_on(
    h: Host,
    todo: Seq<StepView>,
    a: Seq<EventView>,
    mid: Seq<StepView>,
    b: Seq<EventView>,
    end: Seq<StepView>,
    ta: Seq<ActionView>,
    tb: Seq<ActionView>,
)
    requires
        goes(h, todo, a, mid, ta),
        goes(h, mid, b, end, tb),
    ensures
        goes(h, todo, a + b, end, ta + tb),
{
    lemma_asked_adds(h, todo, a, b);
    law_runs_compose(h, todo, a, b);
}

// ---------------------------------------------------------------------------
// Runs on a host that has some files
// ---------------------------------------------------------------------------

/// Whether a run was told, each time it asked, whether a path is one of those that exist.
pub open spec fn told(
    h: Host,
    todo: Seq<StepView>,
    events: Seq<EventView>,
    there: spec_fn(Text) -> bool,
) -> bool
    decreases events.len(),
{
    events.len() == 0 || (told(h, todo, events.drop_last(), there) && (next_action(
        h,
        after(h, todo, events.drop_last()),
    ) matches ActionView::Exists(path) ==> events.last() == EventView::Answer(there(path))))
}

/// Whether every program in a run ended with the exit code zero.
pub open spec fn all_succeeded(events: Seq<EventView>) -> bool {
    forall|i: int|
        0 <= i < events.len() ==> (#[trigger] events[i] matches EventView::Exit(code) ==> code
            == Some(0i32))
}

/// Whether an action only writes a line.
pub open spec fn is_line(a: ActionView) -> bool {
    a is Say || a is SayErr || a is Log
}

/// What is asked for besides lines of output.
pub open spec fn doings(trace: Seq<ActionView>) -> Seq<ActionView>
    decreases trace.len(),
{
    if trace.len() == 0 {
        seq![]
    } else if is_line(trace.last()) {
        doings(trace.drop_last())
    } else {
        doings(trace.drop_last()).push(trace.last())
    }
}

pub proof fn lemma_doings_add(a: Seq<ActionView>, b: Seq<ActionView>)
    ensures
        doings(a + b) == doings(a) + doings(b),
    decreases b.len(),
{
    if b.len() == 0 {
        assert(a + b =~= a);
        assert(doings(a) + doings(b) =~= doings(a));
    } else {
        lemma_doings_add(a, b.drop_last());
        assert((a + b).drop_last() =~= a + b.drop_last());
        assert((a + b).last() == b.last());
        assert(doings(a + b) =~= doings(a) + doings(b));
    }
}

/// What steps ask for on a host where just these paths exist, as long as no failure ends them.
pub closed spec fn course(
    h: Host,
    todo: Seq<StepView>,
    there: spec_fn(Text) -> bool,
) -> Seq<ActionView>
    decreases todo.len(),
{
    if todo.len() == 0 {
        seq![]
    } else {
        match todo[0] {
            StepView::Guard { path, span } => seq![ActionView::Exists(path)] + (if there(path) {
                course(h, todo.skip(1), there)
            } else {
                course(h, without(todo, 1 + span), there)
            }),
            s => seq![ask(h, s)] + course(h, todo.skip(1), there),
        }
    }
}

/// Whether a failure only leads to a line, or to an end in failure.
pub open spec fn goes_on_or_fails(on_failure: Option<FailureView>) -> bool {
    on_failure matches Some(f) ==> f.cleanup is None && !(f.verdict is Finish)
}

/// Whether a step calls for nothing more when it is answered, but for what follows from a failure.
pub open spec fn is_flat(s: StepView) -> bool {
    match s {
        StepView::Say(_) | StepView::SayErr(_) | StepView::Log(_) => true,
        StepView::Guard { .. } | StepView::Rename { .. } | StepView::Remove(_) => true,
        StepView::RemoveTree(_) | StepView::Sleep(_) | StepView::UpdateRepos => true,
        StepView::Run { on_failure, .. } => goes_on_or_fails(on_failure),
        StepView::Pipe { on_failure, .. } => goes_on_or_fails(on_failure),
        _ => false,
    }
}

pub open spec fn all_flat(todo: Seq<StepView>) -> bool {
    forall|i: int| 0 <= i < todo.len() ==> is_flat(#[trigger] todo[i])
}

/// Whether a step is what a failure leads to.
spec fn is_aftermath(s: StepView) -> bool {
    s is Say || s is Log || (s matches StepView::Halt(outcome) && outcome is Some)
}

spec fn all_aftermath(steps: Seq<StepView>) -> bool {
    forall|i: int| 0 <= i < steps.len() ==> is_aftermath(#[trigger] steps[i])
}

proof fn lemma_aftermath(on_failure: Option<FailureView>, code: Option<i32>)
    requires
        goes_on_or_fails(on_failure),
    ensures
        all_aftermath(failure_steps(on_failure, code)),
        code == Some(0i32) ==> failure_steps(on_failure, code).len() == 0,
{
}

/// How far a run has come: it has failed; or `extra` and what follows the first `k` steps is left.
spec fn has_come(
    h: Host,
    todo: Seq<StepView>,
    there: spec_fn(Text) -> bool,
    events: Seq<EventView>,
    extra: Seq<StepView>,
    k: int,
) -> bool {
    &&& 0 <= k <= todo.len()
    &&& all_aftermath(extra)
    &&& after(h, todo, events) == extra + todo.skip(k)
    &&& doings(asked(h, todo, events)) + doings(course(h, todo.skip(k), there)) == doings(
        course(h, todo, there),
    )
    &&& all_succeeded(events) ==> extra.len() == 0 && asked(h, todo, events) + course(
        h,
        todo.skip(k),
        there,
    ) == course(h, todo, there)
}

spec fn has_failed(todo: Seq<StepView>) -> bool {
    todo.len() > 0 && (todo[0] matches StepView::Halt(outcome) && outcome is Some)
}

/// One more action of a course has been asked for.
proof fn lemma_one_more(
    before: Seq<ActionView>,
    a: ActionView,
    c: Seq<ActionView>,
)
    ensures
        doings(before.push(a)) + doings(c) == doings(before) + doings(seq![a] + c),
        before.push(a) + c == before + (seq![a] + c),
{
    let one = seq![a];
    assert(before.push(a) =~= before + one);
    lemma_doings_add(before, one);
    lemma_doings_add(one, c);
    assert((doings(before) + doings(one)) + doings(c) =~= doings(before) + (doings(one) + doings(
        c,
    )));
    assert(before.push(a) + c =~= before + (seq![a] + c));
}

proof fn lemma_earlier_succeeded(events: Seq<EventView>)
    requires
        events.len() > 0,
        all_succeeded(events),
    ensures
        all_succeeded(events.drop_last()),
        events.last() matches EventView::Exit(code) ==> code == Some(0i32),
{
    let init = events.drop_last();
    assert forall|i: int| 0 <= i < init.len() implies (#[trigger] init[i] matches EventView::Exit(
        code,
    ) ==> code == Some(0i32)) by {
        assert(init[i] == events[i]);
    }
    assert(events[events.len() - 1] == events.last());
}

/// A step that is asked for leads on to `more` and what follows the first `next` steps.
proof fn lemma_come_further(
    h: Host,
    todo: Seq<StepView>,
    there: spec_fn(Text) -> bool,
    events: Seq<EventView>,
    k: int,
    more: Seq<StepView>,
    next: int,
)
    requires
        events.len() > 0,
        has_come(h, todo, there, events.drop_last(), seq![], k),
        0 <= k < next <= todo.len(),
        all_aftermath(more),
        all_succeeded(events) ==> more.len() == 0,
        after(h, todo, events) == more + todo.skip(next),
        course(h, todo.skip(k), there) == seq![next_action(h, todo.skip(k))] + course(
            h,
            todo.skip(next),
            there,
        ),
    ensures
        has_come(h, todo, there, events, more, next),
{
    let init = events.drop_last();
    let before = asked(h, todo, init);
    assert(Seq::<StepView>::empty() + todo.skip(k) =~= todo.skip(k));
    let a = next_action(h, todo.skip(k));
    assert(asked(h, todo, events) == before.push(a));
    lemma_one_more(before, a, course(h, todo.skip(next), there));
    if all_succeeded(events) {
        lemma_earlier_succeeded(events);
    }
}

proof fn lemma_advance(
    h: Host,
    todo: Seq<StepView>,
    there: spec_fn(Text) -> bool,
    events: Seq<EventView>,
    extra: Seq<StepView>,
    k: int,
) -> (r: (Seq<StepView>, int))
    requires
        all_flat(todo),
        events.len() > 0,
        possible(h, todo, events),
        told(h, todo, events, there),
        has_come(h, todo, there, events.drop_last(), extra, k),
    ensures
        has_failed(after(h, todo, events)) || has_come(h, todo, there, events, r.0, r.1),
{
    let init = events.drop_last();
    let e = events.last();
    let now = extra + todo.skip(k);
    assert(accepts(now, e));
    if e is Failed {
        (extra, k)
    } else if extra.len() > 0 {
        lemma_advance_extra(h, todo, there, events, extra, k);
        (extra.skip(1), k)
    } else {
        assert(extra =~= seq![]);
        assert(now =~= todo.skip(k));
        let s = todo[k];
        assert(now[0] == s);
        assert(is_flat(s));
        assert(now.skip(1) =~= todo.skip(k + 1));
        match s {
            StepView::Guard { path, span } => {
                assert(e == EventView::Answer(there(path)));
                let more = Seq::<StepView>::empty();
                let next = if there(path) {
                    k + 1
                } else if k + 1 + span < todo.len() {
                    k + 1 + span
                } else {
                    todo.len() as int
                };
                assert(!there(path) ==> without(now, 1 + span) =~= todo.skip(next));
                assert(advance(h, now, e) =~= more + todo.skip(next));
                lemma_come_further(h, todo, there, events, k, more, next);
                (more, next)
            },
            _ => {
                let more = expand(h, s, e);
                if all_succeeded(events) {
                    lemma_earlier_succeeded(events);
                }
                match (s, e) {
                    (StepView::Run { on_failure, .. }, EventView::Exit(code)) => {
                        lemma_aftermath(on_failure, code);
                    },
                    (StepView::Pipe { on_failure, .. }, EventView::Exit(code)) => {
                        lemma_aftermath(on_failure, code);
                    },
                    _ => {},
                }
                lemma_come_further(h, todo, there, events, k, more, k + 1);
                (more, k + 1)
            },
        }
    }
}

proof fn lemma_advance_extra(
    h: Host,
    todo: Seq<StepView>,
    there: spec_fn(Text) -> bool,
    events: Seq<EventView>,
    extra: Seq<StepView>,
    k: int,
)
    requires
        events.len() > 0,
        possible(h, todo, events),
        has_come(h, todo, there, events.drop_last(), extra, k),
        extra.len() > 0,
        !(events.last() is Failed),
    ensures
        has_come(h, todo, there, events, extra.skip(1), k),
{
    let now = extra + todo.skip(k);
    let e = events.last();
    let s = extra[0];
    assert(now[0] == s);
    assert(is_aftermath(s));
    assert(accepts(now, e));
    let rest = extra.skip(1);
    assert(now.skip(1) =~= rest + todo.skip(k));
    assert(advance(h, now, e) =~= rest + todo.skip(k));
    assert forall|i: int| 0 <= i < rest.len() implies is_aftermath(#[trigger] rest[i]) by {
        assert(rest[i] == extra[i + 1]);
    }
    let before = asked(h, todo, events.drop_last());
    let a = next_action(h, now);
    assert(asked(h, todo, events) == before.push(a));
    assert(before.push(a).drop_last() =~= before);
    if all_succeeded(events) {
        lemma_earlier_succeeded(events);
    }
}

proof fn lemma_has_come(
    h: Host,
    todo: Seq<StepView>,
    there: spec_fn(Text) -> bool,
    events: Seq<EventView>,
) -> (r: (Seq<StepView>, int))
    requires
        all_flat(todo),
        possible(h, todo, events),
        told(h, todo, events, there),
    ensures
        has_failed(after(h, todo, events)) || has_come(h, todo, there, events, r.0, r.1),
    decreases events.len(),
{
    if events.len() == 0 {
        assert(todo.skip(0) =~= todo);
        assert(Seq::<StepView>::empty() + todo =~= todo);
        assert(doings(asked(h, todo, events)) + doings(course(h, todo, there)) =~= doings(
            course(h, todo, there),
        ));
        assert(asked(h, todo, events) + course(h, todo, there) =~= course(h, todo, there));
        (seq![], 0)
    } else {
        let (extra, k) = lemma_has_come(h, todo, there, events.drop_last());
        if has_failed(after(h, todo, events.drop_last())) {
            (extra, k)
        } else {
            lemma_advance(h, todo, there, events, extra, k)
        }
    }
}

/// Steps that call for nothing more ask for their course where they end in success, but for the
/// lines about programs that failed.
pub proof fn lemma_course(
    h: Host,
    todo: Seq<StepView>,
    there: spec_fn(Text) -> bool,
    events: Seq<EventView>,
)
    requires
        all_flat(todo),
        possible(h, todo, events),
        told(h, todo, events, there),
        next_action(h, after(h, todo, events)) == ActionView::Finish(None),
    ensures
        doings(asked(h, todo, events)) == doings(course(h, todo, there)),
        all_succeeded(events) ==> asked(h, todo, events) == course(h, todo, there),
{
    let (extra, k) = lemma_has_come(h, todo, there, events);
    let now = after(h, todo, events);
    if now.len() > 0 {
        if extra.len() > 0 {
            assert(now[0] == extra[0]);
            assert(is_aftermath(extra[0]));
        } else {
            assert(now[0] == todo[k]);
            assert(is_flat(todo[k]));
        }
        assert(false);
    }
    assert(todo.skip(k).len() == 0);
    assert(course(h, todo.skip(k), there) =~= seq![]);
    assert(doings(course(h, todo.skip(k), there)) =~= seq![]);
    assert(doings(asked(h, todo, events)) + seq![] =~= doings(asked(h, todo, events)));
    assert(asked(h, todo, events) + seq![] =~= asked(h, todo, events));
}

/// Whether no guard reaches beyond these steps.
pub open spec fn is_closed(todo: Seq<StepView>) -> bool {
    forall|i: int|
        0 <= i < todo.len() ==> (#[trigger] todo[i] matches StepView::Guard { span, .. } ==> i
            + span < todo.len())
}

pub proof fn lemma_course_adds(
    h: Host,
    a: Seq<StepView>,
    b: Seq<StepView>,
    there: spec_fn(Text) -> bool,
)
    requires
        is_closed(a),
    ensures
        course(h, a + b, there) == course(h, a, there) + course(h, b, there),
    decreases a.len(),
{
    if a.len() == 0 {
        assert(a + b =~= b);
        assert(course(h, a, there) + course(h, b, there) =~= course(h, b, there));
    } else {
        let all = a + b;
        assert(all[0] == a[0]);
        lemma_closed_skip(a, 1);
        lemma_course_adds(h, a.skip(1), b, there);
        assert(all.skip(1) =~= a.skip(1) + b);
        match a[0] {
            StepView::Guard { path, span } => {
                assert(a[0] matches StepView::Guard { span, .. } ==> 0 + span < a.len());
                lemma_closed_skip(a, 1 + span);
                lemma_course_adds(h, a.skip(1 + span), b, there);
                assert(without(all, 1 + span) =~= a.skip(1 + span) + b);
                assert(without(a, 1 + span) =~= a.skip(1 + span));
            },
            _ => {},
        }
        assert(course(h, all, there) =~= course(h, a, there) + course(h, b, there));
    }
}

proof fn lemma_closed_skip(a: Seq<StepView>, n: int)
    requires
        is_closed(a),
        0 <= n <= a.len(),
    ensures
        is_closed(a.skip(n)),
{
    assert forall|i: int| 0 <= i < a.skip(n).len() implies (#[trigger] a.skip(n)[i] matches
        StepView::Guard { span, .. } ==> i + span < a.skip(n).len()) by {
        assert(a.skip(n)[i] == a[i + n]);
    }
}

pub proof fn lemma_closed_adds(a: Seq<StepView>, b: Seq<StepView>)
    requires
        is_closed(a),
        is_closed(b),
    ensures
        is_closed(a + b),
{
    assert forall|i: int| 0 <= i < (a + b).len() implies (#[trigger] (a + b)[i] matches
        StepView::Guard { span, .. } ==> i + span < (a + b).len()) by {
        if i < a.len() {
            assert((a + b)[i] == a[i]);
        } else {
            assert((a + b)[i] == b[i - a.len()]);
        }
    }
}

/// Steps without a guard ask for one thing each.
pub proof fn lemma_course_plain(h: Host, a: Seq<StepView>, there: spec_fn(Text) -> bool)
    requires
        forall|i: int| 0 <= i < a.len() ==> !(#[trigger] a[i] is Guard),
    ensures
        course(h, a, there) == a.map_values(|s: StepView| ask(h, s)),
    decreases a.len(),
{
    if a.len() > 0 {
        let t = a.skip(1);
        assert forall|i: int| 0 <= i < t.len() implies !(#[trigger] t[i] is Guard) by {
            assert(t[i] == a[i + 1]);
        }
        lemma_course_plain(h, t, there);
        assert(!(a[0] is Guard));
        assert(course(h, a, there) =~= a.map_values(|s: StepView| ask(h, s)));
    } else {
        assert(course(h, a, there) =~= a.map_values(|s: StepView| ask(h, s)));
    }
}

/// Steps that are guarded by a path are taken where it exists.
pub proof fn lemma_course_guarded(
    h: Host,
    path: Text,
    body: Seq<StepView>,
    there: spec_fn(Text) -> bool,
)
    requires
        body.len() <= usize::MAX,
        forall|i: int| 0 <= i < body.len() ==> !(#[trigger] body[i] is Guard),
    ensures
        ({
            let all = seq![StepView::Guard { path, span: body.len() as usize }] + body;
            &&& course(h, all, there) == seq![ActionView::Exists(path)] + provided(
                there(path),
                body.map_values(|s: StepView| ask(h, s)),
            )
            &&& is_closed(all)
        }),
{
    let all = seq![StepView::Guard { path, span: body.len() as usize }] + body;
    assert(all[0] == StepView::Guard { path, span: body.len() as usize });
    assert(all.skip(1) =~= body);
    assert(without(all, 1 + body.len() as int) =~= seq![]);
    lemma_course_plain(h, body, there);
    assert(course(h, Seq::<StepView>::empty(), there) =~= seq![]);
    assert forall|i: int| 0 <= i < all.len() implies (#[trigger] all[i] matches StepView::Guard {
        span,
        ..
    } ==> i + span < all.len()) by {
        if i > 0 {
            assert(all[i] == body[i - 1]);
        }
    }
}

} // verus!
