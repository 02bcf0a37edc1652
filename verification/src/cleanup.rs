//! What a check of the package directories that cleans up leaves behind.

use vstd::prelude::*;

use crate::action::{ActionView, EventView};
use crate::host::Host;
use crate::outside::decoded;
use crate::packages::{
    by_age, check_repo_steps, deb_steps, devel_dir, distro_dir, drop_all, drop_steps,
    duplicate_steps, enter_all, enter_dirs, law_outdated_is_removed, lemma_by_age,
    lemma_older_asymmetric, lemma_repo_names, lines, log_steps, log_tail, move_steps, older,
    outdated, pool_file, pool_steps, repo_names, same_file, LOG_LINES,
};
use crate::path::{has_extension, joined_path};
use crate::runs::{dated_listing, law_runs_compose, listed, listing};
use crate::script::{accepts, advance, after, answers, ask, expand, next_action, possible};
use crate::step::{say_all, PoolFileView, RepoStepView, StepView, TargetView};
use crate::text::{texts, Text};

verus! {

// ---------------------------------------------------------------------------
// Runs, and what they ask for
// ---------------------------------------------------------------------------

/// What was asked for in a run, in order.
pub open spec fn asked(h: Host, todo: Seq<StepView>, events: Seq<EventView>) -> Seq<ActionView>
    decreases events.len(),
{
    if events.len() == 0 {
        seq![]
    } else {
        asked(h, todo, events.drop_last()).push(
            next_action(h, after(h, todo, events.drop_last())),
        )
    }
}

/// Whether an action only asks a question about files: it changes nothing, and says nothing.
pub open spec fn is_question(a: ActionView) -> bool {
    a is Exists || a is OpenDir || a is NextEntry || a is EntryModified || a is ReadEntry
}

/// What was asked for in a run, without the questions.
pub open spec fn effects(h: Host, todo: Seq<StepView>, events: Seq<EventView>) -> Seq<ActionView> {
    asked(h, todo, events).filter(|a: ActionView| !is_question(a))
}

/// Whether these answers lead from `todo` to `end`, with these effects.
pub open spec fn leads(
    h: Host,
    todo: Seq<StepView>,
    events: Seq<EventView>,
    end: Seq<StepView>,
    fx: Seq<ActionView>,
) -> bool {
    &&& possible(h, todo, events)
    &&& after(h, todo, events) == end
    &&& effects(h, todo, events) == fx
}

proof fn lemma_asked_adds(h: Host, todo: Seq<StepView>, a: Seq<EventView>, b: Seq<EventView>)
    ensures
        asked(h, todo, a + b) == asked(h, todo, a) + asked(h, after(h, todo, a), b),
        possible(h, todo, a) && possible(h, after(h, todo, a), b) ==> possible(h, todo, a + b),
    decreases b.len(),
{
    if b.len() == 0 {
        assert(a + b =~= a);
        assert(asked(h, todo, a) + asked(h, after(h, todo, a), b) =~= asked(h, todo, a));
    } else {
        let init = b.drop_last();
        lemma_asked_adds(h, todo, a, init);
        law_runs_compose(h, todo, a, init);
        assert((a + b).drop_last() =~= a + init);
        assert((a + b).last() == b.last());
        assert(asked(h, todo, a + b) =~= asked(h, todo, a) + asked(h, after(h, todo, a), b));
    }
}

/// A run can be put together from two.
pub proof fn law_leads_compose(
    h: Host,
    todo: Seq<StepView>,
    a: Seq<EventView>,
    mid: Seq<StepView>,
    b: Seq<EventView>,
    end: Seq<StepView>,
    fa: Seq<ActionView>,
    fb: Seq<ActionView>,
)
    requires
        leads(h, todo, a, mid, fa),
        leads(h, mid, b, end, fb),
    ensures
        leads(h, todo, a + b, end, fa + fb),
{
    lemma_asked_adds(h, todo, a, b);
    law_runs_compose(h, todo, a, b);
    Seq::filter_distributes_over_add(
        asked(h, todo, a),
        asked(h, mid, b),
        |x: ActionView| !is_question(x),
    );
}

/// The effect of asking for this.
pub open spec fn effect(a: ActionView) -> Seq<ActionView> {
    if is_question(a) {
        seq![]
    } else {
        seq![a]
    }
}

proof fn lemma_nothing(h: Host, todo: Seq<StepView>)
    ensures
        leads(h, todo, seq![], todo, seq![]),
{
    reveal(Seq::filter);
}

proof fn lemma_taken(h: Host, s: StepView, rest: Seq<StepView>, e: EventView)
    requires
        answers(s, e),
        !(e is Failed),
        !(s is Guard),
        !(s is Halt),
    ensures
        leads(h, seq![s] + rest, seq![e], expand(h, s, e) + rest, effect(ask(h, s))),
{
    let todo = seq![s] + rest;
    let none = Seq::<EventView>::empty();
    reveal_with_fuel(Seq::filter, 3);
    assert(seq![e].drop_last() =~= none);
    assert(todo[0] == s);
    assert(todo.skip(1) =~= rest);
    assert(after(h, todo, none) == todo);
    assert(possible(h, todo, none));
    assert(after(h, todo, seq![e]) == advance(h, todo, e));
    assert(accepts(todo, e));
    assert(asked(h, todo, none) =~= Seq::<ActionView>::empty());
    let x = asked(h, todo, seq![e]);
    assert(x =~= seq![ask(h, s)]);
    assert(x.drop_last() =~= Seq::<ActionView>::empty());
    assert(effects(h, todo, seq![e]) =~= effect(ask(h, s)));
}

/// That many answers that something was done.
pub open spec fn dones(n: nat) -> Seq<EventView> {
    Seq::new(n, |i: int| EventView::Done)
}

/// What these steps ask for.
pub open spec fn asks(h: Host, steps: Seq<StepView>) -> Seq<ActionView> {
    steps.map_values(|s: StepView| ask(h, s))
}

/// Whether a step is answered by its being done, and calls for nothing more.
spec fn simple(s: StepView) -> bool {
    s is Say || s is Rename || s is Remove || s matches StepView::Repo(
        RepoStepView::DropLog { .. },
    )
}

spec fn all_simple(steps: Seq<StepView>) -> bool {
    forall|i: int| 0 <= i < steps.len() ==> simple(#[trigger] steps[i])
}

proof fn lemma_simple(h: Host, steps: Seq<StepView>, rest: Seq<StepView>)
    requires
        all_simple(steps),
    ensures
        leads(h, steps + rest, dones(steps.len()), rest, asks(h, steps)),
    decreases steps.len(),
{
    if steps.len() == 0 {
        assert(steps + rest =~= rest);
        assert(dones(0) =~= seq![]);
        assert(asks(h, steps) =~= seq![]);
        lemma_nothing(h, rest);
    } else {
        let s = steps[0];
        let more = steps.drop_first();
        assert forall|i: int| 0 <= i < more.len() implies simple(#[trigger] more[i]) by {
            assert(more[i] == steps[i + 1]);
        }
        lemma_simple(h, more, rest);
        lemma_taken(h, s, more + rest, EventView::Done);
        assert(steps + rest =~= seq![s] + (more + rest));
        assert(expand(h, s, EventView::Done) + (more + rest) =~= more + rest);
        law_leads_compose(
            h,
            steps + rest,
            seq![EventView::Done],
            more + rest,
            dones(more.len()),
            rest,
            effect(ask(h, s)),
            asks(h, more),
        );
        assert(seq![EventView::Done] + dones(more.len()) =~= dones(steps.len()));
        assert(effect(ask(h, s)) + asks(h, more) =~= asks(h, steps));
    }
}

// ---------------------------------------------------------------------------
// One directory
// ---------------------------------------------------------------------------

/// What a check finds of one package directory: whether it exists; the names in the directory of
/// new packages, if that exists; the build logs among them; and the packages, once the new ones
/// have been moved in, each with the time at which it was modified.
pub struct Shelf {
    pub found: bool,
    pub devel: Option<Seq<Seq<u8>>>,
    pub logs: Map<Seq<u8>, Text>,
    pub pool: Seq<(Seq<u8>, u64)>,
}

/// Every build log that is read has as many lines as are shown.
pub open spec fn has_long_logs(s: Shelf) -> bool {
    s.found ==> (s.devel matches Some(names) ==> forall|i: int|
        0 <= i < names.len() && has_extension(#[trigger] names[i], "log"@) ==> lines(
            s.logs[names[i]],
        ).len() >= LOG_LINES)
}

/// The answers about the build logs among `names`.
pub open spec fn log_answers(logs: Map<Seq<u8>, Text>, names: Seq<Seq<u8>>) -> Seq<EventView>
    decreases names.len(),
{
    if names.len() == 0 {
        seq![]
    } else {
        log_answers(logs, names.drop_last()) + (if has_extension(names.last(), "log"@) {
            seq![EventView::Text(logs[names.last()])] + dones((LOG_LINES + 1) as nat)
        } else {
            seq![]
        })
    }
}

/// What is done about the build logs among `names`: their last lines are shown, and they are
/// removed.
pub open spec fn log_effects(
    h: Host,
    t: TargetView,
    logs: Map<Seq<u8>, Text>,
    names: Seq<Seq<u8>>,
) -> Seq<ActionView>
    decreases names.len(),
{
    if names.len() == 0 {
        seq![]
    } else {
        log_effects(h, t, logs, names.drop_last()) + (if has_extension(names.last(), "log"@) {
            asks(h, say_all(log_tail(logs[names.last()]))) + seq![
                ActionView::RemoveEntry { dir: devel_dir(h, t), name: names.last() },
            ]
        } else {
            seq![]
        })
    }
}

/// The answers to a visit of one package directory in which all that is asked for is done.
pub open spec fn visit(h: Host, t: TargetView, s: Shelf) -> Seq<EventView> {
    if s.found {
        seq![EventView::Answer(true)] + (match s.devel {
            Some(names) => seq![EventView::Answer(true)] + (seq![EventView::Done] + listing(names)
                + seq![EventView::End]) + log_answers(s.logs, names) + dones(
                deb_steps(h, t, names).len(),
            ),
            None => seq![EventView::Answer(false)],
        }) + seq![EventView::Done] + (seq![EventView::Done] + dated_listing(s.pool)
            + seq![EventView::End]) + dones(pool_steps(h, t, listed(h, t, s.pool)).len())
    } else {
        seq![EventView::Answer(false)]
    }
}

/// What a visit of one package directory does and says.
pub open spec fn visit_effects(h: Host, t: TargetView, s: Shelf) -> Seq<ActionView> {
    if s.found {
        (match s.devel {
            Some(names) => log_effects(h, t, s.logs, names) + asks(h, deb_steps(h, t, names)),
            None => seq![],
        }) + announcement(t) + asks(h, pool_steps(h, t, listed(h, t, s.pool)))
    } else {
        seq![]
    }
}

/// The one line that is said of every package directory that exists.
pub open spec fn announcement(t: TargetView) -> Seq<ActionView> {
    seq![ActionView::Say("distro_deb directory "@ + t.distro)]
}

proof fn lemma_devel_scanned(
    h: Host,
    t: TargetView,
    rest: Seq<StepView>,
    names: Seq<Seq<u8>>,
)
    ensures
        leads(
            h,
            seq![StepView::Repo(RepoStepView::ScanDevel { target: t, seen: seq![] })] + rest,
            listing(names),
            seq![StepView::Repo(RepoStepView::ScanDevel { target: t, seen: names })] + rest,
            seq![],
        ),
    decreases names.len(),
{
    let start = seq![StepView::Repo(RepoStepView::ScanDevel { target: t, seen: seq![] })] + rest;
    if names.len() == 0 {
        assert(names =~= seq![]);
        assert(listing(names) =~= seq![]);
        lemma_nothing(h, start);
    } else {
        let init = names.drop_last();
        let e = EventView::Entry(names.last());
        let scan = StepView::Repo(RepoStepView::ScanDevel { target: t, seen: init });
        let end = seq![StepView::Repo(RepoStepView::ScanDevel { target: t, seen: names })] + rest;
        lemma_devel_scanned(h, t, rest, init);
        lemma_taken(h, scan, rest, e);
        assert(init.push(names.last()) =~= names);
        law_leads_compose(
            h,
            start,
            listing(init),
            seq![scan] + rest,
            seq![e],
            end,
            seq![],
            seq![],
        );
        assert(listing(names) =~= listing(init) + seq![e]);
        assert(Seq::<ActionView>::empty() + Seq::<ActionView>::empty() =~= seq![]);
    }
}

proof fn lemma_logs_shown(
    h: Host,
    t: TargetView,
    logs: Map<Seq<u8>, Text>,
    names: Seq<Seq<u8>>,
    rest: Seq<StepView>,
)
    requires
        t.cleanup,
        forall|i: int|
            0 <= i < names.len() && has_extension(#[trigger] names[i], "log"@) ==> lines(
                logs[names[i]],
            ).len() >= LOG_LINES,
    ensures
        leads(
            h,
            log_steps(h, t, names) + rest,
            log_answers(logs, names),
            rest,
            log_effects(h, t, logs, names),
        ),
    decreases names.len(),
{
    if names.len() == 0 {
        assert(log_steps(h, t, names) + rest =~= rest);
        lemma_nothing(h, rest);
    } else {
        let init = names.drop_last();
        let name = names.last();
        assert forall|i: int|
            0 <= i < init.len() && has_extension(#[trigger] init[i], "log"@) implies lines(
            logs[init[i]],
        ).len() >= LOG_LINES by {
            assert(init[i] == names[i]);
        }
        if has_extension(name, "log"@) {
            assert(names[names.len() - 1] == name);
            let dir = devel_dir(h, t);
            let show = StepView::Repo(RepoStepView::ShowLog { dir, name, cleanup: t.cleanup });
            let drop_it = StepView::Repo(RepoStepView::DropLog { dir, name });
            let text = logs[name];
            let said = say_all(log_tail(text));
            let body = said + seq![drop_it];
            let e = EventView::Text(text);
            lemma_logs_shown(h, t, logs, init, seq![show] + rest);
            lemma_taken(h, show, rest, e);
            assert(expand(h, show, e) =~= body);
            lemma_simple(h, body, rest);
            assert(body.len() == LOG_LINES + 1);
            law_leads_compose(
                h,
                seq![show] + rest,
                seq![e],
                body + rest,
                dones(body.len()),
                rest,
                seq![],
                asks(h, body),
            );
            assert(Seq::<ActionView>::empty() + asks(h, body) =~= asks(h, said) + seq![
                ActionView::RemoveEntry { dir, name },
            ]);
            law_leads_compose(
                h,
                log_steps(h, t, init) + (seq![show] + rest),
                log_answers(logs, init),
                seq![show] + rest,
                seq![e] + dones(body.len()),
                rest,
                log_effects(h, t, logs, init),
                asks(h, said) + seq![ActionView::RemoveEntry { dir, name }],
            );
            assert(log_steps(h, t, names) + rest =~= log_steps(h, t, init) + (seq![show] + rest));
        } else {
            lemma_logs_shown(h, t, logs, init, rest);
            assert(log_steps(h, t, names) =~= log_steps(h, t, init));
            assert(log_answers(logs, names) =~= log_answers(logs, init));
            assert(log_effects(h, t, logs, names) =~= log_effects(h, t, logs, init));
        }
    }
}

proof fn lemma_debs_simple(h: Host, t: TargetView, names: Seq<Seq<u8>>)
    ensures
        all_simple(deb_steps(h, t, names)),
    decreases names.len(),
{
    if names.len() > 0 {
        lemma_debs_simple(h, t, names.drop_last());
        match decoded(names.last()) {
            Some(name) => {
                assert(all_simple(move_steps(h, t, name)));
            },
            None => {},
        }
    }
}

proof fn lemma_drops_simple(t: TargetView, g: Seq<PoolFileView>)
    ensures
        all_simple(drop_all(t, g)),
    decreases g.len(),
{
    if g.len() > 0 {
        lemma_drops_simple(t, g.drop_last());
        assert(all_simple(drop_steps(t, g.last().path)));
    }
}

proof fn lemma_duplicates_simple(t: TargetView, files: Seq<PoolFileView>, names: Seq<Text>)
    ensures
        all_simple(duplicate_steps(t, files, names)),
    decreases names.len(),
{
    if names.len() > 0 {
        lemma_duplicates_simple(t, files, names.drop_last());
        lemma_drops_simple(t, outdated(files, names.last()));
    }
}

proof fn lemma_pool_scanned(
    h: Host,
    t: TargetView,
    rest: Seq<StepView>,
    files: Seq<(Seq<u8>, u64)>,
)
    ensures
        leads(
            h,
            seq![StepView::Repo(RepoStepView::ScanPool { target: t, found: seq![] })] + rest,
            dated_listing(files),
            seq![
                StepView::Repo(RepoStepView::ScanPool { target: t, found: listed(h, t, files) }),
            ] + rest,
            seq![],
        ),
    decreases files.len(),
{
    let start = seq![StepView::Repo(RepoStepView::ScanPool { target: t, found: seq![] })] + rest;
    let none = Seq::<ActionView>::empty();
    assert(none + none =~= none);
    if files.len() == 0 {
        lemma_nothing(h, start);
    } else {
        let init = files.drop_last();
        let (name, mtime) = files.last();
        let found = listed(h, t, init);
        let scan = StepView::Repo(RepoStepView::ScanPool { target: t, found });
        let end = seq![
            StepView::Repo(RepoStepView::ScanPool { target: t, found: listed(h, t, files) }),
        ] + rest;
        lemma_pool_scanned(h, t, rest, init);
        lemma_taken(h, scan, rest, EventView::Entry(name));
        match decoded(name) {
            Some(file) => {
                let stat = StepView::Repo(RepoStepView::StatPool { target: t, file, found });
                let e = EventView::Seconds(mtime);
                lemma_taken(h, stat, rest, e);
                law_leads_compose(
                    h,
                    seq![scan] + rest,
                    seq![EventView::Entry(name)],
                    seq![stat] + rest,
                    seq![e],
                    end,
                    none,
                    none,
                );
                assert(seq![EventView::Entry(name)] + seq![e] =~= seq![EventView::Entry(name), e]);
                law_leads_compose(
                    h,
                    start,
                    dated_listing(init),
                    seq![scan] + rest,
                    seq![EventView::Entry(name), e],
                    end,
                    none,
                    none,
                );
            },
            None => {
                law_leads_compose(
                    h,
                    start,
                    dated_listing(init),
                    seq![scan] + rest,
                    seq![EventView::Entry(name)],
                    end,
                    none,
                    none,
                );
            },
        }
    }
}

proof fn lemma_pool_visited(
    h: Host,
    t: TargetView,
    rest: Seq<StepView>,
    files: Seq<(Seq<u8>, u64)>,
)
    requires
        !t.publish,
    ensures
        leads(
            h,
            seq![StepView::Repo(RepoStepView::OpenPool(t))] + rest,
            (seq![EventView::Done] + dated_listing(files) + seq![EventView::End]) + dones(
                pool_steps(h, t, listed(h, t, files)).len(),
            ),
            rest,
            asks(h, pool_steps(h, t, listed(h, t, files))),
        ),
{
    let none = Seq::<ActionView>::empty();
    let open = StepView::Repo(RepoStepView::OpenPool(t));
    let fresh = StepView::Repo(RepoStepView::ScanPool { target: t, found: seq![] });
    let scan = StepView::Repo(RepoStepView::ScanPool { target: t, found: listed(h, t, files) });
    let steps = pool_steps(h, t, listed(h, t, files));
    let a = seq![EventView::Done];
    let b = dated_listing(files);
    let c = seq![EventView::End];
    assert(none + none =~= none);
    assert(none + asks(h, steps) =~= asks(h, steps));
    lemma_taken(h, open, rest, EventView::Done);
    lemma_pool_scanned(h, t, rest, files);
    lemma_taken(h, scan, rest, EventView::End);
    lemma_duplicates_simple(t, listed(h, t, files), repo_names(listed(h, t, files)));
    assert(steps =~= duplicate_steps(t, listed(h, t, files), repo_names(listed(h, t, files))));
    lemma_simple(h, steps, rest);
    let start = seq![open] + rest;
    law_leads_compose(h, start, a, seq![fresh] + rest, b, seq![scan] + rest, none, none);
    law_leads_compose(h, start, a + b, seq![scan] + rest, c, steps + rest, none, none);
    law_leads_compose(
        h,
        start,
        a + b + c,
        steps + rest,
        dones(steps.len()),
        rest,
        none,
        asks(h, steps),
    );
}

proof fn lemma_devel_visited(
    h: Host,
    t: TargetView,
    rest: Seq<StepView>,
    logs: Map<Seq<u8>, Text>,
    names: Seq<Seq<u8>>,
)
    requires
        t.cleanup,
        forall|i: int|
            0 <= i < names.len() && has_extension(#[trigger] names[i], "log"@) ==> lines(
                logs[names[i]],
            ).len() >= LOG_LINES,
    ensures
        leads(
            h,
            seq![StepView::Repo(RepoStepView::OpenDevel(t))] + rest,
            (seq![EventView::Done] + listing(names) + seq![EventView::End]) + log_answers(
                logs,
                names,
            ) + dones(deb_steps(h, t, names).len()),
            rest,
            log_effects(h, t, logs, names) + asks(h, deb_steps(h, t, names)),
        ),
{
    let none = Seq::<ActionView>::empty();
    let open = StepView::Repo(RepoStepView::OpenDevel(t));
    let fresh = StepView::Repo(RepoStepView::ScanDevel { target: t, seen: seq![] });
    let scan = StepView::Repo(RepoStepView::ScanDevel { target: t, seen: names });
    let debs = deb_steps(h, t, names);
    let fx = log_effects(h, t, logs, names);
    let start = seq![open] + rest;
    let a = seq![EventView::Done];
    let b = listing(names);
    let c = seq![EventView::End];
    let both = log_steps(h, t, names) + (debs + rest);
    assert(none + none =~= none);
    assert(none + fx =~= fx);
    lemma_taken(h, open, rest, EventView::Done);
    lemma_devel_scanned(h, t, rest, names);
    lemma_taken(h, scan, rest, EventView::End);
    assert(expand(h, scan, EventView::End) + rest =~= both);
    lemma_logs_shown(h, t, logs, names, debs + rest);
    lemma_debs_simple(h, t, names);
    lemma_simple(h, debs, rest);
    law_leads_compose(h, start, a, seq![fresh] + rest, b, seq![scan] + rest, none, none);
    law_leads_compose(h, start, a + b, seq![scan] + rest, c, both, none, none);
    law_leads_compose(
        h,
        start,
        a + b + c,
        both,
        log_answers(logs, names),
        debs + rest,
        none,
        fx,
    );
    law_leads_compose(
        h,
        start,
        a + b + c + log_answers(logs, names),
        debs + rest,
        dones(debs.len()),
        rest,
        fx,
        asks(h, debs),
    );
}

/// A visit of one package directory comes to its end, and does and says just this.
pub proof fn law_visit(h: Host, t: TargetView, s: Shelf, rest: Seq<StepView>)
    requires
        t.cleanup,
        !t.publish,
        has_long_logs(s),
    ensures
        leads(
            h,
            seq![StepView::Repo(RepoStepView::Enter(t))] + rest,
            visit(h, t, s),
            rest,
            visit_effects(h, t, s),
        ),
{
    let none = Seq::<ActionView>::empty();
    let enter = StepView::Repo(RepoStepView::Enter(t));
    let devel = StepView::Repo(RepoStepView::Devel(t));
    let open = StepView::Repo(RepoStepView::OpenDevel(t));
    let said = StepView::Say("distro_deb directory "@ + t.distro);
    let pool = StepView::Repo(RepoStepView::OpenPool(t));
    let start = seq![enter] + rest;
    lemma_taken(h, enter, rest, EventView::Answer(s.found));
    if !s.found {
        assert(Seq::<StepView>::empty() + rest =~= rest);
    } else {
        let tail = seq![said] + (seq![pool] + rest);
        let pools = pool_steps(h, t, listed(h, t, s.pool));
        let p = (seq![EventView::Done] + dated_listing(s.pool) + seq![EventView::End]) + dones(
            pools.len(),
        );
        let first = seq![EventView::Answer(true)];
        lemma_taken(h, said, seq![pool] + rest, EventView::Done);
        assert(Seq::<StepView>::empty() + (seq![pool] + rest) =~= seq![pool] + rest);
        lemma_pool_visited(h, t, rest, s.pool);
        let (d, fd) = match s.devel {
            Some(names) => (
                seq![EventView::Answer(true)] + (seq![EventView::Done] + listing(names)
                    + seq![EventView::End]) + log_answers(s.logs, names) + dones(
                    deb_steps(h, t, names).len(),
                ),
                log_effects(h, t, s.logs, names) + asks(h, deb_steps(h, t, names)),
            ),
            None => (seq![EventView::Answer(false)], none),
        };
        assert(leads(h, seq![devel] + rest, d, tail, fd)) by {
            match s.devel {
                Some(names) => {
                    let q = (seq![EventView::Done] + listing(names) + seq![EventView::End])
                        + log_answers(s.logs, names) + dones(deb_steps(h, t, names).len());
                    lemma_taken(h, devel, rest, EventView::Answer(true));
                    assert(expand(h, devel, EventView::Answer(true)) + rest =~= seq![open] + tail);
                    lemma_devel_visited(h, t, tail, s.logs, names);
                    law_leads_compose(
                        h,
                        seq![devel] + rest,
                        seq![EventView::Answer(true)],
                        seq![open] + tail,
                        q,
                        tail,
                        none,
                        fd,
                    );
                    assert(seq![EventView::Answer(true)] + q =~= d);
                    assert(none + fd =~= fd);
                },
                None => {
                    lemma_taken(h, devel, rest, EventView::Answer(false));
                    assert(expand(h, devel, EventView::Answer(false)) + rest =~= tail);
                },
            }
        }
        law_leads_compose(h, start, first, seq![devel] + rest, d, tail, none, fd);
        assert(none + fd =~= fd);
        law_leads_compose(
            h,
            start,
            first + d,
            tail,
            seq![EventView::Done],
            seq![pool] + rest,
            fd,
            announcement(t),
        );
        law_leads_compose(
            h,
            start,
            first + d + seq![EventView::Done],
            seq![pool] + rest,
            p,
            rest,
            fd + announcement(t),
            asks(h, pools),
        );
        assert(first + d + seq![EventView::Done] + p =~= visit(h, t, s));
        assert(fd + announcement(t) + asks(h, pools) =~= visit_effects(h, t, s));
    }
}

// ---------------------------------------------------------------------------
// All directories
// ---------------------------------------------------------------------------

/// The target of a step that enters a package directory.
pub open spec fn target_of(s: StepView) -> TargetView {
    s->Repo_0->Enter_0
}

/// Whether all steps enter a package directory, to clean it up and not to publish it.
spec fn all_enter(todo: Seq<StepView>) -> bool {
    forall|i: int|
        0 <= i < todo.len() ==> (#[trigger] todo[i]) == StepView::Repo(
            RepoStepView::Enter(target_of(todo[i])),
        ) && target_of(todo[i]).cleanup && !target_of(todo[i]).publish
}

/// The answers to visits of all package directories in turn.
pub open spec fn visits(h: Host, todo: Seq<StepView>, shelves: Seq<Shelf>) -> Seq<EventView>
    decreases todo.len(),
{
    if todo.len() == 0 {
        seq![]
    } else {
        visit(h, target_of(todo[0]), shelves[0]) + visits(
            h,
            todo.drop_first(),
            shelves.drop_first(),
        )
    }
}

/// What visits of all package directories do and say.
pub open spec fn visits_effects(
    h: Host,
    todo: Seq<StepView>,
    shelves: Seq<Shelf>,
) -> Seq<ActionView>
    decreases todo.len(),
{
    if todo.len() == 0 {
        seq![]
    } else {
        visit_effects(h, target_of(todo[0]), shelves[0]) + visits_effects(
            h,
            todo.drop_first(),
            shelves.drop_first(),
        )
    }
}

/// The lines that are said of the package directories that exist, and nothing else.
pub open spec fn announcements(todo: Seq<StepView>, shelves: Seq<Shelf>) -> Seq<ActionView>
    decreases todo.len(),
{
    if todo.len() == 0 {
        seq![]
    } else {
        (if shelves[0].found {
            announcement(target_of(todo[0]))
        } else {
            seq![]
        }) + announcements(todo.drop_first(), shelves.drop_first())
    }
}

proof fn lemma_visits(h: Host, todo: Seq<StepView>, shelves: Seq<Shelf>)
    requires
        all_enter(todo),
        shelves.len() == todo.len(),
        forall|i: int| 0 <= i < shelves.len() ==> has_long_logs(#[trigger] shelves[i]),
    ensures
        leads(h, todo, visits(h, todo, shelves), seq![], visits_effects(h, todo, shelves)),
    decreases todo.len(),
{
    if todo.len() == 0 {
        assert(todo =~= seq![]);
        lemma_nothing(h, todo);
    } else {
        let rest = todo.drop_first();
        let more = shelves.drop_first();
        assert forall|i: int| 0 <= i < rest.len() implies (#[trigger] rest[i]) == StepView::Repo(
            RepoStepView::Enter(target_of(rest[i])),
        ) && target_of(rest[i]).cleanup && !target_of(rest[i]).publish by {
            assert(rest[i] == todo[i + 1]);
        }
        assert forall|i: int| 0 <= i < more.len() implies has_long_logs(#[trigger] more[i]) by {
            assert(more[i] == shelves[i + 1]);
        }
        lemma_visits(h, rest, more);
        let t = target_of(todo[0]);
        assert(todo[0] == StepView::Repo(RepoStepView::Enter(t)));
        assert(has_long_logs(shelves[0]));
        law_visit(h, t, shelves[0], rest);
        assert(todo =~= seq![todo[0]] + rest);
        law_leads_compose(
            h,
            todo,
            visit(h, t, shelves[0]),
            rest,
            visits(h, rest, more),
            seq![],
            visit_effects(h, t, shelves[0]),
            visits_effects(h, rest, more),
        );
    }
}

proof fn lemma_all_enter(distros: Seq<Text>, dirs: Seq<Text>)
    ensures
        all_enter(enter_all(distros, dirs, true, false)),
    decreases distros.len(),
{
    if distros.len() > 0 {
        lemma_all_enter(distros.drop_last(), dirs);
        assert(all_enter(enter_dirs(distros.last(), dirs, true, false)));
    }
}

// ---------------------------------------------------------------------------
// What is left
// ---------------------------------------------------------------------------

/// Whether an action takes the file `name` out of the directory `dir`.
pub open spec fn takes(a: ActionView, dir: Text, name: Seq<u8>) -> bool {
    ||| a == (ActionView::RemoveEntry { dir, name })
    ||| decoded(name) matches Some(file) && (a == ActionView::Remove(joined_path(dir, file)) || (
        a matches ActionView::Rename { from, .. } && from == joined_path(dir, file)))
}

/// Whether one of these actions took the file `name` out of the directory `dir`.
pub open spec fn gone(fx: Seq<ActionView>, dir: Text, name: Seq<u8>) -> bool {
    exists|i: int| 0 <= i < fx.len() && takes(#[trigger] fx[i], dir, name)
}

/// Whether `later` is what can be found where `earlier` was found, after these actions and no other
/// change: no file that was taken away, and none that was not there.
pub open spec fn is_left(
    h: Host,
    t: TargetView,
    fx: Seq<ActionView>,
    earlier: Shelf,
    later: Shelf,
) -> bool {
    &&& later.found ==> earlier.found
    &&& later.devel matches Some(names) ==> {
        &&& earlier.devel is Some
        &&& forall|i: int|
            0 <= i < names.len() ==> earlier.devel->0.contains(#[trigger] names[i]) && !gone(
                fx,
                devel_dir(h, t),
                names[i],
            )
    }
    &&& forall|i: int|
        0 <= i < later.pool.len() ==> earlier.pool.contains(#[trigger] later.pool[i]) && !gone(
            fx,
            distro_dir(h, t),
            later.pool[i].0,
        )
}

proof fn lemma_contains_adds(a: Seq<ActionView>, b: Seq<ActionView>, x: ActionView)
    requires
        a.contains(x) || b.contains(x),
    ensures
        (a + b).contains(x),
{
    if a.contains(x) {
        let i = choose|i: int| 0 <= i < a.len() && a[i] == x;
        assert((a + b)[i] == x);
    } else {
        let i = choose|i: int| 0 <= i < b.len() && b[i] == x;
        assert((a + b)[a.len() + i] == x);
    }
}

proof fn lemma_log_removed(
    h: Host,
    t: TargetView,
    logs: Map<Seq<u8>, Text>,
    names: Seq<Seq<u8>>,
    i: int,
)
    requires
        0 <= i < names.len(),
        has_extension(names[i], "log"@),
    ensures
        log_effects(h, t, logs, names).contains(
            ActionView::RemoveEntry { dir: devel_dir(h, t), name: names[i] },
        ),
    decreases names.len(),
{
    let x = ActionView::RemoveEntry { dir: devel_dir(h, t), name: names[i] };
    let first = log_effects(h, t, logs, names.drop_last());
    if i < names.len() - 1 {
        lemma_log_removed(h, t, logs, names.drop_last(), i);
        let k = choose|k: int| 0 <= k < first.len() && first[k] == x;
        assert(log_effects(h, t, logs, names)[k] == x);
    } else {
        let all = log_effects(h, t, logs, names);
        assert(all[all.len() - 1] == x);
    }
}

proof fn lemma_deb_moved(h: Host, t: TargetView, names: Seq<Seq<u8>>, i: int)
    requires
        t.cleanup,
        0 <= i < names.len(),
        has_extension(names[i], "deb"@),
        decoded(names[i]) is Some,
    ensures
        asks(h, deb_steps(h, t, names)).contains(
            ActionView::Rename {
                from: joined_path(devel_dir(h, t), decoded(names[i])->0),
                to: joined_path(distro_dir(h, t), decoded(names[i])->0),
            },
        ),
    decreases names.len(),
{
    let x = ActionView::Rename {
        from: joined_path(devel_dir(h, t), decoded(names[i])->0),
        to: joined_path(distro_dir(h, t), decoded(names[i])->0),
    };
    let first = deb_steps(h, t, names.drop_last());
    let all = asks(h, deb_steps(h, t, names));
    if i < names.len() - 1 {
        lemma_deb_moved(h, t, names.drop_last(), i);
        let k = choose|k: int| 0 <= k < asks(h, first).len() && asks(h, first)[k] == x;
        assert(all[k] == x);
    } else {
        assert(all[all.len() - 1] == x);
    }
}

proof fn lemma_in_visits(
    h: Host,
    todo: Seq<StepView>,
    shelves: Seq<Shelf>,
    i: int,
    x: ActionView,
)
    requires
        0 <= i < todo.len(),
        shelves.len() == todo.len(),
        visit_effects(h, target_of(todo[i]), shelves[i]).contains(x),
    ensures
        visits_effects(h, todo, shelves).contains(x),
    decreases todo.len(),
{
    if i > 0 {
        lemma_in_visits(h, todo.drop_first(), shelves.drop_first(), i - 1, x);
    }
    lemma_contains_adds(
        visit_effects(h, target_of(todo[0]), shelves[0]),
        visits_effects(h, todo.drop_first(), shelves.drop_first()),
        x,
    );
}

proof fn lemma_gone(fx: Seq<ActionView>, x: ActionView, dir: Text, name: Seq<u8>)
    requires
        fx.contains(x),
        takes(x, dir, name),
    ensures
        gone(fx, dir, name),
{
    let i = choose|i: int| 0 <= i < fx.len() && fx[i] == x;
    assert(takes(fx[i], dir, name));
}

proof fn lemma_no_devel(
    h: Host,
    t: TargetView,
    logs: Map<Seq<u8>, Text>,
    names: Seq<Seq<u8>>,
)
    requires
        forall|i: int|
            0 <= i < names.len() ==> !has_extension(#[trigger] names[i], "log"@) && !(
            has_extension(names[i], "deb"@) && decoded(names[i]) is Some),
    ensures
        log_effects(h, t, logs, names).len() == 0,
        deb_steps(h, t, names).len() == 0,
    decreases names.len(),
{
    if names.len() > 0 {
        let init = names.drop_last();
        assert forall|i: int| 0 <= i < init.len() implies !has_extension(
            #[trigger] init[i],
            "log"@,
        ) && !(has_extension(init[i], "deb"@) && decoded(init[i]) is Some) by {
            assert(init[i] == names[i]);
        }
        lemma_no_devel(h, t, logs, init);
        assert(names[names.len() - 1] == names.last());
    }
}

proof fn lemma_no_duplicates(t: TargetView, files: Seq<PoolFileView>, names: Seq<Text>)
    requires
        forall|i: int| 0 <= i < names.len() ==> outdated(files, #[trigger] names[i]).len() == 0,
    ensures
        duplicate_steps(t, files, names).len() == 0,
    decreases names.len(),
{
    if names.len() > 0 {
        let init = names.drop_last();
        assert forall|i: int| 0 <= i < init.len() implies outdated(
            files,
            #[trigger] init[i],
        ).len() == 0 by {
            assert(init[i] == names[i]);
        }
        lemma_no_duplicates(t, files, init);
        assert(names[names.len() - 1] == names.last());
    }
}

proof fn lemma_listed_from(h: Host, t: TargetView, files: Seq<(Seq<u8>, u64)>, i: int) -> (k: int)
    requires
        0 <= i < listed(h, t, files).len(),
    ensures
        0 <= k < files.len(),
        decoded(files[k].0) is Some,
        listed(h, t, files)[i] == pool_file(h, t, decoded(files[k].0)->0, files[k].1),
    decreases files.len(),
{
    let init = files.drop_last();
    if i < listed(h, t, init).len() {
        let k = lemma_listed_from(h, t, init, i);
        assert(init[k] == files[k]);
        k
    } else {
        files.len() - 1
    }
}

proof fn lemma_listed(h: Host, t: TargetView, files: Seq<(Seq<u8>, u64)>, k: int)
    requires
        0 <= k < files.len(),
        decoded(files[k].0) is Some,
    ensures
        listed(h, t, files).contains(pool_file(h, t, decoded(files[k].0)->0, files[k].1)),
    decreases files.len(),
{
    let init = files.drop_last();
    let x = pool_file(h, t, decoded(files[k].0)->0, files[k].1);
    let all = listed(h, t, files);
    if k < files.len() - 1 {
        lemma_listed(h, t, init, k);
        let i = choose|i: int| 0 <= i < listed(h, t, init).len() && listed(h, t, init)[i] == x;
        assert(all[i] == x);
    } else {
        assert(all[all.len() - 1] == x);
    }
}

/// A package that is older than another of its name is removed.
proof fn lemma_older_removed(
    t: TargetView,
    files: Seq<PoolFileView>,
    a: PoolFileView,
    b: PoolFileView,
)
    requires
        t.cleanup,
        files.contains(a),
        files.contains(b),
        a.repo == b.repo,
        older(a, b),
    ensures
        duplicate_steps(t, files, repo_names(files)).contains(StepView::Remove(a.path)),
{
    let n = a.repo;
    let g = by_age(files, n);
    let names = repo_names(files);
    lemma_by_age(files, n);
    lemma_repo_names(files);
    let x = choose|x: int| 0 <= x < files.len() && files[x] == a;
    let y = choose|y: int| 0 <= y < files.len() && files[y] == b;
    let i = choose|i: int| 0 <= i < g.len() && same_file(#[trigger] g[i], files[x]);
    let j = choose|j: int| 0 <= j < g.len() && same_file(#[trigger] g[j], files[y]);
    assert(older(g[i], g[j]));
    if i >= j {
        if i > j {
            assert(older(g[j], g[i]));
        }
        lemma_older_asymmetric(g[i], g[j]);
    }
    assert(names.contains(files[x].repo));
    let k = choose|k: int| 0 <= k < names.len() && names[k] == n;
    assert(outdated(files, n)[i] == g[i]);
    law_outdated_is_removed(t, files, names, k, i);
}

/// What a visit leaves of a package directory calls for nothing but its announcement.
proof fn lemma_left_is_tidy(
    h: Host,
    t: TargetView,
    fx: Seq<ActionView>,
    earlier: Shelf,
    later: Shelf,
)
    requires
        t.cleanup,
        !t.publish,
        is_left(h, t, fx, earlier, later),
        forall|x: ActionView| #[trigger]
            visit_effects(h, t, earlier).contains(x) ==> fx.contains(x),
    ensures
        has_long_logs(later),
        later.found ==> visit_effects(h, t, later) == announcement(t),
{
    if later.found {
        let first = listed(h, t, earlier.pool);
        let second = listed(h, t, later.pool);
        let fd = match earlier.devel {
            Some(names) => log_effects(h, t, earlier.logs, names) + asks(
                h,
                deb_steps(h, t, names),
            ),
            None => seq![],
        };
        let fp = asks(h, pool_steps(h, t, first));
        let whole = visit_effects(h, t, earlier);
        assert(whole == fd + announcement(t) + fp);
        match later.devel {
            Some(names) => {
                let before = earlier.devel->0;
                assert forall|i: int| 0 <= i < names.len() implies !has_extension(
                    #[trigger] names[i],
                    "log"@,
                ) && !(has_extension(names[i], "deb"@) && decoded(names[i]) is Some) by {
                    let name = names[i];
                    let k = choose|k: int| 0 <= k < before.len() && before[k] == name;
                    let dir = devel_dir(h, t);
                    let fl = log_effects(h, t, earlier.logs, before);
                    let fm = asks(h, deb_steps(h, t, before));
                    if has_extension(name, "log"@) {
                        let x = ActionView::RemoveEntry { dir, name };
                        lemma_log_removed(h, t, earlier.logs, before, k);
                        lemma_contains_adds(fl, fm, x);
                        lemma_contains_adds(fd, announcement(t), x);
                        lemma_contains_adds(fd + announcement(t), fp, x);
                        assert(whole.contains(x));
                        lemma_gone(fx, x, dir, name);
                    }
                    if has_extension(name, "deb"@) && decoded(name) is Some {
                        let x = ActionView::Rename {
                            from: joined_path(dir, decoded(name)->0),
                            to: joined_path(distro_dir(h, t), decoded(name)->0),
                        };
                        lemma_deb_moved(h, t, before, k);
                        lemma_contains_adds(fl, fm, x);
                        lemma_contains_adds(fd, announcement(t), x);
                        lemma_contains_adds(fd + announcement(t), fp, x);
                        assert(whole.contains(x));
                        lemma_gone(fx, x, dir, name);
                    }
                }
                lemma_no_devel(h, t, later.logs, names);
            },
            None => {},
        }
        let names = repo_names(second);
        assert forall|n: int| 0 <= n < names.len() implies outdated(
            second,
            #[trigger] names[n],
        ).len() == 0 by {
            let g = by_age(second, names[n]);
            lemma_repo_names(second);
            assert(names.contains(names[n]));
            lemma_by_age(second, names[n]);
            if g.len() >= 2 {
                let a = g[0];
                let b = g[1];
                assert(older(a, b));
                assert(second.contains(a) && second.contains(b));
                lemma_still_listed(h, t, earlier.pool, later.pool, fx, a);
                lemma_still_listed(h, t, earlier.pool, later.pool, fx, b);
                lemma_older_removed(t, first, a, b);
                let steps = duplicate_steps(t, first, repo_names(first));
                assert(pool_steps(h, t, first) =~= steps);
                let i = choose|i: int| 0 <= i < steps.len() && steps[i] == StepView::Remove(a.path);
                let x = ActionView::Remove(a.path);
                assert(fp[i] == x);
                lemma_contains_adds(fd + announcement(t), fp, x);
                assert(whole.contains(x));
                let y = choose|y: int| 0 <= y < second.len() && second[y] == a;
                let k = lemma_listed_from(h, t, later.pool, y);
                lemma_gone(fx, x, distro_dir(h, t), later.pool[k].0);
                assert(earlier.pool.contains(later.pool[k]));
            }
        }
        lemma_no_duplicates(t, second, names);
        assert(asks(h, pool_steps(h, t, second)) =~= seq![]);
        assert(visit_effects(h, t, later) =~= announcement(t));
    }
}

/// A package that is still listed was listed before.
proof fn lemma_still_listed(
    h: Host,
    t: TargetView,
    earlier: Seq<(Seq<u8>, u64)>,
    later: Seq<(Seq<u8>, u64)>,
    fx: Seq<ActionView>,
    a: PoolFileView,
)
    requires
        forall|i: int|
            0 <= i < later.len() ==> earlier.contains(#[trigger] later[i]) && !gone(
                fx,
                distro_dir(h, t),
                later[i].0,
            ),
        listed(h, t, later).contains(a),
    ensures
        listed(h, t, earlier).contains(a),
{
    let y = choose|y: int| 0 <= y < listed(h, t, later).len() && listed(h, t, later)[y] == a;
    let k = lemma_listed_from(h, t, later, y);
    assert(earlier.contains(later[k]));
    let x = choose|x: int| 0 <= x < earlier.len() && earlier[x] == later[k];
    lemma_listed(h, t, earlier, x);
}

proof fn lemma_tidy_effects(h: Host, todo: Seq<StepView>, shelves: Seq<Shelf>)
    requires
        shelves.len() == todo.len(),
        forall|i: int|
            0 <= i < todo.len() && (#[trigger] shelves[i]).found ==> visit_effects(
                h,
                target_of(todo[i]),
                shelves[i],
            ) == announcement(target_of(todo[i])),
    ensures
        visits_effects(h, todo, shelves) == announcements(todo, shelves),
    decreases todo.len(),
{
    if todo.len() > 0 {
        let rest = todo.drop_first();
        let more = shelves.drop_first();
        assert forall|i: int|
            0 <= i < rest.len() && (#[trigger] more[i]).found implies visit_effects(
            h,
            target_of(rest[i]),
            more[i],
        ) == announcement(target_of(rest[i])) by {
            assert(more[i] == shelves[i + 1]);
            assert(rest[i] == todo[i + 1]);
        }
        lemma_tidy_effects(h, rest, more);
        assert(shelves[0].found ==> visit_effects(h, target_of(todo[0]), shelves[0])
            == announcement(target_of(todo[0])));
    }
}

/// A check that cleans up, run again after it has succeeded and with no other change to the files,
/// succeeds again, moves and removes nothing, and says nothing but the line about each directory
/// that exists.
pub proof fn law_second_cleanup_changes_nothing(
    h: Host,
    first: Seq<Shelf>,
    second: Seq<Shelf>,
)
    requires
        first.len() == check_repo_steps(h, true, false).len(),
        second.len() == first.len(),
        forall|i: int| 0 <= i < first.len() ==> has_long_logs(#[trigger] first[i]),
        forall|i: int|
            0 <= i < first.len() ==> is_left(
                h,
                target_of(check_repo_steps(h, true, false)[i]),
                effects(
                    h,
                    check_repo_steps(h, true, false),
                    visits(h, check_repo_steps(h, true, false), first),
                ),
                first[i],
                #[trigger] second[i],
            ),
    ensures
        ({
            let todo = check_repo_steps(h, true, false);
            &&& possible(h, todo, visits(h, todo, first))
            &&& next_action(h, after(h, todo, visits(h, todo, first))) == ActionView::Finish(None)
            &&& possible(h, todo, visits(h, todo, second))
            &&& next_action(h, after(h, todo, visits(h, todo, second))) == ActionView::Finish(None)
            &&& effects(h, todo, visits(h, todo, second)) == announcements(todo, second)
        }),
{
    let todo = check_repo_steps(h, true, false);
    lemma_all_enter(
        texts(h.config.inner().distros@),
        texts(h.config.inner().repo_directories@),
    );
    lemma_visits(h, todo, first);
    let fx = visits_effects(h, todo, first);
    assert(effects(h, todo, visits(h, todo, first)) == fx);
    assert forall|i: int| 0 <= i < todo.len() implies has_long_logs(#[trigger] second[i]) && (
    second[i].found ==> visit_effects(h, target_of(todo[i]), second[i]) == announcement(
        target_of(todo[i]),
    )) by {
        let t = target_of(todo[i]);
        assert(todo[i] == StepView::Repo(RepoStepView::Enter(t)));
        assert forall|x: ActionView| #[trigger]
            visit_effects(h, t, first[i]).contains(x) implies fx.contains(x) by {
            lemma_in_visits(h, todo, first, i, x);
        }
        assert(is_left(h, t, fx, first[i], second[i]));
        lemma_left_is_tidy(h, t, fx, first[i], second[i]);
    }
    lemma_tidy_effects(h, todo, second);
    lemma_visits(h, todo, second);
}

} // verus!
