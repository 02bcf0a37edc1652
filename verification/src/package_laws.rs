//! What the check of the package directories does, told by what the directories hold.

use vstd::prelude::*;
use vstd::utf8::{
    encode_utf8, encode_utf8_decode_utf8, encode_utf8_valid_utf8, is_ascii_chars,
    is_ascii_chars_encode_utf8,
};

use crate::action::{ActionView, EventView};
use crate::cleanup::dones;
use crate::host::Host;
use crate::number::decimal;
use crate::order::text_before_text;
use crate::outside::{decoded, path_shown};
use crate::packages::{
    ascending, by_age, check_repo_steps, clear_step, clear_steps, deb_steps, drop_all, drop_steps,
    duplicate_steps, enter_all, enter_dirs, lemma_by_age, lemma_older_asymmetric, lemma_repo_names,
    log_steps, log_tail, move_steps, newest_paths, older, outdated, pool_steps, publish_steps,
    rebuild_steps, repo_names, repo_of, same_file, upload_steps,
};
use crate::path::{has_extension, joined_path, last_dot, lemma_last_dot};
use crate::runs::{dated_listing, law_packages, listed, listing};
use crate::script::{after, answers, ask, expand, without};
use crate::step::{say_all, PoolFileView, RepoStepView, StepView, TargetView};
use crate::text::{split, texts, Text};
use crate::text_laws::{law_before, law_file_stem};
use crate::trace::{
    goes, lemma_goes_on, lemma_start, lemma_then, lemma_then_guard, provided, to_pipe, to_run,
};
use crate::vault_laws::entries;

verus! {

// ---------------------------------------------------------------------------
// Names of packages
// ---------------------------------------------------------------------------

/// A package file gets the name of its package: what its file name has before the first underscore.
/// Two files are packages of the same name exactly where these parts are equal.
pub proof fn law_package_name(a: Text, x: Text, b: Text, y: Text)
    requires
        !a.contains('_'),
        !b.contains('_'),
    ensures
        repo_of(a + "_"@ + x + ".deb"@) == a,
        repo_of(a + "_"@ + x + ".deb"@) == repo_of(b + "_"@ + y + ".deb"@) <==> a == b,
        !a.contains('.') ==> repo_of(a) == a,
{
    reveal_strlit(".deb");
    reveal_strlit(".");
    let deb = seq!['d', 'e', 'b'];
    lemma_package_name(a, x, deb);
    lemma_package_name(b, y, deb);
    assert(a + "_"@ + x + ".deb"@ =~= a + "_"@ + x + "."@ + deb);
    assert(b + "_"@ + y + ".deb"@ =~= b + "_"@ + y + "."@ + deb);
    if !a.contains('.') {
        law_file_stem(seq!['x'], a);
        law_before(a, '_', seq![]);
    }
}

proof fn lemma_package_name(a: Text, x: Text, kind: Text)
    requires
        !a.contains('_'),
        !kind.contains('.'),
    ensures
        repo_of(a + "_"@ + x + "."@ + kind) == a,
{
    reveal_strlit("_");
    reveal_strlit(".");
    let stem = a + seq!['_'] + x;
    assert(a + "_"@ + x + "."@ + kind =~= stem + seq!['.'] + kind);
    law_file_stem(stem, kind);
    law_before(a, '_', x);
}

// ---------------------------------------------------------------------------
// Directories
// ---------------------------------------------------------------------------

/// The directory of the packages of a target.
pub open spec fn pool_at(h: Host, t: TargetView) -> Text {
    joined_path(joined_path(h.config.inner().repo_deb_directory@, t.distro), t.dir)
}

/// The directory of the new packages of a target.
pub open spec fn devel_at(h: Host, t: TargetView) -> Text {
    joined_path(joined_path(h.config.inner().repo_deb_directory@, t.distro), "devel_"@ + t.dir)
}

/// The directory in which the package repository of a target is built.
pub open spec fn built_at(h: Host, t: TargetView) -> Text {
    joined_path(joined_path(h.config.inner().repo_directory@, t.distro), t.dir)
}

proof fn lemma_enter_all(
    distros: Seq<Text>,
    dirs: Seq<Text>,
    cleanup: bool,
    publish: bool,
    i: int,
    j: int,
)
    ensures
        enter_all(distros, dirs, cleanup, publish).len() == distros.len() * dirs.len(),
        0 <= i < distros.len() && 0 <= j < dirs.len() ==> i * dirs.len() + j < distros.len()
            * dirs.len() && enter_all(distros, dirs, cleanup, publish)[i * dirs.len() + j]
            == StepView::Repo(
            RepoStepView::Enter(TargetView { distro: distros[i], dir: dirs[j], cleanup, publish }),
        ),
    decreases distros.len(),
{
    let m = dirs.len() as int;
    if distros.len() > 0 {
        let init = distros.drop_last();
        let n = init.len() as int;
        lemma_enter_all(init, dirs, cleanup, publish, i, j);
        let all = enter_all(distros, dirs, cleanup, publish);
        let first = enter_all(init, dirs, cleanup, publish);
        assert(all == first + enter_dirs(distros.last(), dirs, cleanup, publish));
        assert((n + 1) * m == n * m + m) by (nonlinear_arith);
        if 0 <= i < distros.len() && 0 <= j < m {
            if i < n {
                assert(init[i] == distros[i]);
                assert(i * m + j < n * m);
                assert(all[i * m + j] == first[i * m + j]);
            } else {
                assert(i == n);
                assert(all[n * m + j] == enter_dirs(distros.last(), dirs, cleanup, publish)[j]);
            }
        }
    } else {
        assert(0 * m == 0) by (nonlinear_arith);
    }
}

/// Every package directory of every distribution is checked, each once and in the order of the
/// settings, with the same leave to clean up and to publish.
pub proof fn law_all_directories(h: Host, cleanup: bool, publish: bool, i: int, j: int)
    ensures
        ({
            let c = h.config.inner();
            let n = c.distros@.len();
            let m = c.repo_directories@.len();
            let steps = check_repo_steps(h, cleanup, publish);
            &&& steps.len() == n * m
            &&& 0 <= i < n && 0 <= j < m ==> i * m + j < n * m && steps[i * m + j]
                == StepView::Repo(
                RepoStepView::Enter(
                    TargetView {
                        distro: c.distros@[i]@,
                        dir: c.repo_directories@[j]@,
                        cleanup,
                        publish,
                    },
                ),
            )
        }),
{
    let c = h.config.inner();
    lemma_enter_all(texts(c.distros@), texts(c.repo_directories@), cleanup, publish, i, j);
    assert(texts(c.distros@).len() == c.distros@.len());
    assert(texts(c.repo_directories@).len() == c.repo_directories@.len());
}

/// A package directory is entered where it exists. The new packages of it are dealt with where
/// there is a directory of them, before the packages that are there; and one line is said in
/// between.
pub proof fn law_entering(h: Host, t: TargetView, rest: Seq<StepView>, devel: bool)
    ensures
        goes(
            h,
            seq![StepView::Repo(RepoStepView::Enter(t))] + rest,
            seq![EventView::Answer(false)],
            rest,
            seq![ActionView::Exists(pool_at(h, t))],
        ),
        goes(
            h,
            seq![StepView::Repo(RepoStepView::Enter(t))] + rest,
            seq![EventView::Answer(true), EventView::Answer(devel)],
            (if devel {
                seq![StepView::Repo(RepoStepView::OpenDevel(t))]
            } else {
                seq![]
            }) + seq![
                StepView::Say("distro_deb directory "@ + t.distro),
                StepView::Repo(RepoStepView::OpenPool(t)),
            ] + rest,
            seq![ActionView::Exists(pool_at(h, t)), ActionView::Exists(devel_at(h, t))],
        ),
{
    let enter = StepView::Repo(RepoStepView::Enter(t));
    let look = StepView::Repo(RepoStepView::Devel(t));
    let todo = seq![enter] + rest;
    let e0 = Seq::<EventView>::empty();
    let t0 = Seq::<ActionView>::empty();
    let t1 = t0.push(ActionView::Exists(pool_at(h, t)));
    lemma_start(h, todo);
    lemma_then(h, todo, e0, enter, rest, t0, EventView::Answer(false));
    assert(e0.push(EventView::Answer(false)) =~= seq![EventView::Answer(false)]);
    assert(t1 =~= seq![ActionView::Exists(pool_at(h, t))]);
    assert(Seq::<StepView>::empty() + rest =~= rest);
    lemma_then(h, todo, e0, enter, rest, t0, EventView::Answer(true));
    let e1 = e0.push(EventView::Answer(true));
    assert(after(h, todo, e1) =~= seq![look] + rest);
    lemma_then(h, todo, e1, look, rest, t1, EventView::Answer(devel));
    assert(e1.push(EventView::Answer(devel)) =~= seq![
        EventView::Answer(true),
        EventView::Answer(devel),
    ]);
    assert(t1.push(ActionView::Exists(devel_at(h, t))) =~= seq![
        ActionView::Exists(pool_at(h, t)),
        ActionView::Exists(devel_at(h, t)),
    ]);
}

// ---------------------------------------------------------------------------
// New packages
// ---------------------------------------------------------------------------

/// Whether a file name ends in a dot and this extension, with something before the dot.
pub open spec fn is_named(name: Seq<u8>, ext: Text) -> bool {
    exists|head: Seq<u8>|
        head.len() > 0 && name == #[trigger] (head + (seq![46u8] + encode_utf8(ext)))
}

/// The extension of a file name is what it ends in behind a dot.
pub proof fn law_named(name: Seq<u8>, ext: Text)
    requires
        is_ascii_chars(ext),
        !ext.contains('.'),
    ensures
        has_extension(name, ext) <==> is_named(name, ext),
{
    let tail = encode_utf8(ext);
    is_ascii_chars_encode_utf8(ext);
    lemma_last_dot(name);
    if has_extension(name, ext) {
        let d = last_dot(name);
        let head = name.take(d);
        assert(name =~= head + (seq![46u8] + name.skip(d + 1)));
        assert(name == head + (seq![46u8] + tail));
    }
    if is_named(name, ext) {
        let head = choose|head: Seq<u8>|
            head.len() > 0 && name == #[trigger] (head + (seq![46u8] + tail));
        let n = head.len() as int;
        assert(name[n] == 46);
        let d = last_dot(name);
        if d > n {
            let i = d - n - 1;
            assert(name[d] == tail[i]);
            assert(ext[i] as u8 == tail[i]);
            assert(ext.contains(ext[i]));
        }
        assert(name.skip(n + 1) =~= tail);
    }
}

proof fn lemma_extensions(name: Seq<u8>)
    ensures
        has_extension(name, "log"@) <==> is_named(name, "log"@),
        has_extension(name, "deb"@) <==> is_named(name, "deb"@),
{
    reveal_strlit("log");
    reveal_strlit("deb");
    law_named(name, "log"@);
    law_named(name, "deb"@);
}

/// The last twenty lines of a text.
pub open spec fn last_twenty(text: Text) -> Seq<Text> {
    split(text, '\n').skip(split(text, '\n').len() - 20)
}

/// Whether every build log among these files has at least twenty lines.
pub open spec fn logs_are_long(logs: Map<Seq<u8>, Text>, names: Seq<Seq<u8>>) -> bool {
    forall|i: int|
        0 <= i < names.len() && is_named(#[trigger] names[i], "log"@) ==> split(
            logs[names[i]],
            '\n',
        ).len() >= 20
}

/// The answers about the build logs among these files.
pub open spec fn log_replies(
    t: TargetView,
    logs: Map<Seq<u8>, Text>,
    names: Seq<Seq<u8>>,
) -> Seq<EventView>
    decreases names.len(),
{
    if names.len() == 0 {
        seq![]
    } else {
        log_replies(t, logs, names.drop_last()) + (if is_named(names.last(), "log"@) {
            seq![EventView::Text(logs[names.last()])] + dones(
                if t.cleanup {
                    21
                } else {
                    20
                },
            )
        } else {
            seq![]
        })
    }
}

/// Each build log among these files is read, its last twenty lines are said, and where there is
/// leave to clean up it is removed.
pub open spec fn shows_logs(
    h: Host,
    t: TargetView,
    logs: Map<Seq<u8>, Text>,
    names: Seq<Seq<u8>>,
) -> Seq<ActionView>
    decreases names.len(),
{
    if names.len() == 0 {
        seq![]
    } else {
        let name = names.last();
        shows_logs(h, t, logs, names.drop_last()) + provided(
            is_named(name, "log"@),
            seq![ActionView::ReadEntry { dir: devel_at(h, t), name }] + last_twenty(
                logs[name],
            ).map_values(|line: Text| ActionView::Say(line)) + provided(
                t.cleanup,
                seq![ActionView::RemoveEntry { dir: devel_at(h, t), name }],
            ),
        )
    }
}

/// Each package among these files is said to be new, and where there is leave to clean up it is
/// moved to the packages that are there, under the same name.
pub open spec fn moves_packages(
    h: Host,
    t: TargetView,
    names: Seq<Seq<u8>>,
) -> Seq<ActionView>
    decreases names.len(),
{
    if names.len() == 0 {
        seq![]
    } else {
        moves_packages(h, t, names.drop_last()) + (match decoded(names.last()) {
            Some(name) => provided(
                is_named(names.last(), "deb"@),
                seq![ActionView::Say("devel "@ + name)] + provided(
                    t.cleanup,
                    seq![
                        ActionView::Rename {
                            from: joined_path(devel_at(h, t), name),
                            to: joined_path(pool_at(h, t), name),
                        },
                    ],
                ),
            ),
            None => seq![],
        })
    }
}

/// Whether a step is answered by its being done, and calls for nothing more.
spec fn is_simple(s: StepView) -> bool {
    s is Say || s is Rename || s is Remove || s matches StepView::Repo(
        RepoStepView::DropLog { .. },
    )
}

proof fn lemma_simple(
    h: Host,
    todo: Seq<StepView>,
    events: Seq<EventView>,
    trace: Seq<ActionView>,
    steps: Seq<StepView>,
    rest: Seq<StepView>,
)
    requires
        goes(h, todo, events, steps + rest, trace),
        forall|i: int| 0 <= i < steps.len() ==> is_simple(#[trigger] steps[i]),
    ensures
        goes(
            h,
            todo,
            events + dones(steps.len()),
            rest,
            trace + steps.map_values(|s: StepView| ask(h, s)),
        ),
    decreases steps.len(),
{
    let asks = steps.map_values(|s: StepView| ask(h, s));
    if steps.len() == 0 {
        assert(steps + rest =~= rest);
        assert(events + dones(0) =~= events);
        assert(trace + asks =~= trace);
    } else {
        let s = steps[0];
        let more = steps.drop_first();
        assert(is_simple(s));
        assert forall|i: int| 0 <= i < more.len() implies is_simple(#[trigger] more[i]) by {
            assert(more[i] == steps[i + 1]);
        }
        assert(steps + rest =~= seq![s] + (more + rest));
        lemma_then(h, todo, events, s, more + rest, trace, EventView::Done);
        let e1 = events.push(EventView::Done);
        let t1 = trace.push(ask(h, s));
        assert(after(h, todo, e1) =~= more + rest);
        lemma_simple(h, todo, e1, t1, more, rest);
        assert(e1 + dones(more.len()) =~= events + dones(steps.len()));
        assert(t1 + more.map_values(|s: StepView| ask(h, s)) =~= trace + asks);
    }
}

proof fn lemma_devel_scan(
    h: Host,
    todo: Seq<StepView>,
    events: Seq<EventView>,
    trace: Seq<ActionView>,
    t: TargetView,
    rest: Seq<StepView>,
    names: Seq<Seq<u8>>,
)
    requires
        goes(
            h,
            todo,
            events,
            seq![StepView::Repo(RepoStepView::ScanDevel { target: t, seen: seq![] })] + rest,
            trace,
        ),
    ensures
        goes(
            h,
            todo,
            events + listing(names),
            seq![StepView::Repo(RepoStepView::ScanDevel { target: t, seen: names })] + rest,
            trace + entries(names.len()),
        ),
    decreases names.len(),
{
    if names.len() == 0 {
        assert(names =~= seq![]);
        assert(events + listing(names) =~= events);
        assert(trace + entries(0) =~= trace);
    } else {
        let init = names.drop_last();
        lemma_devel_scan(h, todo, events, trace, t, rest, init);
        let scan = StepView::Repo(RepoStepView::ScanDevel { target: t, seen: init });
        let e = EventView::Entry(names.last());
        lemma_then(h, todo, events + listing(init), scan, rest, trace + entries(init.len()), e);
        assert(init.push(names.last()) =~= names);
        assert((events + listing(init)).push(e) =~= events + listing(names));
        assert((trace + entries(init.len())).push(ActionView::NextEntry) =~= trace + entries(
            names.len(),
        ));
    }
}

/// The answers about a build log.
spec fn log_reply(t: TargetView, text: Text) -> Seq<EventView> {
    seq![EventView::Text(text)] + dones(
        if t.cleanup {
            21
        } else {
            20
        },
    )
}

/// What is asked for about a build log.
spec fn shows_log(h: Host, t: TargetView, name: Seq<u8>, text: Text) -> Seq<ActionView> {
    seq![ActionView::ReadEntry { dir: devel_at(h, t), name }] + last_twenty(text).map_values(
        |line: Text| ActionView::Say(line),
    ) + provided(t.cleanup, seq![ActionView::RemoveEntry { dir: devel_at(h, t), name }])
}

proof fn lemma_log(
    h: Host,
    todo: Seq<StepView>,
    events: Seq<EventView>,
    trace: Seq<ActionView>,
    t: TargetView,
    name: Seq<u8>,
    text: Text,
    rest: Seq<StepView>,
)
    requires
        goes(
            h,
            todo,
            events,
            seq![
                StepView::Repo(
                    RepoStepView::ShowLog { dir: devel_at(h, t), name, cleanup: t.cleanup },
                ),
            ] + rest,
            trace,
        ),
        split(text, '\n').len() >= 20,
    ensures
        goes(h, todo, events + log_reply(t, text), rest, trace + shows_log(h, t, name, text)),
{
    let dir = devel_at(h, t);
    let show = StepView::Repo(RepoStepView::ShowLog { dir, name, cleanup: t.cleanup });
    let gone = StepView::Repo(RepoStepView::DropLog { dir, name });
    let e = EventView::Text(text);
    lemma_then(h, todo, events, show, rest, trace, e);
    let body = say_all(log_tail(text)) + (if t.cleanup {
        seq![gone]
    } else {
        seq![]
    });
    assert(expand(h, show, e) =~= body);
    let e2 = events.push(e);
    let t2 = trace.push(ActionView::ReadEntry { dir, name });
    assert forall|i: int| 0 <= i < body.len() implies is_simple(#[trigger] body[i]) by {}
    lemma_simple(h, todo, e2, t2, body, rest);
    assert(log_tail(text) =~= last_twenty(text));
    assert(e2 + dones(body.len()) =~= events + log_reply(t, text));
    let said = last_twenty(text).map_values(|line: Text| ActionView::Say(line));
    assert(body.map_values(|s: StepView| ask(h, s)) =~= said + provided(
        t.cleanup,
        seq![ActionView::RemoveEntry { dir, name }],
    ));
    assert(t2 + body.map_values(|s: StepView| ask(h, s)) =~= trace + shows_log(h, t, name, text));
}

proof fn lemma_logs(
    h: Host,
    todo: Seq<StepView>,
    events: Seq<EventView>,
    trace: Seq<ActionView>,
    t: TargetView,
    logs: Map<Seq<u8>, Text>,
    names: Seq<Seq<u8>>,
    rest: Seq<StepView>,
)
    requires
        goes(h, todo, events, log_steps(h, t, names) + rest, trace),
        logs_are_long(logs, names),
    ensures
        goes(
            h,
            todo,
            events + log_replies(t, logs, names),
            rest,
            trace + shows_logs(h, t, logs, names),
        ),
    decreases names.len(),
{
    if names.len() == 0 {
        assert(log_steps(h, t, names) + rest =~= rest);
        assert(events + log_replies(t, logs, names) =~= events);
        assert(trace + shows_logs(h, t, logs, names) =~= trace);
    } else {
        let init = names.drop_last();
        let name = names.last();
        assert forall|i: int| 0 <= i < init.len() && is_named(#[trigger] init[i], "log"@) implies
            split(logs[init[i]], '\n').len() >= 20 by {
            assert(init[i] == names[i]);
        }
        lemma_extensions(name);
        if is_named(name, "log"@) {
            assert(names[names.len() - 1] == name);
            let dir = devel_at(h, t);
            let show = StepView::Repo(RepoStepView::ShowLog { dir, name, cleanup: t.cleanup });
            let text = logs[name];
            assert(log_steps(h, t, names) + rest =~= log_steps(h, t, init) + (seq![show] + rest));
            lemma_logs(h, todo, events, trace, t, logs, init, seq![show] + rest);
            let e1 = events + log_replies(t, logs, init);
            let t1 = trace + shows_logs(h, t, logs, init);
            lemma_log(h, todo, e1, t1, t, name, text, rest);
            assert(log_replies(t, logs, names) =~= log_replies(t, logs, init) + log_reply(t, text));
            assert(shows_logs(h, t, logs, names) =~= shows_logs(h, t, logs, init) + shows_log(
                h,
                t,
                name,
                text,
            ));
            assert(e1 + log_reply(t, text) =~= events + log_replies(t, logs, names));
            assert(t1 + shows_log(h, t, name, text) =~= trace + shows_logs(h, t, logs, names));
        } else {
            lemma_logs(h, todo, events, trace, t, logs, init, rest);
            assert(log_replies(t, logs, names) =~= log_replies(t, logs, init));
            assert(shows_logs(h, t, logs, names) =~= shows_logs(h, t, logs, init));
        }
    }
}

proof fn lemma_debs(h: Host, t: TargetView, names: Seq<Seq<u8>>)
    ensures
        deb_steps(h, t, names).map_values(|s: StepView| ask(h, s)) == moves_packages(h, t, names),
        forall|i: int|
            0 <= i < deb_steps(h, t, names).len() ==> is_simple(
                #[trigger] deb_steps(h, t, names)[i],
            ),
    decreases names.len(),
{
    let all = deb_steps(h, t, names);
    if names.len() == 0 {
        assert(all.map_values(|s: StepView| ask(h, s)) =~= seq![]);
    } else {
        let init = names.drop_last();
        let first = deb_steps(h, t, init);
        lemma_debs(h, t, init);
        lemma_extensions(names.last());
        let more = match decoded(names.last()) {
            Some(name) => if is_named(names.last(), "deb"@) {
                move_steps(h, t, name)
            } else {
                seq![]
            },
            None => seq![],
        };
        assert(all =~= first + more);
        assert forall|i: int| 0 <= i < all.len() implies is_simple(#[trigger] all[i]) by {
            if i < first.len() {
                assert(all[i] == first[i]);
            } else {
                assert(all[i] == more[i - first.len()]);
            }
        }
        assert(all.map_values(|s: StepView| ask(h, s)) =~= first.map_values(
            |s: StepView| ask(h, s),
        ) + more.map_values(|s: StepView| ask(h, s)));
        assert(all.map_values(|s: StepView| ask(h, s)) =~= moves_packages(h, t, names));
    }
}

/// The directory of new packages is listed whole; then all build logs in it are dealt with, and
/// then all packages. Nothing is done about other files.
pub proof fn law_new_packages_in_full(
    h: Host,
    t: TargetView,
    rest: Seq<StepView>,
    logs: Map<Seq<u8>, Text>,
    names: Seq<Seq<u8>>,
)
    requires
        logs_are_long(logs, names),
    ensures
        goes(
            h,
            seq![StepView::Repo(RepoStepView::OpenDevel(t))] + rest,
            seq![EventView::Done] + listing(names) + seq![EventView::End] + log_replies(
                t,
                logs,
                names,
            ) + dones(moves_packages(h, t, names).len()),
            rest,
            seq![ActionView::OpenDir(devel_at(h, t))] + entries(names.len() + 1) + shows_logs(
                h,
                t,
                logs,
                names,
            ) + moves_packages(h, t, names),
        ),
{
    let open = StepView::Repo(RepoStepView::OpenDevel(t));
    let fresh = StepView::Repo(RepoStepView::ScanDevel { target: t, seen: seq![] });
    let scan = StepView::Repo(RepoStepView::ScanDevel { target: t, seen: names });
    let debs = deb_steps(h, t, names);
    let todo = seq![open] + rest;
    let e0 = Seq::<EventView>::empty();
    let t0 = Seq::<ActionView>::empty();
    lemma_start(h, todo);
    lemma_then(h, todo, e0, open, rest, t0, EventView::Done);
    let e1 = seq![EventView::Done];
    let t1 = seq![ActionView::OpenDir(devel_at(h, t))];
    assert(e0.push(EventView::Done) =~= e1);
    assert(t0.push(t1[0]) =~= t1);
    assert(after(h, todo, e1) =~= seq![fresh] + rest);
    lemma_devel_scan(h, todo, e1, t1, t, rest, names);
    let e2 = e1 + listing(names);
    let t2 = t1 + entries(names.len());
    lemma_then(h, todo, e2, scan, rest, t2, EventView::End);
    let e3 = e2 + seq![EventView::End];
    let t3 = t1 + entries(names.len() + 1);
    assert(e2.push(EventView::End) =~= e3);
    assert(t2.push(ActionView::NextEntry) =~= t3);
    assert(after(h, todo, e3) =~= log_steps(h, t, names) + (debs + rest));
    lemma_logs(h, todo, e3, t3, t, logs, names, debs + rest);
    lemma_debs(h, t, names);
    let e4 = e3 + log_replies(t, logs, names);
    let t4 = t3 + shows_logs(h, t, logs, names);
    lemma_simple(h, todo, e4, t4, debs, rest);
    assert(debs.len() == moves_packages(h, t, names).len());
}

// ---------------------------------------------------------------------------
// Packages of the same name
// ---------------------------------------------------------------------------

/// A package file: the name of its package, what its file name has behind it before and after its
/// last dot, and when it was modified.
pub struct Deb {
    pub package: Text,
    pub version: Text,
    pub kind: Text,
    pub mtime: u64,
}

/// The name of a package file.
pub open spec fn deb_name(d: Deb) -> Text {
    d.package + "_"@ + d.version + "."@ + d.kind
}

/// Where a package file is.
pub open spec fn deb_path(h: Host, t: TargetView, d: Deb) -> Text {
    joined_path(pool_at(h, t), deb_name(d))
}

/// How a directory lists package files.
pub open spec fn deb_files(debs: Seq<Deb>) -> Seq<(Seq<u8>, u64)> {
    debs.map_values(|d: Deb| (encode_utf8(deb_name(d)), d.mtime))
}

/// Whether a file name is made up like this: no name of a package holds an underscore or begins
/// with a separator, and there is no dot behind the last one.
pub open spec fn is_deb(d: Deb) -> bool {
    &&& !d.package.contains('_')
    &&& !d.kind.contains('.')
    &&& d.package.len() > 0 ==> d.package[0] != '/'
}

/// Whether a directory can hold these package files: no two of them have the same name.
pub open spec fn can_be_held(debs: Seq<Deb>) -> bool {
    &&& forall|i: int| 0 <= i < debs.len() ==> is_deb(#[trigger] debs[i])
    &&& forall|i: int, j: int|
        0 <= i < debs.len() && 0 <= j < debs.len() && deb_name(#[trigger] debs[i]) == deb_name(
            #[trigger] debs[j],
        ) ==> i == j
}

/// Whether `b` is a newer package of the same name than `a`: it was modified later, or at the same
/// time and its path comes after.
pub open spec fn is_replaced_by(h: Host, t: TargetView, a: Deb, b: Deb) -> bool {
    a.package == b.package && (a.mtime < b.mtime || (a.mtime == b.mtime && text_before_text(
        deb_path(h, t, a),
        deb_path(h, t, b),
    )))
}

/// Whether there is a newer package of the same name among these.
pub open spec fn is_outdated(h: Host, t: TargetView, debs: Seq<Deb>, k: int) -> bool {
    exists|j: int| 0 <= j < debs.len() && is_replaced_by(h, t, debs[k], #[trigger] debs[j])
}

/// What a listing of package files gives.
spec fn held(h: Host, t: TargetView, debs: Seq<Deb>) -> Seq<PoolFileView> {
    debs.map_values(
        |d: Deb| PoolFileView { mtime: d.mtime, path: deb_path(h, t, d), repo: d.package },
    )
}

proof fn lemma_listed(h: Host, t: TargetView, debs: Seq<Deb>)
    requires
        forall|i: int| 0 <= i < debs.len() ==> is_deb(#[trigger] debs[i]),
    ensures
        listed(h, t, deb_files(debs)) == held(h, t, debs),
    decreases debs.len(),
{
    if debs.len() == 0 {
        assert(listed(h, t, deb_files(debs)) =~= held(h, t, debs));
    } else {
        let init = debs.drop_last();
        let d = debs.last();
        assert forall|i: int| 0 <= i < init.len() implies is_deb(#[trigger] init[i]) by {
            assert(init[i] == debs[i]);
        }
        lemma_listed(h, t, init);
        assert(deb_files(debs).drop_last() =~= deb_files(init));
        assert(is_deb(debs[debs.len() - 1]));
        lemma_package_name(d.package, d.version, d.kind);
        encode_utf8_valid_utf8(deb_name(d));
        encode_utf8_decode_utf8(deb_name(d));
        assert(listed(h, t, deb_files(debs)) =~= held(h, t, debs));
    }
}

/// Different file names are different paths.
proof fn lemma_paths(h: Host, t: TargetView, a: Deb, b: Deb)
    requires
        is_deb(a),
        is_deb(b),
        deb_path(h, t, a) == deb_path(h, t, b),
    ensures
        deb_name(a) == deb_name(b),
{
    reveal_strlit("_");
    reveal_strlit("/");
    let base = pool_at(h, t);
    let (x, y) = (deb_name(a), deb_name(b));
    assert(x[0] != '/') by {
        if a.package.len() == 0 {
            assert(x[0] == '_');
        } else {
            assert(x[0] == a.package[0]);
        }
    }
    assert(y[0] != '/') by {
        if b.package.len() == 0 {
            assert(y[0] == '_');
        } else {
            assert(y[0] == b.package[0]);
        }
    }
    let n = deb_path(h, t, a).len() - x.len();
    assert(deb_path(h, t, a).skip(n) =~= x);
    assert(deb_path(h, t, b).skip(n) =~= y);
}

/// Whether no two files have the same path.
spec fn have_own_paths(files: Seq<PoolFileView>) -> bool {
    forall|a: int, b: int|
        0 <= a < files.len() && 0 <= b < files.len() && (#[trigger] files[a]).path == (
        #[trigger] files[b]).path ==> a == b
}

proof fn lemma_own_paths(h: Host, t: TargetView, debs: Seq<Deb>)
    requires
        can_be_held(debs),
    ensures
        have_own_paths(held(h, t, debs)),
{
    let files = held(h, t, debs);
    assert forall|a: int, b: int|
        0 <= a < files.len() && 0 <= b < files.len() && (#[trigger] files[a]).path == (
        #[trigger] files[b]).path implies a == b by {
        assert(is_deb(debs[a]) && is_deb(debs[b]));
        lemma_paths(h, t, debs[a], debs[b]);
    }
}

/// Whether there is a newer file of the same name.
spec fn has_newer(files: Seq<PoolFileView>, f: PoolFileView) -> bool {
    exists|j: int| 0 <= j < files.len() && files[j].repo == f.repo && older(f, #[trigger] files[j])
}

/// The files of a name in the order of their age are just the files of that name.
proof fn lemma_group(files: Seq<PoolFileView>, k: int) -> (i: int)
    requires
        have_own_paths(files),
        0 <= k < files.len(),
    ensures
        ({
            let g = by_age(files, files[k].repo);
            &&& 0 <= i < g.len()
            &&& g[i] == files[k]
            &&& ascending(g)
        }),
{
    let repo = files[k].repo;
    let g = by_age(files, repo);
    lemma_by_age(files, repo);
    let i = choose|i: int| 0 <= i < g.len() && same_file(#[trigger] g[i], files[k]);
    assert(files.contains(g[i]));
    let m = choose|m: int| 0 <= m < files.len() && files[m] == g[i];
    assert(files[m].path == files[k].path);
    i
}

/// A file is outdated exactly where there is a newer one of the same name.
proof fn lemma_outdated(files: Seq<PoolFileView>, k: int)
    requires
        have_own_paths(files),
        0 <= k < files.len(),
    ensures
        outdated(files, files[k].repo).contains(files[k]) <==> has_newer(files, files[k]),
        by_age(files, files[k].repo).last() == files[k] <==> !has_newer(files, files[k]),
        by_age(files, files[k].repo).len() > 0,
{
    let f = files[k];
    let g = by_age(files, f.repo);
    let o = outdated(files, f.repo);
    let i = lemma_group(files, k);
    let last = g.len() - 1;
    lemma_by_age(files, f.repo);
    if i < last {
        assert(o[i] == f);
        assert(older(g[i], g[last]));
        assert(files.contains(g[last]));
        let j = choose|j: int| 0 <= j < files.len() && files[j] == g[last];
        assert(older(f, files[j]));
        assert(has_newer(files, f));
        if g[last] == f {
            lemma_older_asymmetric(f, f);
        }
    } else {
        assert(g.last() == f);
        if has_newer(files, f) {
            let j = choose|j: int|
                0 <= j < files.len() && files[j].repo == f.repo && older(f, #[trigger] files[j]);
            let m = lemma_group(files, j);
            if m < last {
                assert(older(g[m], g[last]));
            }
            lemma_older_asymmetric(f, files[j]);
        }
        if o.contains(f) {
            let m = choose|m: int| 0 <= m < o.len() && o[m] == f;
            assert(g[m] == f);
            assert(older(g[m], g[last]));
            lemma_older_asymmetric(f, f);
        }
    }
}

proof fn lemma_drop_contains(t: TargetView, g: Seq<PoolFileView>, x: StepView)
    ensures
        drop_all(t, g).contains(x) <==> exists|j: int|
            0 <= j < g.len() && drop_steps(t, (#[trigger] g[j]).path).contains(x),
    decreases g.len(),
{
    let all = drop_all(t, g);
    if g.len() > 0 {
        let init = g.drop_last();
        let first = drop_all(t, init);
        let more = drop_steps(t, g.last().path);
        lemma_drop_contains(t, init, x);
        lemma_contains_either(first, more, x);
        if exists|j: int| 0 <= j < g.len() && drop_steps(t, (#[trigger] g[j]).path).contains(x) {
            let j = choose|j: int|
                0 <= j < g.len() && drop_steps(t, (#[trigger] g[j]).path).contains(x);
            if j < init.len() {
                assert(init[j] == g[j]);
            }
        }
        if first.contains(x) {
            let j = choose|j: int|
                0 <= j < init.len() && drop_steps(t, (#[trigger] init[j]).path).contains(x);
            assert(g[j] == init[j]);
        }
        if more.contains(x) {
            assert(drop_steps(t, g[g.len() - 1].path).contains(x));
        }
    }
}

proof fn lemma_contains_either(a: Seq<StepView>, b: Seq<StepView>, x: StepView)
    ensures
        (a + b).contains(x) <==> a.contains(x) || b.contains(x),
{
    if a.contains(x) {
        let i = choose|i: int| 0 <= i < a.len() && a[i] == x;
        assert((a + b)[i] == x);
    }
    if b.contains(x) {
        let i = choose|i: int| 0 <= i < b.len() && b[i] == x;
        assert((a + b)[a.len() + i] == x);
    }
    if (a + b).contains(x) {
        let i = choose|i: int| 0 <= i < (a + b).len() && (a + b)[i] == x;
        if i < a.len() {
            assert(a[i] == x);
        } else {
            assert(b[i - a.len()] == x);
        }
    }
}

proof fn lemma_duplicates_contain(
    t: TargetView,
    files: Seq<PoolFileView>,
    names: Seq<Text>,
    x: StepView,
)
    ensures
        duplicate_steps(t, files, names).contains(x) <==> exists|n: int|
            0 <= n < names.len() && drop_all(t, outdated(files, #[trigger] names[n])).contains(x),
    decreases names.len(),
{
    if names.len() > 0 {
        let init = names.drop_last();
        let first = duplicate_steps(t, files, init);
        let more = drop_all(t, outdated(files, names.last()));
        lemma_duplicates_contain(t, files, init, x);
        lemma_contains_either(first, more, x);
        if exists|n: int|
            0 <= n < names.len() && drop_all(t, outdated(files, #[trigger] names[n])).contains(x) {
            let n = choose|n: int|
                0 <= n < names.len() && drop_all(t, outdated(files, #[trigger] names[n])).contains(
                    x,
                );
            if n < init.len() {
                assert(init[n] == names[n]);
            }
        }
        if first.contains(x) {
            let n = choose|n: int|
                0 <= n < init.len() && drop_all(t, outdated(files, #[trigger] init[n])).contains(x);
            assert(names[n] == init[n]);
        }
        if more.contains(x) {
            assert(drop_all(t, outdated(files, names[names.len() - 1])).contains(x));
        }
    }
}

/// What is done about duplicates is done about the files that have a newer one.
proof fn lemma_duplicates(t: TargetView, files: Seq<PoolFileView>, x: StepView)
    requires
        have_own_paths(files),
    ensures
        duplicate_steps(t, files, repo_names(files)).contains(x) <==> exists|k: int|
            0 <= k < files.len() && has_newer(files, files[k]) && drop_steps(
                t,
                (#[trigger] files[k]).path,
            ).contains(x),
{
    let names = repo_names(files);
    let steps = duplicate_steps(t, files, names);
    lemma_duplicates_contain(t, files, names, x);
    lemma_repo_names(files);
    if steps.contains(x) {
        let n = choose|n: int|
            0 <= n < names.len() && drop_all(t, outdated(files, #[trigger] names[n])).contains(x);
        let o = outdated(files, names[n]);
        lemma_drop_contains(t, o, x);
        let j = choose|j: int|
            0 <= j < o.len() && drop_steps(t, (#[trigger] o[j]).path).contains(x);
        lemma_by_age(files, names[n]);
        assert(names.contains(names[n]));
        assert(o[j] == by_age(files, names[n])[j]);
        assert(files.contains(o[j]));
        let k = choose|k: int| 0 <= k < files.len() && files[k] == o[j];
        assert(o.contains(files[k]));
        lemma_outdated(files, k);
        assert(has_newer(files, files[k]));
    }
    if exists|k: int|
        0 <= k < files.len() && has_newer(files, files[k]) && drop_steps(
            t,
            (#[trigger] files[k]).path,
        ).contains(x) {
        let k = choose|k: int|
            0 <= k < files.len() && has_newer(files, files[k]) && drop_steps(
                t,
                (#[trigger] files[k]).path,
            ).contains(x);
        lemma_outdated(files, k);
        let o = outdated(files, files[k].repo);
        let j = choose|j: int| 0 <= j < o.len() && o[j] == files[k];
        assert(drop_steps(t, o[j].path).contains(x));
        lemma_drop_contains(t, o, x);
        assert(names.contains(files[k].repo));
        let n = choose|n: int| 0 <= n < names.len() && names[n] == files[k].repo;
        assert(drop_all(t, outdated(files, names[n])).contains(x));
    }
}

proof fn lemma_held_newer(h: Host, t: TargetView, debs: Seq<Deb>, k: int)
    requires
        0 <= k < debs.len(),
    ensures
        has_newer(held(h, t, debs), held(h, t, debs)[k]) <==> is_outdated(h, t, debs, k),
{
    let files = held(h, t, debs);
    if has_newer(files, files[k]) {
        let j = choose|j: int|
            0 <= j < files.len() && files[j].repo == files[k].repo && older(
                files[k],
                #[trigger] files[j],
            );
        assert(is_replaced_by(h, t, debs[k], debs[j]));
    }
    if is_outdated(h, t, debs, k) {
        let j = choose|j: int|
            0 <= j < debs.len() && is_replaced_by(h, t, debs[k], #[trigger] debs[j]);
        assert(older(files[k], files[j]));
    }
}

/// What is said and done about a package that is outdated.
proof fn lemma_drop_steps(t: TargetView, p: Text, q: Text)
    ensures
        drop_steps(t, p).contains(StepView::Remove(q)) <==> t.cleanup && p == q,
        drop_steps(t, p).contains(StepView::Say("duplicate "@ + q)) <==> p == q,
        drop_steps(t, p).contains(StepView::Say("remove "@ + q)) <==> t.cleanup && p == q,
{
    reveal_strlit("duplicate ");
    reveal_strlit("remove ");
    let s = drop_steps(t, p);
    let (d, r) = ("duplicate "@, "remove "@);
    assert((d + p)[0] == 'd' && (d + q)[0] == 'd' && (r + p)[0] == 'r' && (r + q)[0] == 'r');
    if d + p == d + q {
        assert((d + p).skip(d.len() as int) =~= p);
        assert((d + q).skip(d.len() as int) =~= q);
    }
    if r + p == r + q {
        assert((r + p).skip(r.len() as int) =~= p);
        assert((r + q).skip(r.len() as int) =~= q);
    }
    assert(s[0] == StepView::Say(d + p));
    if t.cleanup {
        assert(s[1] == StepView::Say(r + p));
        assert(s[2] == StepView::Remove(p));
    }
}

/// What is left to do once all packages of a directory have been listed.
pub open spec fn after_listing(h: Host, t: TargetView, debs: Seq<Deb>) -> Seq<StepView> {
    after(
        h,
        seq![StepView::Repo(RepoStepView::OpenPool(t))],
        seq![EventView::Done] + dated_listing(deb_files(debs)) + seq![EventView::End],
    )
}

proof fn lemma_after_listing(h: Host, t: TargetView, debs: Seq<Deb>)
    requires
        can_be_held(debs),
    ensures
        after_listing(h, t, debs) == pool_steps(h, t, held(h, t, debs)),
{
    let none = Seq::<StepView>::empty();
    lemma_listed(h, t, debs);
    law_packages(h, t, none, deb_files(debs));
    let open = seq![StepView::Repo(RepoStepView::OpenPool(t))];
    assert(open + none =~= open);
    let steps = pool_steps(h, t, held(h, t, debs));
    assert(steps + none =~= steps);
}

/// A package is said to be a duplicate exactly where there is a newer package of the same name;
/// with leave to clean up such a package is removed, and no other file is. Packages of other names
/// do not matter.
pub proof fn law_duplicates(h: Host, t: TargetView, debs: Seq<Deb>, k: int)
    requires
        can_be_held(debs),
        0 <= k < debs.len(),
    ensures
        ({
            let steps = after_listing(h, t, debs);
            let path = deb_path(h, t, debs[k]);
            &&& steps.contains(StepView::Say("duplicate "@ + path)) <==> is_outdated(h, t, debs, k)
            &&& steps.contains(StepView::Remove(path)) <==> t.cleanup && is_outdated(h, t, debs, k)
            &&& steps.contains(StepView::Say("remove "@ + path)) <==> t.cleanup && is_outdated(
                h,
                t,
                debs,
                k,
            )
        }),
        forall|p: Text| #[trigger]
            after_listing(h, t, debs).contains(StepView::Remove(p)) ==> exists|j: int|
                0 <= j < debs.len() && p == deb_path(h, t, #[trigger] debs[j]),
{
    let files = held(h, t, debs);
    let steps = after_listing(h, t, debs);
    let path = deb_path(h, t, debs[k]);
    let dups = duplicate_steps(t, files, repo_names(files));
    let more = if t.publish {
        publish_steps(h, t, newest_paths(files, repo_names(files)))
    } else {
        seq![]
    };
    lemma_after_listing(h, t, debs);
    lemma_own_paths(h, t, debs);
    lemma_held_newer(h, t, debs, k);
    assert(steps == dups + more);
    lemma_publish_lines(h, t, newest_paths(files, repo_names(files)), path);
    let x = StepView::Say("duplicate "@ + path);
    let y = StepView::Say("remove "@ + path);
    let z = StepView::Remove(path);
    lemma_contains_either(dups, more, x);
    lemma_contains_either(dups, more, y);
    lemma_contains_either(dups, more, z);
    lemma_duplicates(t, files, x);
    lemma_duplicates(t, files, y);
    lemma_duplicates(t, files, z);
    assert(files[k].path == path);
    lemma_drop_steps(t, path, path);
    assert forall|m: int|
        0 <= m < files.len() && (drop_steps(t, (#[trigger] files[m]).path).contains(x)
            || drop_steps(t, files[m].path).contains(y) || drop_steps(t, files[m].path).contains(
            z,
        )) implies m == k by {
        lemma_drop_steps(t, files[m].path, path);
        assert(files[m].path == files[k].path);
    }
    assert forall|p: Text| #[trigger] steps.contains(StepView::Remove(p)) implies exists|j: int|
        0 <= j < debs.len() && p == deb_path(h, t, #[trigger] debs[j]) by {
        lemma_publish_lines(h, t, newest_paths(files, repo_names(files)), p);
        lemma_contains_either(dups, more, StepView::Remove(p));
        lemma_duplicates(t, files, StepView::Remove(p));
        let j = choose|j: int|
            0 <= j < files.len() && has_newer(files, files[j]) && drop_steps(
                t,
                (#[trigger] files[j]).path,
            ).contains(StepView::Remove(p));
        lemma_drop_steps(t, files[j].path, p);
        assert(p == deb_path(h, t, debs[j]));
    }
}

/// Whether each file that is removed is announced by two lines just before.
pub open spec fn is_announced(steps: Seq<StepView>) -> bool {
    forall|i: int|
        0 <= i < steps.len() && (#[trigger] steps[i]) is Remove ==> {
            let p = steps[i]->Remove_0;
            &&& i >= 2
            &&& steps[i - 2] == StepView::Say("duplicate "@ + p)
            &&& steps[i - 1] == StepView::Say("remove "@ + p)
        }
}

proof fn lemma_announced(a: Seq<StepView>, b: Seq<StepView>)
    requires
        is_announced(a),
        is_announced(b),
    ensures
        is_announced(a + b),
{
    let s = a + b;
    assert forall|i: int| 0 <= i < s.len() && (#[trigger] s[i]) is Remove implies {
        let p = s[i]->Remove_0;
        &&& i >= 2
        &&& s[i - 2] == StepView::Say("duplicate "@ + p)
        &&& s[i - 1] == StepView::Say("remove "@ + p)
    } by {
        if i < a.len() {
            assert(s[i] == a[i]);
        } else {
            assert(s[i] == b[i - a.len()]);
        }
    }
}

proof fn lemma_drops_announced(t: TargetView, g: Seq<PoolFileView>)
    ensures
        is_announced(drop_all(t, g)),
    decreases g.len(),
{
    if g.len() > 0 {
        lemma_drops_announced(t, g.drop_last());
        lemma_announced(drop_all(t, g.drop_last()), drop_steps(t, g.last().path));
    }
}

proof fn lemma_duplicates_announced(t: TargetView, files: Seq<PoolFileView>, names: Seq<Text>)
    ensures
        is_announced(duplicate_steps(t, files, names)),
    decreases names.len(),
{
    if names.len() > 0 {
        lemma_duplicates_announced(t, files, names.drop_last());
        lemma_drops_announced(t, outdated(files, names.last()));
        lemma_announced(
            duplicate_steps(t, files, names.drop_last()),
            drop_all(t, outdated(files, names.last())),
        );
    }
}

/// A package is removed only when that was announced.
pub proof fn law_removals_are_announced(h: Host, t: TargetView, debs: Seq<Deb>)
    requires
        can_be_held(debs),
    ensures
        is_announced(after_listing(h, t, debs)),
{
    let files = held(h, t, debs);
    let names = repo_names(files);
    let paths = newest_paths(files, names);
    lemma_after_listing(h, t, debs);
    lemma_duplicates_announced(t, files, names);
    let more = publish_steps(h, t, paths);
    assert forall|i: int| 0 <= i < more.len() implies !((#[trigger] more[i]) is Remove) by {
        lemma_publish_step(h, t, paths, i);
    }
    if t.publish {
        lemma_announced(duplicate_steps(t, files, names), more);
    } else {
        lemma_announced(duplicate_steps(t, files, names), seq![]);
    }
}

/// What is asked to list files, each with the time at which it was modified.
pub open spec fn asks_ages(n: nat) -> Seq<ActionView>
    decreases n,
{
    if n == 0 {
        seq![]
    } else {
        asks_ages((n - 1) as nat) + seq![ActionView::NextEntry, ActionView::EntryModified]
    }
}

proof fn lemma_listing(h: Host, t: TargetView, debs: Seq<Deb>)
    ensures
        goes(
            h,
            seq![StepView::Repo(RepoStepView::OpenPool(t))],
            seq![EventView::Done] + dated_listing(deb_files(debs)),
            seq![
                StepView::Repo(
                    RepoStepView::ScanPool { target: t, found: listed(h, t, deb_files(debs)) },
                ),
            ],
            seq![ActionView::OpenDir(pool_at(h, t))] + asks_ages(debs.len()),
        ),
    decreases debs.len(),
{
    let open = StepView::Repo(RepoStepView::OpenPool(t));
    let todo = seq![open];
    let none = Seq::<StepView>::empty();
    let first = seq![EventView::Done];
    let asked_first = seq![ActionView::OpenDir(pool_at(h, t))];
    if debs.len() == 0 {
        let e0 = Seq::<EventView>::empty();
        let t0 = Seq::<ActionView>::empty();
        lemma_start(h, todo);
        assert(todo =~= seq![open] + none);
        lemma_then(h, todo, e0, open, none, t0, EventView::Done);
        assert(e0.push(EventView::Done) =~= first + dated_listing(deb_files(debs)));
        assert(t0.push(ActionView::OpenDir(pool_at(h, t))) =~= asked_first + asks_ages(0));
        assert(after(h, todo, e0.push(EventView::Done)) =~= seq![
            StepView::Repo(RepoStepView::ScanPool { target: t, found: seq![] }),
        ]);
    } else {
        let init = debs.drop_last();
        let d = debs.last();
        lemma_listing(h, t, init);
        assert(deb_files(debs).drop_last() =~= deb_files(init));
        encode_utf8_valid_utf8(deb_name(d));
        encode_utf8_decode_utf8(deb_name(d));
        let found = listed(h, t, deb_files(init));
        let more = listed(h, t, deb_files(debs));
        let scan = StepView::Repo(RepoStepView::ScanPool { target: t, found });
        let stat = StepView::Repo(
            RepoStepView::StatPool { target: t, file: deb_name(d), found },
        );
        let next = StepView::Repo(RepoStepView::ScanPool { target: t, found: more });
        let e = first + dated_listing(deb_files(init));
        let tr = asked_first + asks_ages(init.len());
        let entry = EventView::Entry(encode_utf8(deb_name(d)));
        assert(seq![scan] =~= seq![scan] + none);
        lemma_then(h, todo, e, scan, none, tr, entry);
        assert(after(h, todo, e.push(entry)) =~= seq![stat] + none);
        let e1 = e.push(entry);
        let tr1 = tr.push(ActionView::NextEntry);
        lemma_then(h, todo, e1, stat, none, tr1, EventView::Seconds(d.mtime));
        let e2 = e1.push(EventView::Seconds(d.mtime));
        assert(after(h, todo, e2) =~= seq![next]);
        assert(e2 =~= first + dated_listing(deb_files(debs)));
        assert(tr1.push(ActionView::EntryModified) =~= asked_first + asks_ages(debs.len()));
    }
}

/// The packages that are dealt with are those that the target's own directory lists, each asked for
/// its age.
pub proof fn law_listing(h: Host, t: TargetView, debs: Seq<Deb>)
    ensures
        goes(
            h,
            seq![StepView::Repo(RepoStepView::OpenPool(t))],
            seq![EventView::Done] + dated_listing(deb_files(debs)) + seq![EventView::End],
            after_listing(h, t, debs),
            seq![ActionView::OpenDir(pool_at(h, t))] + asks_ages(debs.len()) + seq![
                ActionView::NextEntry,
            ],
        ),
{
    let todo = seq![StepView::Repo(RepoStepView::OpenPool(t))];
    let none = Seq::<StepView>::empty();
    let found = listed(h, t, deb_files(debs));
    let scan = StepView::Repo(RepoStepView::ScanPool { target: t, found });
    let e = seq![EventView::Done] + dated_listing(deb_files(debs));
    let tr = seq![ActionView::OpenDir(pool_at(h, t))] + asks_ages(debs.len());
    lemma_listing(h, t, debs);
    assert(seq![scan] =~= seq![scan] + none);
    lemma_then(h, todo, e, scan, none, tr, EventView::End);
    assert(e.push(EventView::End) =~= e + seq![EventView::End]);
    assert(tr.push(ActionView::NextEntry) =~= tr + seq![ActionView::NextEntry]);
}

proof fn lemma_listed_parts(
    h: Host,
    t: TargetView,
    a: Seq<(Seq<u8>, u64)>,
    b: Seq<(Seq<u8>, u64)>,
)
    ensures
        listed(h, t, a + b) == listed(h, t, a) + listed(h, t, b),
    decreases b.len(),
{
    if b.len() == 0 {
        assert(a + b =~= a);
        assert(listed(h, t, a) + listed(h, t, b) =~= listed(h, t, a));
    } else {
        lemma_listed_parts(h, t, a, b.drop_last());
        assert((a + b).drop_last() =~= a + b.drop_last());
        assert(listed(h, t, a + b) =~= listed(h, t, a) + listed(h, t, b));
    }
}

/// A file whose name is not text is passed over: what is done is what is done without it.
pub proof fn law_names_that_are_not_text(
    h: Host,
    t: TargetView,
    a: Seq<(Seq<u8>, u64)>,
    name: Seq<u8>,
    mtime: u64,
    b: Seq<(Seq<u8>, u64)>,
)
    ensures
        decoded(name) is None ==> {
            let todo = seq![StepView::Repo(RepoStepView::OpenPool(t))];
            let with = seq![EventView::Done] + dated_listing(a + seq![(name, mtime)] + b) + seq![
                EventView::End,
            ];
            let without_it = seq![EventView::Done] + dated_listing(a + b) + seq![EventView::End];
            after(h, todo, with) == after(h, todo, without_it)
        },
{
    let todo = seq![StepView::Repo(RepoStepView::OpenPool(t))];
    let none = Seq::<StepView>::empty();
    let one = seq![(name, mtime)];
    assert(todo + none =~= todo);
    law_packages(h, t, none, a + one + b);
    law_packages(h, t, none, a + b);
    lemma_listed_parts(h, t, a + one, b);
    lemma_listed_parts(h, t, a, one);
    lemma_listed_parts(h, t, a, b);
    if decoded(name) is None {
        assert(one.drop_last() =~= seq![]);
        assert(one.last() == (name, mtime));
        assert(listed(h, t, one.drop_last()) =~= seq![]);
        assert(listed(h, t, one) =~= seq![]);
        assert(listed(h, t, a) + seq![] =~= listed(h, t, a));
    }
}

/// A publication removes no single file, and tells of no duplicate and no removal.
proof fn lemma_publish_lines(h: Host, t: TargetView, paths: Seq<Text>, p: Text)
    ensures
        !publish_steps(h, t, paths).contains(StepView::Remove(p)),
        !publish_steps(h, t, paths).contains(StepView::Say("duplicate "@ + p)),
        !publish_steps(h, t, paths).contains(StepView::Say("remove "@ + p)),
{
    reveal_strlit("duplicate ");
    reveal_strlit("remove ");
    reveal_strlit("repo_directory ");
    let line = "repo_directory "@ + path_shown(built_at(h, t));
    assert(line[0] == 'r' && line[2] == 'p');
    assert(("duplicate "@ + p)[0] == 'd');
    assert(("remove "@ + p)[0] == 'r' && ("remove "@ + p)[2] == 'm');
    let steps = publish_steps(h, t, paths);
    assert forall|i: int| 0 <= i < steps.len() implies !(steps[i] is Remove) && (
    steps[i] is Say ==> #[trigger] steps[i] == StepView::Say(line)) by {
        lemma_publish_step(h, t, paths, i);
    }
}

proof fn lemma_publish_step(h: Host, t: TargetView, paths: Seq<Text>, i: int)
    requires
        0 <= i < publish_steps(h, t, paths).len(),
    ensures
        ({
            let s = publish_steps(h, t, paths)[i];
            let line = "repo_directory "@ + path_shown(built_at(h, t));
            &&& !(s is Remove)
            &&& s is Say ==> s == StepView::Say(line)
        }),
{
    let steps = publish_steps(h, t, paths);
    let body = rebuild_steps(h, t, paths);
    let dir = built_at(h, t);
    let c = clear_steps(dir);
    assert(c.len() == 6);
    assert forall|k: int| 0 <= k < 6 implies (#[trigger] c[k] is Guard || c[k] is RemoveTree) by {}
    if i >= 2 {
        let k = i - 2;
        assert(steps[i] == body[k]);
        if 1 <= k < 7 {
            assert(body[k] == c[k - 1]);
        } else if k >= 8 {
            let up = upload_steps(h, t);
            assert(body[k] == up[k - 8]);
            if k >= 9 {
                assert(up[k - 8] == c[k - 9]);
            }
        }
    }
}

/// Where no two package files are of the same name, nothing is dropped: without a publication
/// nothing is left to do once they have been listed.
pub proof fn law_single_packages_stay(h: Host, t: TargetView, debs: Seq<Deb>)
    requires
        can_be_held(debs),
        forall|i: int, j: int|
            0 <= i < debs.len() && 0 <= j < debs.len() && (#[trigger] debs[i]).package == (
            #[trigger] debs[j]).package ==> i == j,
        !t.publish,
    ensures
        after_listing(h, t, debs) == Seq::<StepView>::empty(),
{
    let files = held(h, t, debs);
    lemma_after_listing(h, t, debs);
    lemma_own_paths(h, t, debs);
    let steps = duplicate_steps(t, files, repo_names(files));
    if steps.len() > 0 {
        let x = steps[0];
        assert(steps.contains(x));
        lemma_duplicates(t, files, x);
        let k = choose|k: int|
            0 <= k < files.len() && has_newer(files, files[k]) && drop_steps(
                t,
                (#[trigger] files[k]).path,
            ).contains(x);
        let j = choose|j: int|
            0 <= j < files.len() && files[j].repo == files[k].repo && older(
                files[k],
                #[trigger] files[j],
            );
        assert(debs[j].package == debs[k].package);
        lemma_older_asymmetric(files[k], files[k]);
    }
    assert(after_listing(h, t, debs) =~= Seq::<StepView>::empty());
}

// ---------------------------------------------------------------------------
// The package repository
// ---------------------------------------------------------------------------

/// Whether `paths` are the paths of just the packages without a newer one of the same name, each
/// once.
pub open spec fn are_newest(h: Host, t: TargetView, debs: Seq<Deb>, paths: Seq<Text>) -> bool {
    &&& paths.no_duplicates()
    &&& forall|p: Text| #[trigger]
        paths.contains(p) <==> exists|k: int|
            0 <= k < debs.len() && p == deb_path(h, t, #[trigger] debs[k]) && !is_outdated(
                h,
                t,
                debs,
                k,
            )
}

proof fn lemma_newest(h: Host, t: TargetView, debs: Seq<Deb>)
    requires
        can_be_held(debs),
    ensures
        are_newest(
            h,
            t,
            debs,
            newest_paths(held(h, t, debs), repo_names(held(h, t, debs))),
        ),
{
    let files = held(h, t, debs);
    let names = repo_names(files);
    let paths = newest_paths(files, names);
    lemma_own_paths(h, t, debs);
    lemma_repo_names(files);
    assert forall|n: int| 0 <= n < names.len() implies exists|k: int|
        0 <= k < files.len() && #[trigger] files[k] == by_age(files, #[trigger] names[n]).last()
            && files[k].repo == names[n] by {
        lemma_by_age(files, names[n]);
        assert(names.contains(names[n]));
        let g = by_age(files, names[n]);
        assert(files.contains(g[g.len() - 1]));
        let k = choose|k: int| 0 <= k < files.len() && files[k] == g[g.len() - 1];
        assert(files[k] == g.last() && files[k].repo == names[n]);
    }
    assert forall|a: int, b: int|
        0 <= a < paths.len() && 0 <= b < paths.len() && a != b implies paths[a] != paths[b] by {
        let x = choose|k: int|
            0 <= k < files.len() && #[trigger] files[k] == by_age(files, names[a]).last()
                && files[k].repo == names[a];
        let y = choose|k: int|
            0 <= k < files.len() && #[trigger] files[k] == by_age(files, names[b]).last()
                && files[k].repo == names[b];
        assert(names[a] != names[b]);
        if paths[a] == paths[b] {
            assert(files[x].path == files[y].path);
        }
    }
    assert forall|p: Text| #[trigger] paths.contains(p) <==> exists|k: int|
        0 <= k < debs.len() && p == deb_path(h, t, #[trigger] debs[k]) && !is_outdated(
            h,
            t,
            debs,
            k,
        ) by {
        if paths.contains(p) {
            let n = choose|n: int| 0 <= n < paths.len() && paths[n] == p;
            let k = choose|k: int|
                0 <= k < files.len() && #[trigger] files[k] == by_age(files, names[n]).last()
                    && files[k].repo == names[n];
            lemma_outdated(files, k);
            lemma_held_newer(h, t, debs, k);
            assert(p == deb_path(h, t, debs[k]));
        }
        if exists|k: int|
            0 <= k < debs.len() && p == deb_path(h, t, #[trigger] debs[k]) && !is_outdated(
                h,
                t,
                debs,
                k,
            ) {
            let k = choose|k: int|
                0 <= k < debs.len() && p == deb_path(h, t, #[trigger] debs[k]) && !is_outdated(
                    h,
                    t,
                    debs,
                    k,
                );
            lemma_held_newer(h, t, debs, k);
            lemma_outdated(files, k);
            assert(names.contains(files[k].repo));
            let n = choose|n: int| 0 <= n < names.len() && names[n] == files[k].repo;
            assert(paths[n] == p);
        }
    }
}

/// What a publication is told: whether the directory of the package repository and the program that
/// builds it exist, and which parts of an earlier one are there before and after.
pub struct Found {
    pub directory: bool,
    pub program: bool,
    pub before: (bool, bool, bool),
    pub later: (bool, bool, bool),
}

/// A directory that is there is removed.
pub open spec fn clears_one(path: Text, found: bool) -> Seq<ActionView> {
    seq![ActionView::Exists(path)] + provided(found, seq![ActionView::RemoveTree(path)])
}

/// What is left of an earlier build is removed.
pub open spec fn clears(dir: Text, found: (bool, bool, bool)) -> Seq<ActionView> {
    clears_one(joined_path(dir, "db"@), found.0) + clears_one(joined_path(dir, "dists"@), found.1)
        + clears_one(joined_path(dir, "pool"@), found.2)
}

/// The answers to that.
pub open spec fn clear_replies(found: (bool, bool, bool)) -> Seq<EventView> {
    clear_reply(found.0) + clear_reply(found.1) + clear_reply(found.2)
}

pub open spec fn clear_reply(found: bool) -> Seq<EventView> {
    if found {
        seq![EventView::Answer(true), EventView::Done]
    } else {
        seq![EventView::Answer(false)]
    }
}

/// The package repository is uploaded, and removed here, where there is a program and a place for
/// it.
pub open spec fn uploads(h: Host, t: TargetView, found: Found) -> Seq<ActionView> {
    match (h.config.inner().aws_path, h.config.inner().repo_bucket) {
        (Some(aws), Some(bucket)) => seq![
            to_pipe(
                aws@,
                seq![
                    "s3"@,
                    "sync"@,
                    "--acl"@,
                    "public-read"@,
                    built_at(h, t) + "/"@,
                    "s3://"@ + bucket@ + "/deb/"@ + t.distro + "/"@ + t.dir + "/"@,
                ],
            ),
        ] + clears(built_at(h, t), found.later),
        _ => seq![],
    }
}

/// All that a publication of these packages asks for, in order.
pub open spec fn publishes(
    h: Host,
    t: TargetView,
    paths: Seq<Text>,
    found: Found,
) -> Seq<ActionView> {
    let dir = built_at(h, t);
    let program = h.config.inner().reprepro_path@;
    provided(
        paths.len() > 0,
        seq![ActionView::Exists(dir)] + provided(
            found.directory,
            seq![ActionView::Exists(program)] + provided(
                found.program,
                seq![ActionView::Say("repo_directory "@ + path_shown(dir))] + clears(
                    dir,
                    found.before,
                ) + seq![
                    to_run(program, seq!["-b"@, dir, "includedeb"@, t.distro] + paths),
                ] + uploads(h, t, found),
            ),
        ),
    )
}

/// The answers to that, where both programs succeed.
pub open spec fn publish_replies(h: Host, paths: Seq<Text>, found: Found) -> Seq<EventView> {
    let yes = EventView::Exit(Some(0i32));
    if paths.len() == 0 {
        seq![]
    } else if !found.directory {
        seq![EventView::Answer(false)]
    } else if !found.program {
        seq![EventView::Answer(true), EventView::Answer(false)]
    } else {
        seq![EventView::Answer(true), EventView::Answer(true), EventView::Done] + clear_replies(
            found.before,
        ) + seq![yes] + (if h.config.inner().aws_path is Some && h.config.inner().repo_bucket
            is Some {
            seq![yes] + clear_replies(found.later)
        } else {
            seq![]
        })
    }
}

proof fn lemma_cleared_one(h: Host, dir: Text, name: Text, found: bool, rest: Seq<StepView>)
    ensures
        goes(
            h,
            clear_step(dir, name) + rest,
            clear_reply(found),
            rest,
            clears_one(joined_path(dir, name), found),
        ),
{
    let path = joined_path(dir, name);
    let gone = StepView::RemoveTree(path);
    let todo = clear_step(dir, name) + rest;
    let e0 = Seq::<EventView>::empty();
    let t0 = Seq::<ActionView>::empty();
    lemma_start(h, todo);
    assert(todo =~= seq![StepView::Guard { path, span: 1 }] + (seq![gone] + rest));
    lemma_then_guard(h, todo, e0, path, 1, seq![gone] + rest, t0, found);
    let e1 = e0.push(EventView::Answer(found));
    let t1 = t0.push(ActionView::Exists(path));
    if found {
        lemma_then(h, todo, e1, gone, rest, t1, EventView::Done);
        assert(after(h, todo, e1.push(EventView::Done)) =~= rest);
        assert(e1.push(EventView::Done) =~= clear_reply(found));
        assert(t1.push(ActionView::RemoveTree(path)) =~= clears_one(path, found));
    } else {
        assert(without(seq![gone] + rest, 1) =~= rest);
        assert(e1 =~= clear_reply(found));
        assert(t1 =~= clears_one(path, found));
    }
}

proof fn lemma_cleared(h: Host, dir: Text, found: (bool, bool, bool), rest: Seq<StepView>)
    ensures
        goes(h, clear_steps(dir) + rest, clear_replies(found), rest, clears(dir, found)),
{
    let (a, b, c) = (clear_step(dir, "db"@), clear_step(dir, "dists"@), clear_step(dir, "pool"@));
    let todo = clear_steps(dir) + rest;
    lemma_cleared_one(h, dir, "db"@, found.0, b + (c + rest));
    lemma_cleared_one(h, dir, "dists"@, found.1, c + rest);
    lemma_cleared_one(h, dir, "pool"@, found.2, rest);
    assert(todo =~= a + (b + (c + rest)));
    let (x, y, z) = (
        clears_one(joined_path(dir, "db"@), found.0),
        clears_one(joined_path(dir, "dists"@), found.1),
        clears_one(joined_path(dir, "pool"@), found.2),
    );
    lemma_goes_on(
        h,
        todo,
        clear_reply(found.0),
        b + (c + rest),
        clear_reply(found.1),
        c + rest,
        x,
        y,
    );
    lemma_goes_on(
        h,
        todo,
        clear_reply(found.0) + clear_reply(found.1),
        c + rest,
        clear_reply(found.2),
        rest,
        x + y,
        z,
    );
}

proof fn lemma_step_of(h: Host, s: StepView, rest: Seq<StepView>, e: EventView)
    requires
        answers(s, e),
        !(e is Failed),
        !(s is Guard),
        !(s is Halt),
        expand(h, s, e).len() == 0,
    ensures
        goes(h, seq![s] + rest, seq![e], rest, seq![ask(h, s)]),
{
    let todo = seq![s] + rest;
    let e0 = Seq::<EventView>::empty();
    let t0 = Seq::<ActionView>::empty();
    lemma_start(h, todo);
    lemma_then(h, todo, e0, s, rest, t0, e);
    assert(e0.push(e) =~= seq![e]);
    assert(t0.push(ask(h, s)) =~= seq![ask(h, s)]);
    assert(expand(h, s, e) + rest =~= rest);
}

/// A publication, but for its two questions and its upload.
proof fn lemma_built(
    h: Host,
    t: TargetView,
    paths: Seq<Text>,
    found: (bool, bool, bool),
    rest: Seq<StepView>,
)
    ensures
        goes(
            h,
            rebuild_steps(h, t, paths) + rest,
            seq![EventView::Done] + clear_replies(found) + seq![EventView::Exit(Some(0i32))],
            upload_steps(h, t) + rest,
            seq![ActionView::Say("repo_directory "@ + path_shown(built_at(h, t)))] + clears(
                built_at(h, t),
                found,
            ) + seq![
                to_run(
                    h.config.inner().reprepro_path@,
                    seq!["-b"@, built_at(h, t), "includedeb"@, t.distro] + paths,
                ),
            ],
        ),
{
    let yes = EventView::Exit(Some(0i32));
    let dir = built_at(h, t);
    let body = rebuild_steps(h, t, paths);
    let said = StepView::Say("repo_directory "@ + path_shown(dir));
    let c = clear_steps(dir);
    let build = body[7];
    let more = upload_steps(h, t) + rest;
    let todo = body + rest;
    let s1 = c + (seq![build] + more);
    assert(c.len() == 6);
    assert(todo =~= seq![said] + s1);
    lemma_step_of(h, said, s1, EventView::Done);
    lemma_cleared(h, dir, found, seq![build] + more);
    lemma_step_of(h, build, more, yes);
    let t1 = seq![ask(h, said)];
    let t3 = seq![ask(h, build)];
    let e1 = seq![EventView::Done];
    let e2 = clear_replies(found);
    let t2 = clears(dir, found);
    lemma_goes_on(h, todo, e1, s1, e2, seq![build] + more, t1, t2);
    lemma_goes_on(h, todo, e1 + e2, seq![build] + more, seq![yes], more, t1 + t2, t3);
    assert(ask(h, build) == to_run(
        h.config.inner().reprepro_path@,
        seq!["-b"@, dir, "includedeb"@, t.distro] + paths,
    ));
}

/// The answers to an upload.
spec fn upload_replies(h: Host, found: (bool, bool, bool)) -> Seq<EventView> {
    if h.config.inner().aws_path is Some && h.config.inner().repo_bucket is Some {
        seq![EventView::Exit(Some(0i32))] + clear_replies(found)
    } else {
        seq![]
    }
}

proof fn lemma_uploaded(h: Host, t: TargetView, found: Found, rest: Seq<StepView>)
    ensures
        goes(
            h,
            upload_steps(h, t) + rest,
            upload_replies(h, found.later),
            rest,
            uploads(h, t, found),
        ),
{
    let yes = EventView::Exit(Some(0i32));
    let dir = built_at(h, t);
    let up = upload_steps(h, t);
    let c = clear_steps(dir);
    let todo = up + rest;
    match (h.config.inner().aws_path, h.config.inner().repo_bucket) {
        (Some(aws), Some(bucket)) => {
            let send = up[0];
            assert(todo =~= seq![send] + (c + rest));
            lemma_step_of(h, send, c + rest, yes);
            lemma_cleared(h, dir, found.later, rest);
            lemma_goes_on(
                h,
                todo,
                seq![yes],
                c + rest,
                clear_replies(found.later),
                rest,
                seq![ask(h, send)],
                clears(dir, found.later),
            );
            assert(uploads(h, t, found) =~= seq![ask(h, send)] + clears(dir, found.later));
        },
        _ => {
            assert(todo =~= rest);
            lemma_start(h, todo);
        },
    }
}

proof fn lemma_rebuilt(h: Host, t: TargetView, paths: Seq<Text>, found: Found, rest: Seq<StepView>)
    requires
        paths.len() > 0,
        found.directory,
        found.program,
    ensures
        goes(
            h,
            rebuild_steps(h, t, paths) + rest,
            publish_replies(h, paths, found).skip(2),
            rest,
            publishes(h, t, paths, found).skip(2),
        ),
{
    let yes = EventView::Exit(Some(0i32));
    let dir = built_at(h, t);
    let e1 = seq![EventView::Done] + clear_replies(found.before) + seq![yes];
    let t1 = seq![ActionView::Say("repo_directory "@ + path_shown(dir))] + clears(
        dir,
        found.before,
    ) + seq![
        to_run(h.config.inner().reprepro_path@, seq!["-b"@, dir, "includedeb"@, t.distro] + paths),
    ];
    let e2 = upload_replies(h, found.later);
    let t2 = uploads(h, t, found);
    lemma_built(h, t, paths, found.before, rest);
    lemma_uploaded(h, t, found, rest);
    lemma_goes_on(
        h,
        rebuild_steps(h, t, paths) + rest,
        e1,
        upload_steps(h, t) + rest,
        e2,
        rest,
        t1,
        t2,
    );
    assert(publish_replies(h, paths, found).skip(2) =~= e1 + e2);
    assert(publishes(h, t, paths, found).skip(2) =~= t1 + t2);
}

proof fn lemma_published(
    h: Host,
    t: TargetView,
    paths: Seq<Text>,
    found: Found,
    rest: Seq<StepView>,
)
    ensures
        goes(
            h,
            publish_steps(h, t, paths) + rest,
            publish_replies(h, paths, found),
            rest,
            publishes(h, t, paths, found),
        ),
{
    let steps = publish_steps(h, t, paths);
    let todo = steps + rest;
    let dir = built_at(h, t);
    let program = h.config.inner().reprepro_path@;
    let e0 = Seq::<EventView>::empty();
    let t0 = Seq::<ActionView>::empty();
    lemma_start(h, todo);
    if paths.len() == 0 {
        assert(todo =~= rest);
        assert(publish_replies(h, paths, found) =~= e0);
        assert(publishes(h, t, paths, found) =~= t0);
    } else {
        let body = rebuild_steps(h, t, paths);
        lemma_rebuild_len(h, t, paths);
        let n = body.len() as usize;
        let g1 = StepView::Guard { path: dir, span: (1 + n) as usize };
        let g2 = StepView::Guard { path: program, span: n };
        assert(todo =~= seq![g1] + (seq![g2] + (body + rest)));
        lemma_then_guard(
            h,
            todo,
            e0,
            dir,
            (1 + n) as usize,
            seq![g2] + (body + rest),
            t0,
            found.directory,
        );
        let e1 = e0.push(EventView::Answer(found.directory));
        let t1 = t0.push(ActionView::Exists(dir));
        if !found.directory {
            assert(without(seq![g2] + (body + rest), 1 + n) =~= rest);
            assert(e1 =~= publish_replies(h, paths, found));
            assert(t1 =~= publishes(h, t, paths, found));
        } else {
            lemma_then_guard(h, todo, e1, program, n, body + rest, t1, found.program);
            let e2 = e1.push(EventView::Answer(found.program));
            let t2 = t1.push(ActionView::Exists(program));
            if !found.program {
                assert(without(body + rest, n as int) =~= rest);
                assert(e2 =~= publish_replies(h, paths, found));
                assert(t2 =~= publishes(h, t, paths, found));
            } else {
                lemma_rebuilt(h, t, paths, found, rest);
                let replies = publish_replies(h, paths, found);
                let all = publishes(h, t, paths, found);
                lemma_goes_on(
                    h,
                    todo,
                    e2,
                    body + rest,
                    replies.skip(2),
                    rest,
                    t2,
                    all.skip(2),
                );
                assert(e2 + replies.skip(2) =~= replies);
                assert(t2 + all.skip(2) =~= all);
            }
        }
    }
}

proof fn lemma_rebuild_len(h: Host, t: TargetView, paths: Seq<Text>)
    ensures
        rebuild_steps(h, t, paths).len() <= 15,
{
    assert(clear_steps(built_at(h, t)).len() == 6);
}

proof fn lemma_drops_are_simple(t: TargetView, g: Seq<PoolFileView>)
    ensures
        forall|i: int| 0 <= i < drop_all(t, g).len() ==> is_simple(#[trigger] drop_all(t, g)[i]),
    decreases g.len(),
{
    let all = drop_all(t, g);
    assert forall|i: int| 0 <= i < all.len() implies is_simple(#[trigger] all[i]) by {
        lemma_drop_contains(t, g, all[i]);
        assert(all.contains(all[i]));
        let j = choose|j: int|
            0 <= j < g.len() && drop_steps(t, (#[trigger] g[j]).path).contains(all[i]);
        let s = drop_steps(t, g[j].path);
        let k = choose|k: int| 0 <= k < s.len() && s[k] == all[i];
        assert(is_simple(s[k]));
    }
}

proof fn lemma_duplicates_are_simple(t: TargetView, files: Seq<PoolFileView>, names: Seq<Text>)
    ensures
        forall|i: int|
            0 <= i < duplicate_steps(t, files, names).len() ==> is_simple(
                #[trigger] duplicate_steps(t, files, names)[i],
            ),
{
    let all = duplicate_steps(t, files, names);
    assert forall|i: int| 0 <= i < all.len() implies is_simple(#[trigger] all[i]) by {
        lemma_duplicates_contain(t, files, names, all[i]);
        assert(all.contains(all[i]));
        let n = choose|n: int|
            0 <= n < names.len() && drop_all(t, outdated(files, #[trigger] names[n])).contains(
                all[i],
            );
        let g = drop_all(t, outdated(files, names[n]));
        lemma_drops_are_simple(t, outdated(files, names[n]));
        let k = choose|k: int| 0 <= k < g.len() && g[k] == all[i];
        assert(is_simple(g[k]));
    }
}

/// Where packages are published, the package repository is built from the newest package of each
/// name and from no other, in its own directory and for its own distribution, after what an earlier
/// build left there was removed; and it is uploaded to its own place, where there is one. All this
/// comes after duplicates were dealt with.
pub proof fn law_publication(h: Host, t: TargetView, debs: Seq<Deb>, found: Found)
    requires
        can_be_held(debs),
        t.publish,
    ensures
        exists|n: nat, paths: Seq<Text>, dropped: Seq<ActionView>|
            {
                &&& #[trigger] are_newest(h, t, debs, paths)
                &&& #[trigger] dropped.len() == n
                &&& forall|i: int|
                    0 <= i < n ==> (#[trigger] dropped[i] is Say || dropped[i] is Remove)
                &&& goes(
                    h,
                    after_listing(h, t, debs),
                    #[trigger] dones(n) + publish_replies(h, paths, found),
                    seq![],
                    dropped + publishes(h, t, paths, found),
                )
            },
{
    let files = held(h, t, debs);
    let names = repo_names(files);
    let paths = newest_paths(files, names);
    let dups = duplicate_steps(t, files, names);
    let todo = after_listing(h, t, debs);
    let none = Seq::<StepView>::empty();
    let e0 = Seq::<EventView>::empty();
    let t0 = Seq::<ActionView>::empty();
    lemma_after_listing(h, t, debs);
    lemma_newest(h, t, debs);
    lemma_duplicates_are_simple(t, files, names);
    lemma_start(h, todo);
    let more = publish_steps(h, t, paths);
    assert(todo =~= dups + (more + none));
    lemma_simple(h, todo, e0, t0, dups, more + none);
    let n = dups.len();
    let dropped = dups.map_values(|s: StepView| ask(h, s));
    assert(e0 + dones(n) =~= dones(n));
    assert(t0 + dropped =~= dropped);
    lemma_published(h, t, paths, found, none);
    lemma_goes_on(
        h,
        todo,
        dones(n),
        more + none,
        publish_replies(h, paths, found),
        none,
        dropped,
        publishes(h, t, paths, found),
    );
    assert forall|i: int| 0 <= i < n implies (#[trigger] dropped[i] is Say || dropped[i]
        is Remove) by {
        lemma_dropped_kind(t, files, names, i);
    }
    assert(are_newest(h, t, debs, paths) && dropped.len() == n);
}

proof fn lemma_dropped_kind(t: TargetView, files: Seq<PoolFileView>, names: Seq<Text>, i: int)
    requires
        0 <= i < duplicate_steps(t, files, names).len(),
    ensures
        duplicate_steps(t, files, names)[i] is Say || duplicate_steps(t, files, names)[i] is Remove,
{
    let all = duplicate_steps(t, files, names);
    lemma_duplicates_contain(t, files, names, all[i]);
    assert(all.contains(all[i]));
    let n = choose|n: int|
        0 <= n < names.len() && drop_all(t, outdated(files, #[trigger] names[n])).contains(all[i]);
    lemma_drop_contains(t, outdated(files, names[n]), all[i]);
    let o = outdated(files, names[n]);
    let j = choose|j: int|
        0 <= j < o.len() && drop_steps(t, (#[trigger] o[j]).path).contains(all[i]);
    let s = drop_steps(t, o[j].path);
    let k = choose|k: int| 0 <= k < s.len() && s[k] == all[i];
    assert(s[k] is Say || s[k] is Remove);
}

/// A build of a package repository that fails is told, and ends the whole check without an error:
/// nothing is uploaded. An upload that fails is told, and is an error. A program that ends without
/// an exit code is an error.
pub proof fn law_publication_failures(
    h: Host,
    t: TargetView,
    paths: Seq<Text>,
    i: int,
    code: i32,
)
    requires
        code != 0,
        0 <= i < publish_steps(h, t, paths).len(),
    ensures
        ({
            let s = publish_steps(h, t, paths)[i];
            let e = EventView::Exit(Some(code));
            let build = "reprepro failed with "@ + decimal(code as int);
            let upload = "aws sync"@ + " failed with "@ + decimal(code as int);
            &&& s is Run ==> expand(h, s, e) == seq![StepView::Say(build), StepView::Halt(None)]
            &&& s is Run ==> expand(h, s, EventView::Exit(None)) == seq![
                StepView::Halt(Some("No status code 1"@)),
            ]
            &&& s is Pipe ==> expand(h, s, e) == seq![
                StepView::Say(upload),
                StepView::Halt(Some(upload)),
            ]
            &&& s is Pipe ==> expand(h, s, EventView::Exit(None)) == seq![
                StepView::Halt(Some("No status code 0 "@ + "aws sync"@)),
            ]
        }),
{
    let steps = publish_steps(h, t, paths);
    let body = rebuild_steps(h, t, paths);
    let dir = built_at(h, t);
    let c = clear_steps(dir);
    let e = EventView::Exit(Some(code));
    let build = "reprepro failed with "@ + decimal(code as int);
    let upload = "aws sync"@ + " failed with "@ + decimal(code as int);
    assert(c.len() == 6);
    assert forall|k: int| 0 <= k < 6 implies (#[trigger] c[k] is Guard || c[k] is RemoveTree) by {}
    if i >= 2 {
        let k = i - 2;
        assert(steps[i] == body[k]);
        if 1 <= k < 7 {
            assert(body[k] == c[k - 1]);
        } else if k == 7 {
            assert(expand(h, body[7], e) =~= seq![StepView::Say(build), StepView::Halt(None)]);
        } else if k >= 8 {
            let up = upload_steps(h, t);
            assert(body[k] == up[k - 8]);
            if k >= 9 {
                assert(up[k - 8] == c[k - 9]);
            } else {
                assert(expand(h, up[0], e) =~= seq![
                    StepView::Say(upload),
                    StepView::Halt(Some(upload)),
                ]);
            }
        }
    }
}

} // verus!
