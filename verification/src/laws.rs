//! What holds of whole runs of the scripts, whatever the outside world answers.

use vstd::prelude::*;

use crate::action::{ActionView, CommandView, EventView};
use crate::git::{git, git_directory_steps};
use crate::host::Host;
use crate::number::decimal;
use crate::outside::{decoded, path_shown, utc_date_text};
use crate::passwords::is_token;
use crate::packages::{
    build_dir, check_repo_steps, clear_step, clear_steps, deb_steps, drop_all, drop_steps,
    duplicate_steps, enter_all, enter_dirs, log_steps, log_tail, move_steps, newest_paths, outdated,
    pool_steps, publish_steps, rebuild_steps, repo_expand, repo_names, upload_steps,
};
use crate::path::joined_path;
use crate::program::{command, failure_steps, pipe_step, run_step, telegram_step};
use crate::refresh::{
    backup, basic_steps, full_steps, keeps_databases, restore, restore_steps,
};
use crate::script::{
    accepts, advance, after, answers, expand, finished, next_action, possible,
};
use crate::search::{occurs, starts_with};
use crate::step::{
    say_all, EditView, FailureView, PasswordStepView, PoolFileView, PurposeView, RepoStepView,
    StepView, TargetView,
};
use crate::text::{texts, Text};
use crate::vault::{
    can_be_steps, current_file, dated_file, decrypt_command, decrypt_step, decrypt_steps,
    edit_command, edit_step, encrypt_command, encrypt_step, failure_with_cleanup, file_steps,
    plain_path, purpose_steps, ShowPasswordOpts, TOKEN_LENGTH,
};

verus! {

// ---------------------------------------------------------------------------
// All scripts
// ---------------------------------------------------------------------------

/// A script that is finished asks for nothing, and no answer is taken.
pub proof fn law_finished_is_final(h: Host, todo: Seq<StepView>, e: EventView)
    requires
        finished(todo),
    ensures
        next_action(h, todo) is Finish,
        !accepts(todo, e),
{
}

/// A script asks to be ended only when it is finished.
pub proof fn law_finish_means_finished(h: Host, todo: Seq<StepView>)
    requires
        next_action(h, todo) is Finish,
    ensures
        finished(todo),
{
}

/// What could not be done ends the script, which has failed with that message.
pub proof fn law_failure_ends(h: Host, todo: Seq<StepView>, message: Text)
    requires
        !finished(todo),
    ensures
        accepts(todo, EventView::Failed(message)),
        next_action(h, advance(h, todo, EventView::Failed(message))) == ActionView::Finish(
            Some(message),
        ),
{
}

/// A program whose output is passed on and that fails is told of, and ends the script.
pub proof fn law_failed_pipe_ends(
    h: Host,
    command: CommandView,
    label: Text,
    rest: Seq<StepView>,
    code: i32,
)
    requires
        code != 0,
    ensures
        ({
            let message = label + " failed with "@ + decimal(code as int);
            let told = advance(
                h,
                seq![pipe_step(command, label)] + rest,
                EventView::Exit(Some(code)),
            );
            &&& next_action(h, told) == ActionView::Say(message)
            &&& next_action(h, advance(h, told, EventView::Done)) == ActionView::Finish(
                Some(message),
            )
        }),
{
    let todo = seq![pipe_step(command, label)] + rest;
    let message = label + " failed with "@ + decimal(code as int);
    assert(todo[0] == pipe_step(command, label));
    assert(todo.skip(1) =~= rest);
    let told = advance(h, todo, EventView::Exit(Some(code)));
    assert(told =~= seq![StepView::Say(message), StepView::Halt(Some(message))] + rest);
    assert(told.skip(1) =~= seq![StepView::Halt(Some(message))] + rest);
    let end = advance(h, told, EventView::Done);
    assert(end =~= seq![StepView::Halt(Some(message))] + rest);
}

/// A program that succeeds is followed by the next step.
pub proof fn law_success_goes_on(
    h: Host,
    command: CommandView,
    on_failure: FailureView,
    rest: Seq<StepView>,
)
    ensures
        advance(h, seq![run_step(command, on_failure)] + rest, EventView::Exit(Some(0i32))) == rest,
{
    let todo = seq![run_step(command, on_failure)] + rest;
    assert(todo[0] == run_step(command, on_failure));
    assert(todo.skip(1) =~= rest);
    assert(advance(h, todo, EventView::Exit(Some(0i32))) =~= rest);
}

/// Steps that are guarded by a path are taken where it exists, and all left out where not.
pub proof fn law_guard(h: Host, path: Text, body: Seq<StepView>, rest: Seq<StepView>)
    requires
        body.len() <= usize::MAX,
    ensures
        ({
            let todo = seq![StepView::Guard { path, span: body.len() as usize }] + body + rest;
            &&& next_action(h, todo) == ActionView::Exists(path)
            &&& advance(h, todo, EventView::Answer(true)) == body + rest
            &&& advance(h, todo, EventView::Answer(false)) == rest
        }),
{
    let guard = StepView::Guard { path, span: body.len() as usize };
    let todo = seq![guard] + body + rest;
    assert(todo[0] == guard);
    assert(advance(h, todo, EventView::Answer(true)) =~= body + rest);
    assert(advance(h, todo, EventView::Answer(false)) =~= rest);
}

/// Whether all steps that one of these answers calls for have a property that the step had.
pub open spec fn keeps(h: Host, p: spec_fn(StepView) -> bool, all: Seq<EventView>) -> bool {
    &&& forall|m: Text| #[trigger] p(StepView::Halt(Some(m)))
    &&& forall|s: StepView, e: EventView, i: int|
        p(s) && all.contains(e) && answers(s, e) && 0 <= i < expand(h, s, e).len() ==> p(
            #[trigger] expand(h, s, e)[i],
        )
}

/// What all steps of a script have stays so in a run with these answers.
pub proof fn lemma_kept(
    h: Host,
    p: spec_fn(StepView) -> bool,
    all: Seq<EventView>,
    todo: Seq<StepView>,
    events: Seq<EventView>,
)
    requires
        keeps(h, p, all),
        forall|i: int| 0 <= i < events.len() ==> all.contains(#[trigger] events[i]),
        possible(h, todo, events),
        forall|i: int| 0 <= i < todo.len() ==> p(#[trigger] todo[i]),
    ensures
        forall|i: int|
            0 <= i < after(h, todo, events).len() ==> p(#[trigger] after(h, todo, events)[i]),
    decreases events.len(),
{
    if events.len() > 0 {
        let init = events.drop_last();
        let e = events.last();
        assert forall|i: int| 0 <= i < init.len() implies all.contains(#[trigger] init[i]) by {
            assert(init[i] == events[i]);
        }
        assert(all.contains(events[events.len() - 1]));
        lemma_kept(h, p, all, todo, init);
        let now = after(h, todo, init);
        let next = advance(h, now, e);
        assert(p(now[0]));
        assert forall|i: int| 0 <= i < next.len() implies p(#[trigger] next[i]) by {
            match (now[0], e) {
                (_, EventView::Failed(m)) => {
                    assert(p(StepView::Halt(Some(m))));
                },
                (StepView::Guard { span, .. }, EventView::Answer(false)) => {
                    assert(next[i] == now[i + 1 + span]);
                },
                _ => {
                    let more = expand(h, now[0], e);
                    if i < more.len() {
                        assert(next[i] == more[i]);
                        assert(p(expand(h, now[0], e)[i]));
                    } else {
                        assert(next[i] == now[i - more.len() + 1]);
                    }
                },
            }
        }
    }
}

// ---------------------------------------------------------------------------
// The check of the package directories
// ---------------------------------------------------------------------------

/// Whether a step of the check keeps to what was allowed.
spec fn repo_within(s: RepoStepView, cleanup: bool, publish: bool) -> bool {
    match s {
        RepoStepView::Enter(t) => allowed(t, cleanup, publish),
        RepoStepView::Devel(t) => allowed(t, cleanup, publish),
        RepoStepView::OpenDevel(t) => allowed(t, cleanup, publish),
        RepoStepView::OpenPool(t) => allowed(t, cleanup, publish),
        RepoStepView::ScanDevel { target, .. } => allowed(target, cleanup, publish),
        RepoStepView::ScanPool { target, .. } => allowed(target, cleanup, publish),
        RepoStepView::StatPool { target, .. } => allowed(target, cleanup, publish),
        RepoStepView::ShowLog { cleanup: c, .. } => c ==> cleanup,
        RepoStepView::DropLog { .. } => cleanup,
    }
}

spec fn allowed(t: TargetView, cleanup: bool, publish: bool) -> bool {
    t.cleanup == cleanup && t.publish == publish
}

/// Whether a step keeps to what was allowed: files are moved and removed only for the sake of a
/// cleanup, programs run and directories removed only for the sake of a publication.
spec fn within(s: StepView, cleanup: bool, publish: bool, all: Seq<EventView>) -> bool {
    match s {
        StepView::Guard { .. } | StepView::Halt(_) => true,
        StepView::Say(line) => may_be_said(line, cleanup, publish, all),
        StepView::Rename { .. } | StepView::Remove(_) => cleanup,
        StepView::RemoveTree(_) => publish,
        StepView::Run { on_failure, .. } => publish && only_told(on_failure),
        StepView::Pipe { on_failure, .. } => publish && only_told(on_failure),
        StepView::Repo(s) => repo_within(s, cleanup, publish),
        _ => false,
    }
}

/// Whether all that is done about a failure is to say that the build or the upload failed.
spec fn only_told(on_failure: Option<FailureView>) -> bool {
    on_failure matches Some(f) ==> f.cleanup is None && f.notice is Say && (f.prefix
        == "reprepro failed with "@ || f.prefix == "aws sync"@ + " failed with "@)
}

/// Whether a line is one of the last lines of a text that one of these answers gave.
pub open spec fn is_log_line(line: Text, all: Seq<EventView>) -> bool {
    exists|i: int|
        0 <= i < all.len() && (#[trigger] all[i] matches EventView::Text(text) && log_tail(
            text,
        ).contains(line))
}

/// Whether a line is a message of the check: about a new package, a directory or a duplicate; about
/// a removal, for the sake of a cleanup; or about the package repository, for the sake of a
/// publication.
pub open spec fn is_message(line: Text, cleanup: bool, publish: bool) -> bool {
    ||| exists|rest: Text| line == #[trigger] ("devel "@ + rest)
    ||| exists|rest: Text| line == #[trigger] ("distro_deb directory "@ + rest)
    ||| exists|rest: Text| line == #[trigger] ("duplicate "@ + rest)
    ||| cleanup && exists|rest: Text| line == #[trigger] ("remove "@ + rest)
    ||| publish && exists|rest: Text| line == #[trigger] ("repo_directory "@ + rest)
    ||| publish && exists|rest: Text| line == #[trigger] ("reprepro failed with "@ + rest)
    ||| publish && exists|rest: Text| line == #[trigger] ("aws sync"@ + " failed with "@ + rest)
}

/// Whether the check may say a line: it is one of its messages, or stands in a build log.
pub open spec fn may_be_said(
    line: Text,
    cleanup: bool,
    publish: bool,
    all: Seq<EventView>,
) -> bool {
    is_message(line, cleanup, publish) || is_log_line(line, all)
}

spec fn all_within(
    steps: Seq<StepView>,
    cleanup: bool,
    publish: bool,
    all: Seq<EventView>,
) -> bool {
    forall|i: int| 0 <= i < steps.len() ==> within(#[trigger] steps[i], cleanup, publish, all)
}

proof fn lemma_devel_within(
    h: Host,
    t: TargetView,
    names: Seq<Seq<u8>>,
    all: Seq<EventView>,
)
    ensures
        all_within(log_steps(h, t, names), t.cleanup, t.publish, all),
        all_within(deb_steps(h, t, names), t.cleanup, t.publish, all),
    decreases names.len(),
{
    if names.len() > 0 {
        lemma_devel_within(h, t, names.drop_last(), all);
        match decoded(names.last()) {
            Some(name) => {
                assert(all_within(move_steps(h, t, name), t.cleanup, t.publish, all));
            },
            None => {},
        }
    }
}

proof fn lemma_drop_within(
    t: TargetView,
    g: Seq<PoolFileView>,
    all: Seq<EventView>,
)
    ensures
        all_within(drop_all(t, g), t.cleanup, t.publish, all),
    decreases g.len(),
{
    if g.len() > 0 {
        lemma_drop_within(t, g.drop_last(), all);
        assert(all_within(drop_steps(t, g.last().path), t.cleanup, t.publish, all));
    }
}

proof fn lemma_duplicates_within(
    t: TargetView,
    files: Seq<PoolFileView>,
    names: Seq<Text>,
    all: Seq<EventView>,
)
    ensures
        all_within(duplicate_steps(t, files, names), t.cleanup, t.publish, all),
    decreases names.len(),
{
    if names.len() > 0 {
        lemma_duplicates_within(t, files, names.drop_last(), all);
        lemma_drop_within(t, outdated(files, names.last()), all);
    }
}

proof fn lemma_pool_within(
    h: Host,
    t: TargetView,
    files: Seq<PoolFileView>,
    all: Seq<EventView>,
)
    ensures
        all_within(pool_steps(h, t, files), t.cleanup, t.publish, all),
{
    lemma_duplicates_within(t, files, repo_names(files), all);
    if t.publish {
        let debs = newest_paths(files, repo_names(files));
        let dir = build_dir(h, t);
        assert(all_within(clear_step(dir, "db"@), t.cleanup, t.publish, all));
        assert(all_within(clear_step(dir, "dists"@), t.cleanup, t.publish, all));
        assert(all_within(clear_step(dir, "pool"@), t.cleanup, t.publish, all));
        assert(all_within(clear_steps(dir), t.cleanup, t.publish, all));
        assert(all_within(upload_steps(h, t), t.cleanup, t.publish, all));
        assert(all_within(rebuild_steps(h, t, debs), t.cleanup, t.publish, all));
        assert(all_within(publish_steps(h, t, debs), t.cleanup, t.publish, all));
    }
}

proof fn lemma_repo_within(
    h: Host,
    s: RepoStepView,
    e: EventView,
    cleanup: bool,
    publish: bool,
    all: Seq<EventView>,
)
    requires
        repo_within(s, cleanup, publish),
        all.contains(e),
    ensures
        all_within(repo_expand(h, s, e), cleanup, publish, all),
{
    match (s, e) {
        (RepoStepView::ScanDevel { target, seen }, EventView::End) => {
            lemma_devel_within(h, target, seen, all);
        },
        (RepoStepView::ScanPool { target, found }, EventView::End) => {
            lemma_pool_within(h, target, found, all);
        },
        (RepoStepView::Devel(t), EventView::Answer(_)) => {
            let line = "distro_deb directory "@ + t.distro;
            assert(is_message(line, cleanup, publish));
        },
        (RepoStepView::ShowLog { .. }, EventView::Text(text)) => {
            let k = choose|k: int| 0 <= k < all.len() && all[k] == e;
            let said = say_all(log_tail(text));
            assert forall|i: int| 0 <= i < said.len() implies within(
                #[trigger] said[i],
                cleanup,
                publish,
                all,
            ) by {
                assert(log_tail(text).contains(log_tail(text)[i]));
                assert(all[k] == EventView::Text(text));
                assert(is_log_line(log_tail(text)[i], all));
            }
        },
        _ => {},
    }
}

proof fn lemma_told(f: FailureView, code: Option<i32>, cleanup: bool, all: Seq<EventView>)
    requires
        only_told(Some(f)),
    ensures
        all_within(failure_steps(Some(f), code), cleanup, true, all),
{
    match code {
        Some(c) => {
            let line = f.prefix + decimal(c as int);
            assert(is_message(line, cleanup, true));
        },
        None => {},
    }
}

proof fn lemma_check_keeps(h: Host, cleanup: bool, publish: bool, all: Seq<EventView>)
    ensures
        keeps(h, |s: StepView| within(s, cleanup, publish, all), all),
{
    let p = |s: StepView| within(s, cleanup, publish, all);
    assert forall|s: StepView, e: EventView, i: int|
        p(s) && all.contains(e) && answers(s, e) && 0 <= i < expand(h, s, e).len() implies p(
        #[trigger] expand(h, s, e)[i],
    ) by {
        match (s, e) {
            (StepView::Repo(r), _) => {
                lemma_repo_within(h, r, e, cleanup, publish, all);
            },
            (StepView::Run { on_failure: Some(f), .. }, EventView::Exit(code)) => {
                lemma_told(f, code, cleanup, all);
            },
            (StepView::Pipe { on_failure: Some(f), .. }, EventView::Exit(code)) => {
                lemma_told(f, code, cleanup, all);
            },
            _ => {},
        }
    }
}

proof fn lemma_enter_within(
    distros: Seq<Text>,
    dirs: Seq<Text>,
    cleanup: bool,
    publish: bool,
    all: Seq<EventView>,
)
    ensures
        all_within(enter_all(distros, dirs, cleanup, publish), cleanup, publish, all),
    decreases distros.len(),
{
    if distros.len() > 0 {
        lemma_enter_within(distros.drop_last(), dirs, cleanup, publish, all);
        assert(all_within(
            enter_dirs(distros.last(), dirs, cleanup, publish),
            cleanup,
            publish,
            all,
        ));
    }
}

/// What a check asks for next keeps to what was allowed.
proof fn lemma_check_within(
    h: Host,
    cleanup: bool,
    publish: bool,
    events: Seq<EventView>,
)
    requires
        possible(h, check_repo_steps(h, cleanup, publish), events),
    ensures
        ({
            let now = after(h, check_repo_steps(h, cleanup, publish), events);
            now.len() > 0 ==> within(now[0], cleanup, publish, events)
        }),
{
    let p = |s: StepView| within(s, cleanup, publish, events);
    let todo = check_repo_steps(h, cleanup, publish);
    lemma_check_keeps(h, cleanup, publish, events);
    lemma_enter_within(
        texts(h.config.inner().distros@),
        texts(h.config.inner().repo_directories@),
        cleanup,
        publish,
        events,
    );
    assert forall|i: int| 0 <= i < todo.len() implies p(#[trigger] todo[i]) by {}
    lemma_kept(h, p, events, todo, events);
    let now = after(h, todo, events);
    if now.len() > 0 {
        assert(p(now[0]));
    }
}

/// All that a check asks for: it looks at files, and says lines; for the sake of a cleanup it moves
/// and removes files; for the sake of a publication it runs programs and removes directories.
pub open spec fn check_may_ask(asked: ActionView, cleanup: bool, publish: bool) -> bool {
    match asked {
        ActionView::Say(_) | ActionView::Exists(_) | ActionView::OpenDir(_) => true,
        ActionView::NextEntry | ActionView::EntryModified | ActionView::ReadEntry { .. } => true,
        ActionView::Finish(_) => true,
        ActionView::Rename { .. } | ActionView::Remove(_) | ActionView::RemoveEntry { .. } => {
            cleanup
        },
        ActionView::Status(_) | ActionView::Pipe(_) | ActionView::RemoveTree(_) => publish,
        _ => false,
    }
}

/// A check asks for nothing beyond what it may ask for.
pub proof fn law_check_keeps_to_leave(
    h: Host,
    cleanup: bool,
    publish: bool,
    events: Seq<EventView>,
)
    requires
        possible(h, check_repo_steps(h, cleanup, publish), events),
    ensures
        check_may_ask(
            next_action(h, after(h, check_repo_steps(h, cleanup, publish), events)),
            cleanup,
            publish,
        ),
{
    lemma_check_within(h, cleanup, publish, events);
}

/// All that a check says is one of its messages, or a line of a build log that it has read.
pub proof fn law_check_messages(
    h: Host,
    cleanup: bool,
    publish: bool,
    events: Seq<EventView>,
    line: Text,
)
    requires
        possible(h, check_repo_steps(h, cleanup, publish), events),
        next_action(h, after(h, check_repo_steps(h, cleanup, publish), events))
            == ActionView::Say(line),
    ensures
        may_be_said(line, cleanup, publish, events),
{
    lemma_check_within(h, cleanup, publish, events);
}

/// Without a cleanup no message tells of a removal, without a publication none of the package
/// repository.
proof fn lemma_messages(line: Text, cleanup: bool, publish: bool)
    requires
        is_message(line, cleanup, publish),
    ensures
        !cleanup ==> !starts_with(line, "remove "@),
        !publish ==> !starts_with(line, "repo_directory "@),
{
    reveal_strlit("devel ");
    reveal_strlit("distro_deb directory ");
    reveal_strlit("duplicate ");
    reveal_strlit("remove ");
    reveal_strlit("repo_directory ");
    reveal_strlit("reprepro failed with ");
    reveal_strlit("aws sync");
    if starts_with(line, "remove "@) {
        assert(line.subrange(0, 7)[0] == 'r' && line.subrange(0, 7)[2] == 'm');
    }
    if starts_with(line, "repo_directory "@) {
        assert(line.subrange(0, 15)[0] == 'r' && line.subrange(0, 15)[2] == 'p');
    }
}

/// Without a cleanup the check never asks to move or to remove a file, nor to bring repositories up
/// to date; and it says of no file that it is removed, but where a build log says so.
pub proof fn law_check_without_cleanup(h: Host, publish: bool, events: Seq<EventView>)
    requires
        possible(h, check_repo_steps(h, false, publish), events),
    ensures
        ({
            let asked = next_action(h, after(h, check_repo_steps(h, false, publish), events));
            &&& !(asked is Rename)
            &&& !(asked is Remove)
            &&& !(asked is RemoveEntry)
            &&& !(asked is UpdateRepos)
            &&& asked matches ActionView::Say(line) ==> is_log_line(line, events) || !starts_with(
                line,
                "remove "@,
            )
        }),
{
    lemma_check_within(h, false, publish, events);
    let asked = next_action(h, after(h, check_repo_steps(h, false, publish), events));
    match asked {
        ActionView::Say(line) => {
            if !is_log_line(line, events) {
                lemma_messages(line, false, publish);
            }
        },
        _ => {},
    }
}

/// Without a publication the check never asks to run a program, to remove a directory or to bring
/// repositories up to date; and it tells of no package repository, but where a build log does.
pub proof fn law_check_without_publication(h: Host, cleanup: bool, events: Seq<EventView>)
    requires
        possible(h, check_repo_steps(h, cleanup, false), events),
    ensures
        ({
            let asked = next_action(h, after(h, check_repo_steps(h, cleanup, false), events));
            &&& !(asked is Status)
            &&& !(asked is Pipe)
            &&& !(asked is Output)
            &&& !(asked is Spawn)
            &&& !(asked is RemoveTree)
            &&& !(asked is UpdateRepos)
            &&& asked matches ActionView::Say(line) ==> is_log_line(line, events) || !starts_with(
                line,
                "repo_directory "@,
            )
        }),
{
    lemma_check_within(h, cleanup, false, events);
    let asked = next_action(h, after(h, check_repo_steps(h, cleanup, false), events));
    match asked {
        ActionView::Say(line) => {
            if !is_log_line(line, events) {
                lemma_messages(line, cleanup, false);
            }
        },
        _ => {},
    }
}

// ---------------------------------------------------------------------------
// Passwords
// ---------------------------------------------------------------------------

/// Whether a step runs one of the programs that work with the decrypted passwords in `plain`.
spec fn own_program(h: Host, s: StepView, plain: Text) -> bool {
    ||| exists|file: Text| s == #[trigger] decrypt_step(file, plain)
    ||| s == edit_step(plain)
    ||| exists|edit: EditView, file: Text| s == #[trigger] encrypt_step(edit, plain, file)
    ||| exists|line: Text| s == #[trigger] telegram_step(h, line, "No status code 12"@)
}

/// Whether a step works with the decrypted passwords in `plain`, and ends the script only in
/// failure.
spec fn own(h: Host, s: StepView, plain: Text) -> bool {
    match s {
        StepView::Say(_) => true,
        StepView::Remove(path) => path == plain,
        StepView::Halt(outcome) => outcome is Some,
        StepView::Run { .. } => own_program(h, s, plain),
        StepView::Password(p) => match p {
            PasswordStepView::ShowAll { plain: x } => x == plain,
            PasswordStepView::OpenPlain { plain: x } => x == plain,
            PasswordStepView::Search { .. } => true,
            PasswordStepView::HashBefore { plain: x, .. } => x == plain,
            PasswordStepView::HashAfter { plain: x, .. } => x == plain,
            PasswordStepView::Encrypt { plain: x, .. } => x == plain,
            _ => false,
        },
        _ => false,
    }
}

spec fn all_own(h: Host, steps: Seq<StepView>, plain: Text) -> bool {
    forall|i: int| 0 <= i < steps.len() ==> own(h, #[trigger] steps[i], plain)
}

/// Whether the script has failed.
spec fn failed(todo: Seq<StepView>) -> bool {
    todo.len() > 0 && (todo[0] matches StepView::Halt(outcome) && outcome is Some)
}

/// Whether the password file is still looked for, to be decrypted to `plain`.
spec fn looked_for(todo: Seq<StepView>, plain: Text) -> bool {
    todo.len() == 1 && (todo[0] matches StepView::Password(p) && match p {
        PasswordStepView::Given { plain: x, .. } => x == plain,
        PasswordStepView::OpenList { plain: x, .. } => x == plain,
        PasswordStepView::Scan { plain: x, .. } => x == plain,
        _ => false,
    })
}

/// Whether what was decrypted is in use: its removal is the last step.
spec fn in_use(h: Host, todo: Seq<StepView>, plain: Text) -> bool {
    todo.len() > 0 && todo.last() == StepView::Remove(plain) && all_own(
        h,
        todo.drop_last(),
        plain,
    )
}

spec fn under_way(h: Host, todo: Seq<StepView>, plain: Text) -> bool {
    looked_for(todo, plain) || in_use(h, todo, plain) || failed(todo)
}

proof fn lemma_own(h: Host, s: StepView, e: EventView, plain: Text)
    requires
        own(h, s, plain),
        answers(s, e),
    ensures
        all_own(h, expand(h, s, e), plain),
{
    match s {
        StepView::Password(PasswordStepView::Search { query, send }) => {
            match e {
                EventView::Text(line) => {
                    assert(own_program(
                        h,
                        telegram_step(h, line, "No status code 12"@),
                        plain,
                    ));
                },
                _ => {},
            }
        },
        StepView::Password(PasswordStepView::HashBefore { edit, .. }) => {
            assert(own_program(h, edit_step(plain), plain));
        },
        StepView::Password(PasswordStepView::HashAfter { edit, .. }) => {
            match edit.output {
                Some(file) => {
                    assert(own_program(h, encrypt_step(edit, plain, file), plain));
                },
                None => {},
            }
        },
        StepView::Password(PasswordStepView::Encrypt { edit, .. }) => {
            match e {
                EventView::Clock(t) => {
                    let file = dated_file(h, utc_date_text(t));
                    assert(own_program(h, encrypt_step(edit, plain, file), plain));
                },
                _ => {},
            }
        },
        _ => {},
    }
}

proof fn lemma_decrypt_in_use(h: Host, file: Text, plain: Text, purpose: PurposeView)
    ensures
        in_use(h, decrypt_steps(file, plain, purpose), plain),
{
    let steps = decrypt_steps(file, plain, purpose);
    let body = steps.drop_last();
    assert(own_program(h, decrypt_step(file, plain), plain));
    assert(all_own(h, purpose_steps(plain, purpose), plain));
    assert(body =~= seq![
        StepView::Say("current_password_file "@ + path_shown(file)),
        decrypt_step(file, plain),
    ] + purpose_steps(plain, purpose));
}

/// An answer leads on, or what was decrypted has just been removed and nothing is left to do.
proof fn lemma_under_way(h: Host, todo: Seq<StepView>, plain: Text, e: EventView)
    requires
        under_way(h, todo, plain),
        accepts(todo, e),
    ensures
        under_way(h, advance(h, todo, e), plain) || (next_action(h, todo) == ActionView::Remove(
            plain,
        ) && advance(h, todo, e).len() == 0),
{
    let next = advance(h, todo, e);
    if e is Failed {
        assert(failed(next));
    } else if looked_for(todo, plain) {
        assert(todo.skip(1) =~= Seq::<StepView>::empty());
        let more = expand(h, todo[0], e);
        assert(next =~= more);
        match (todo[0]->Password_0, e) {
            (PasswordStepView::Given { path, purpose, .. }, EventView::Answer(true)) => {
                lemma_decrypt_in_use(h, path, plain, purpose);
            },
            (PasswordStepView::Scan { purpose, seen, .. }, EventView::End) => {
                match current_file(seen) {
                    Some(file) => {
                        lemma_decrypt_in_use(
                            h,
                            joined_path(h.config.inner().password_directory@, file),
                            plain,
                            purpose,
                        );
                    },
                    None => {},
                }
            },
            _ => {},
        }
    } else if todo.len() == 1 {
        assert(next =~= Seq::<StepView>::empty());
    } else {
        let body = todo.drop_last();
        assert(body[0] == todo[0]);
        assert(own(h, todo[0], plain));
        lemma_own(h, todo[0], e, plain);
        let more = expand(h, todo[0], e);
        assert(next =~= more + todo.skip(1));
        assert(next.last() == todo.last());
        assert forall|i: int| 0 <= i < next.drop_last().len() implies own(
            h,
            #[trigger] next.drop_last()[i],
            plain,
        ) by {
            if i < more.len() {
                assert(next[i] == more[i]);
            } else {
                assert(next[i] == body[i - more.len() + 1]);
            }
        }
    }
}

proof fn lemma_removed(h: Host, todo: Seq<StepView>, plain: Text, events: Seq<EventView>)
    requires
        under_way(h, todo, plain),
        possible(h, todo, events),
    ensures
        under_way(h, after(h, todo, events), plain) || (events.len() > 0 && after(
            h,
            todo,
            events,
        ).len() == 0 && next_action(h, after(h, todo, events.drop_last())) == ActionView::Remove(
            plain,
        )),
    decreases events.len(),
{
    if events.len() > 0 {
        let init = events.drop_last();
        lemma_removed(h, todo, plain, init);
        lemma_under_way(h, after(h, todo, init), plain, events.last());
    }
}

proof fn lemma_not_finished(h: Host, todo: Seq<StepView>, plain: Text)
    requires
        under_way(h, todo, plain),
    ensures
        next_action(h, todo) != ActionView::Finish(None),
{
    if in_use(h, todo, plain) && !failed(todo) {
        if todo.len() == 1 {
            assert(todo[0] == todo.last());
        } else {
            assert(own(h, todo.drop_last()[0], plain));
        }
    }
}

/// A password file that is decrypted is removed again: it is the last thing that is done before
/// the script has succeeded.
pub proof fn law_decrypted_file_is_removed(
    h: Host,
    file: Text,
    plain: Text,
    purpose: PurposeView,
    events: Seq<EventView>,
)
    requires
        possible(h, decrypt_steps(file, plain, purpose), events),
        next_action(h, after(h, decrypt_steps(file, plain, purpose), events))
            == ActionView::Finish(None),
    ensures
        events.len() > 0,
        next_action(h, after(h, decrypt_steps(file, plain, purpose), events.drop_last()))
            == ActionView::Remove(plain),
{
    let todo = decrypt_steps(file, plain, purpose);
    lemma_decrypt_in_use(h, file, plain, purpose);
    lemma_removed(h, todo, plain, events);
    if under_way(h, after(h, todo, events), plain) {
        lemma_not_finished(h, after(h, todo, events), plain);
    }
}

/// Where the passwords are decrypted to, once the work with a password file has been told the date.
pub open spec fn plain_of(first: EventView, token: Text) -> Text {
    match first {
        EventView::Clock(t) => plain_path(utc_date_text(t), token),
        _ => seq![],
    }
}

/// From the first answer on, the work with a password file is under way.
proof fn lemma_process_under_way(
    h: Host,
    opts: ShowPasswordOpts,
    token: Text,
    events: Seq<EventView>,
)
    requires
        !(opts is Create),
        possible(h, file_steps(h, opts, token), events),
    ensures
        events.len() == 0 ==> after(h, file_steps(h, opts, token), events) == file_steps(
            h,
            opts,
            token,
        ),
        events.len() > 0 ==> {
            let now = after(h, file_steps(h, opts, token), events);
            let plain = plain_of(events[0], token);
            under_way(h, now, plain) || (events.len() > 1 && now.len() == 0 && next_action(
                h,
                after(h, file_steps(h, opts, token), events.drop_last()),
            ) == ActionView::Remove(plain))
        },
    decreases events.len(),
{
    let todo = file_steps(h, opts, token);
    if events.len() == 1 {
        let e = events[0];
        assert(events.drop_last() =~= Seq::<EventView>::empty());
        assert(after(h, todo, events.drop_last()) == todo);
        assert(accepts(todo, e));
        assert(todo.skip(1) =~= Seq::<StepView>::empty());
        let now = advance(h, todo, e);
        assert(after(h, todo, events) == now);
        if e is Failed {
            assert(failed(now));
        } else {
            assert(now =~= expand(h, todo[0], e));
            assert(looked_for(now, plain_of(e, token)));
        }
    } else if events.len() > 1 {
        let init = events.drop_last();
        lemma_process_under_way(h, opts, token, init);
        assert(init[0] == events[0]);
        lemma_under_way(h, after(h, todo, init), plain_of(events[0], token), events.last());
    }
}

proof fn lemma_possible_prefix(h: Host, todo: Seq<StepView>, events: Seq<EventView>, j: int)
    requires
        0 <= j <= events.len(),
        possible(h, todo, events),
    ensures
        possible(h, todo, events.take(j)),
        j < events.len() ==> accepts(after(h, todo, events.take(j)), events[j]),
        j < events.len() ==> after(h, todo, events.take(j + 1)) == advance(
            h,
            after(h, todo, events.take(j)),
            events[j],
        ),
    decreases events.len(),
{
    if j < events.len() {
        let next = events.take(j + 1);
        assert(next.drop_last() =~= events.take(j));
        assert(next.last() == events[j]);
        if j == events.len() - 1 {
            assert(next =~= events);
        } else {
            let init = events.drop_last();
            lemma_possible_prefix(h, todo, init, j);
            assert(init.take(j) =~= events.take(j));
            assert(init.take(j + 1) =~= next);
        }
    } else {
        assert(events.take(j) =~= events);
    }
}

/// Whether a command is one of the programs that work with the decrypted passwords in `plain`.
pub open spec fn works_on(c: CommandView, plain: Text) -> bool {
    ||| exists|file: Text| c == #[trigger] decrypt_command(file, plain)
    ||| c == edit_command(plain)
    ||| exists|edit: EditView, file: Text| c == #[trigger] encrypt_command(edit, plain, file)
}

/// Programs that work with the decrypted passwords do so where they were decrypted to.
proof fn lemma_own_command(h: Host, s: StepView, plain: Text, c: CommandView, p: Text)
    requires
        own_program(h, s, plain),
        s is Run,
        s->Run_command == c,
        works_on(c, p),
    ensures
        p == plain,
        c == edit_command(p) ==> s == edit_step(p),
        forall|edit: EditView, file: Text|
            c == #[trigger] encrypt_command(edit, p, file) ==> s == encrypt_step(edit, p, file),
{
    if exists|file: Text| s == #[trigger] decrypt_step(file, plain) {
        let file = choose|file: Text| s == #[trigger] decrypt_step(file, plain);
        assert(c.args.len() == 5 && c.args[2] == plain);
        let f = choose|f: Text| c == #[trigger] decrypt_command(f, p);
        assert(c.args[2] == p);
    } else if s == edit_step(plain) {
        assert(c.args.len() == 2 && c.args[1] == plain);
        assert(c.args[1] == p);
    } else if exists|edit: EditView, file: Text| s == #[trigger] encrypt_step(edit, plain, file) {
        let (edit, file) = choose|edit: EditView, file: Text|
            s == #[trigger] encrypt_step(edit, plain, file);
        assert(c.args.len() == 8 && c.args[7] == plain);
        let (e2, f2) = choose|e2: EditView, f2: Text| c == #[trigger] encrypt_command(e2, p, f2);
        assert(c.args[7] == p);
    } else {
        let line = choose|line: Text| s == #[trigger] telegram_step(h, line, "No status code 12"@);
        assert(c.args.len() == 4);
    }
    assert forall|edit: EditView, file: Text|
        c == #[trigger] encrypt_command(edit, p, file) implies s == encrypt_step(
        edit,
        p,
        file,
    ) by {
        assert(c.args.len() == 8);
        let (e2, f2) = choose|e2: EditView, f2: Text|
            s == #[trigger] encrypt_step(e2, plain, f2);
        assert(c == encrypt_command(e2, p, f2));
    }
}

/// A step that asks for a program that works with decrypted passwords is there only while they are
/// in use.
proof fn lemma_asked_while_in_use(
    h: Host,
    opts: ShowPasswordOpts,
    todo: Seq<StepView>,
    events: Seq<EventView>,
    c: CommandView,
    p: Text,
) -> (token: Text)
    requires
        can_be_steps(h, opts, todo),
        possible(h, todo, events),
        next_action(h, after(h, todo, events)) == ActionView::Status(c),
        works_on(c, p),
    ensures
        !(opts is Create),
        is_token(token, TOKEN_LENGTH as nat),
        todo == file_steps(h, opts, token),
        events.len() > 0,
        p == plain_of(events[0], token),
        ({
            let now = after(h, todo, events);
            &&& in_use(h, now, p)
            &&& now.len() > 0
            &&& now[0] is Run
            &&& own_program(h, now[0], p)
            &&& now[0]->Run_command == c
        }),
{
    let now = after(h, todo, events);
    if opts is Create {
        lemma_create(h, todo, events);
        assert(false);
        seq![]
    } else {
        let token = choose|token: Text|
            #![trigger file_steps(h, opts, token)]
            is_token(token, TOKEN_LENGTH as nat) && todo == file_steps(h, opts, token);
        lemma_process_under_way(h, opts, token, events);
        let plain = plain_of(events[0], token);
        assert(events.len() > 0);
        assert(now.len() > 0 && !failed(now) && !looked_for(now, plain));
        assert(in_use(h, now, plain));
        if now.len() == 1 {
            assert(now[0] == now.last());
        } else {
            assert(own(h, now.drop_last()[0], plain));
        }
        lemma_own_command(h, now[0], plain, c, p);
        token
    }
}

proof fn lemma_create(h: Host, todo: Seq<StepView>, events: Seq<EventView>)
    requires
        todo.len() == 1,
        todo[0] is Say,
        possible(h, todo, events),
    ensures
        after(h, todo, events) == todo || after(h, todo, events).len() == 0 || failed(
            after(h, todo, events),
        ),
    decreases events.len(),
{
    if events.len() > 0 {
        lemma_create(h, todo, events.drop_last());
        let now = after(h, todo, events.drop_last());
        if now == todo {
            assert(todo.skip(1) =~= Seq::<StepView>::empty());
            assert(advance(h, todo, events.last()) =~= expand(h, todo[0], events.last())
                || events.last() is Failed);
        }
    }
}

/// Whatever is to be done with passwords: where it succeeds, what was decrypted on the way was
/// removed, as the last thing that was done.
pub proof fn law_process_removes(
    h: Host,
    opts: ShowPasswordOpts,
    todo: Seq<StepView>,
    events: Seq<EventView>,
    j: int,
    file: Text,
    plain: Text,
)
    requires
        can_be_steps(h, opts, todo),
        possible(h, todo, events),
        next_action(h, after(h, todo, events)) == ActionView::Finish(None),
        0 <= j < events.len(),
        next_action(h, after(h, todo, events.take(j))) == ActionView::Status(
            decrypt_command(file, plain),
        ),
    ensures
        j < events.len() - 1,
        next_action(h, after(h, todo, events.drop_last())) == ActionView::Remove(plain),
{
    let c = decrypt_command(file, plain);
    assert(works_on(c, plain));
    lemma_possible_prefix(h, todo, events, j);
    let token = lemma_asked_while_in_use(h, opts, todo, events.take(j), c, plain);
    assert(events.take(j)[0] == events[0]);
    lemma_process_under_way(h, opts, token, events);
    if under_way(h, after(h, todo, events), plain) {
        lemma_not_finished(h, after(h, todo, events), plain);
    }
    if j == events.len() - 1 {
        assert(events.take(j) =~= events.drop_last());
    }
}

/// The work with a password file succeeds only where the last thing that was done was to remove
/// what was decrypted, under the date and the token of this run.
pub proof fn law_process_ends_in_removal(
    h: Host,
    opts: ShowPasswordOpts,
    token: Text,
    events: Seq<EventView>,
)
    requires
        !(opts is Create),
        possible(h, file_steps(h, opts, token), events),
        next_action(h, after(h, file_steps(h, opts, token), events)) == ActionView::Finish(None),
    ensures
        events.len() > 1,
        events[0] is Clock,
        next_action(h, after(h, file_steps(h, opts, token), events.drop_last()))
            == ActionView::Remove(plain_of(events[0], token)),
{
    let todo = file_steps(h, opts, token);
    lemma_process_under_way(h, opts, token, events);
    if events.len() == 0 {
        assert(todo.len() == 1);
    } else {
        lemma_possible_prefix(h, todo, events, 0);
        assert(events.take(0) =~= Seq::<EventView>::empty());
        assert(accepts(todo, events[0]));
        if under_way(h, after(h, todo, events), plain_of(events[0], token)) {
            lemma_not_finished(h, after(h, todo, events), plain_of(events[0], token));
        }
        if !(events[0] is Clock) {
            assert(events[0] is Failed);
            lemma_possible_prefix(h, todo, events, 1);
            assert(failed(after(h, todo, events.take(1))));
            assert(events.len() == 1 ==> events.take(1) =~= events);
        }
    }
}

/// Whatever is to be done with passwords: where the editor ends with an exit code other than zero,
/// what was decrypted is removed next, and then the script fails.
pub proof fn law_failed_editor(
    h: Host,
    opts: ShowPasswordOpts,
    todo: Seq<StepView>,
    events: Seq<EventView>,
    plain: Text,
    code: i32,
)
    requires
        can_be_steps(h, opts, todo),
        possible(h, todo, events),
        next_action(h, after(h, todo, events)) == ActionView::Status(edit_command(plain)),
        code != 0,
    ensures
        ({
            let now = after(h, todo, events.push(EventView::Exit(Some(code))));
            &&& next_action(h, now) == ActionView::Remove(plain)
            &&& next_action(h, advance(h, now, EventView::Done)) == ActionView::Finish(
                Some("emacs failed with "@ + decimal(code as int)),
            )
        }),
{
    let c = edit_command(plain);
    let now = after(h, todo, events);
    assert(works_on(c, plain));
    let token = lemma_asked_while_in_use(h, opts, todo, events, c, plain);
    lemma_own_command(h, now[0], plain, c, plain);
    lemma_cleanup(h, todo, events, "No status code 13"@, "emacs failed with "@, plain, code);
}

/// The same where the encryption ends with an exit code other than zero.
pub proof fn law_failed_encryption(
    h: Host,
    opts: ShowPasswordOpts,
    todo: Seq<StepView>,
    events: Seq<EventView>,
    edit: EditView,
    plain: Text,
    file: Text,
    code: i32,
)
    requires
        can_be_steps(h, opts, todo),
        possible(h, todo, events),
        next_action(h, after(h, todo, events)) == ActionView::Status(
            encrypt_command(edit, plain, file),
        ),
        code != 0,
    ensures
        ({
            let now = after(h, todo, events.push(EventView::Exit(Some(code))));
            &&& next_action(h, now) == ActionView::Remove(plain)
            &&& next_action(h, advance(h, now, EventView::Done)) == ActionView::Finish(
                Some("gpg encrypt failed with "@ + decimal(code as int)),
            )
        }),
{
    let c = encrypt_command(edit, plain, file);
    let now = after(h, todo, events);
    assert(works_on(c, plain));
    let token = lemma_asked_while_in_use(h, opts, todo, events, c, plain);
    lemma_own_command(h, now[0], plain, c, plain);
    lemma_cleanup(h, todo, events, "No status code 14"@, "gpg encrypt failed with "@, plain, code);
}

proof fn lemma_cleanup(
    h: Host,
    todo: Seq<StepView>,
    events: Seq<EventView>,
    missing: Text,
    prefix: Text,
    plain: Text,
    code: i32,
)
    requires
        code != 0,
        after(h, todo, events).len() > 0,
        after(h, todo, events)[0] matches StepView::Run { on_failure, .. } && on_failure == Some(
            failure_with_cleanup(missing, prefix, plain),
        ),
    ensures
        ({
            let now = after(h, todo, events.push(EventView::Exit(Some(code))));
            &&& next_action(h, now) == ActionView::Remove(plain)
            &&& next_action(h, advance(h, now, EventView::Done)) == ActionView::Finish(
                Some(prefix + decimal(code as int)),
            )
        }),
{
    let before = after(h, todo, events);
    let e = EventView::Exit(Some(code));
    let message = prefix + decimal(code as int);
    let rest = before.skip(1);
    assert(events.push(e).drop_last() =~= events);
    law_failed_edit_removes(missing, prefix, plain, code);
    let now = advance(h, before, e);
    assert(now =~= seq![StepView::Remove(plain), StepView::Halt(Some(message))] + rest);
    assert(now.skip(1) =~= seq![StepView::Halt(Some(message))] + rest);
    let end = advance(h, now, EventView::Done);
    assert(end =~= seq![StepView::Halt(Some(message))] + rest);
}

/// Where the editor, or the encryption, ends with an exit code other than zero, what was decrypted
/// is removed before the script fails.
pub proof fn law_failed_edit_removes(missing: Text, prefix: Text, plain: Text, code: i32)
    requires
        code != 0,
    ensures
        failure_steps(Some(failure_with_cleanup(missing, prefix, plain)), Some(code)) == seq![
            StepView::Remove(plain),
            StepView::Halt(Some(prefix + decimal(code as int))),
        ],
{
    assert(failure_steps(Some(failure_with_cleanup(missing, prefix, plain)), Some(code)) =~= seq![
        StepView::Remove(plain),
        StepView::Halt(Some(prefix + decimal(code as int))),
    ]);
}

/// The answers that give these lines.
pub open spec fn as_events(lines: Seq<Text>) -> Seq<EventView> {
    lines.map_values(|line: Text| EventView::Text(line))
}

proof fn lemma_still_searching(
    h: Host,
    query: Text,
    send: bool,
    rest: Seq<StepView>,
    lines: Seq<Text>,
)
    requires
        forall|i: int|
            0 <= i < lines.len() ==> (#[trigger] lines[i]).len() > 0 && !occurs(lines[i], query),
    ensures
        after(
            h,
            seq![StepView::Password(PasswordStepView::Search { query, send })] + rest,
            as_events(lines),
        ) == seq![StepView::Password(PasswordStepView::Search { query, send })] + rest,
    decreases lines.len(),
{
    let todo = seq![StepView::Password(PasswordStepView::Search { query, send })] + rest;
    if lines.len() > 0 {
        let init = lines.drop_last();
        assert forall|i: int| 0 <= i < init.len() implies (#[trigger] init[i]).len() > 0 && !occurs(
            init[i],
            query,
        ) by {
            assert(init[i] == lines[i]);
        }
        lemma_still_searching(h, query, send, rest, init);
        assert(as_events(lines).drop_last() =~= as_events(init));
        assert(todo.skip(1) =~= rest);
        assert(lines[lines.len() - 1] == lines.last());
        assert(advance(h, todo, EventView::Text(lines.last())) =~= todo);
    }
}

/// The first line that holds the query, and no other, is shown, or sent and shown.
pub proof fn law_first_match(
    h: Host,
    query: Text,
    send: bool,
    rest: Seq<StepView>,
    lines: Seq<Text>,
    found: Text,
)
    requires
        forall|i: int|
            0 <= i < lines.len() ==> (#[trigger] lines[i]).len() > 0 && !occurs(lines[i], query),
        found.len() > 0,
        occurs(found, query),
    ensures
        after(
            h,
            seq![StepView::Password(PasswordStepView::Search { query, send })] + rest,
            as_events(lines).push(EventView::Text(found)),
        ) == (if send {
            seq![telegram_step(h, found, "No status code 12"@), StepView::Say(found)]
        } else {
            seq![StepView::Say("\n"@ + found)]
        }) + rest,
{
    let todo = seq![StepView::Password(PasswordStepView::Search { query, send })] + rest;
    let events = as_events(lines).push(EventView::Text(found));
    lemma_still_searching(h, query, send, rest, lines);
    assert(events.drop_last() =~= as_events(lines));
    assert(todo.skip(1) =~= rest);
    assert(after(h, todo, events) == advance(h, todo, EventView::Text(found)));
}

/// Where no line holds the query, nothing is shown and nothing sent.
pub proof fn law_no_match(
    h: Host,
    query: Text,
    send: bool,
    rest: Seq<StepView>,
    lines: Seq<Text>,
)
    requires
        forall|i: int|
            0 <= i < lines.len() ==> (#[trigger] lines[i]).len() > 0 && !occurs(lines[i], query),
    ensures
        after(
            h,
            seq![StepView::Password(PasswordStepView::Search { query, send })] + rest,
            as_events(lines).push(EventView::End),
        ) == rest,
{
    let todo = seq![StepView::Password(PasswordStepView::Search { query, send })] + rest;
    let events = as_events(lines).push(EventView::End);
    lemma_still_searching(h, query, send, rest, lines);
    assert(events.drop_last() =~= as_events(lines));
    assert(todo.skip(1) =~= rest);
    assert(after(h, todo, events) == advance(h, todo, EventView::End));
    assert(advance(h, todo, EventView::End) =~= rest);
}

/// An edit that changes nothing encrypts nothing.
pub proof fn law_unchanged_is_not_encrypted(
    h: Host,
    plain: Text,
    hash: Text,
    edit: EditView,
    rest: Seq<StepView>,
)
    ensures
        advance(
            h,
            seq![StepView::Password(PasswordStepView::HashAfter { plain, before: hash, edit })]
                + rest,
            EventView::Text(hash),
        ) == rest,
{
    let todo = seq![StepView::Password(PasswordStepView::HashAfter { plain, before: hash, edit })]
        + rest;
    assert(todo.skip(1) =~= rest);
    assert(advance(h, todo, EventView::Text(hash)) =~= rest);
}

// ---------------------------------------------------------------------------
// The refresh of the host
// ---------------------------------------------------------------------------

/// Whether a step runs this command and passes on what it writes.
pub open spec fn pipes(s: StepView, c: CommandView) -> bool {
    s matches StepView::Pipe { command, .. } && command == c
}

/// The host that keeps the databases never restores them, and no other host backs them up.
pub proof fn law_backup_or_restore(h: Host, hostname: Text, user: Text, date: Text, i: int)
    requires
        0 <= i < full_steps(h, hostname, user, date).len(),
    ensures
        keeps_databases(hostname) ==> !pipes(
            full_steps(h, hostname, user, date)[i],
            restore(h, "postgres.toml"@),
        ),
        !keeps_databases(hostname) ==> !pipes(
            full_steps(h, hostname, user, date)[i],
            backup(h, "postgres.toml"@),
        ),
{
    let s = full_steps(h, hostname, user, date)[i];
    let own = backup(h, "postgres.toml"@);
    let local = backup(h, "postgres_local.toml"@);
    reveal_strlit("postgres.toml");
    reveal_strlit("postgres_local.toml");
    assert(own.args[2].len() != local.args[2].len());
    assert(own.args.len() == 3 && restore(h, "postgres.toml"@).args.len() == 5);
    if s is Pipe {
        let c = s->Pipe_command;
        assert(c == command("sudo"@, seq!["apt-get"@, "update"@]) || c == local || (c == own
            && keeps_databases(hostname)) || (c == restore(h, "postgres.toml"@)
            && !keeps_databases(hostname)));
        assert(seq!["apt-get"@, "update"@].len() == 2);
    }
}

/// Every refresh that runs to its end brings the repositories up to date.
pub proof fn law_refresh_updates_repos(h: Host, hostname: Text, user: Text, date: Text)
    ensures
        full_steps(h, hostname, user, date).contains(StepView::UpdateRepos),
        basic_steps(h, hostname, date).contains(StepView::UpdateRepos),
{
    let full = full_steps(h, hostname, user, date);
    let basic = basic_steps(h, hostname, date);
    let n = restore_steps(h, hostname).len();
    assert(full[full.len() - n - 1] == StepView::UpdateRepos);
    assert(basic[basic.len() - 1] == StepView::UpdateRepos);
}

// ---------------------------------------------------------------------------
// Repositories
// ---------------------------------------------------------------------------

/// Where what is not committed could not be put aside, no branch is touched.
pub proof fn law_failed_stash_stops(h: Host, dir: Text, code: i32)
    requires
        code != 0,
    ensures
        ({
            let told = advance(h, git_directory_steps(dir), EventView::Exit(Some(code)));
            &&& next_action(h, told) is Say
            &&& next_action(h, advance(h, told, EventView::Done)) is Finish
        }),
{
    let steps = git_directory_steps(dir);
    assert(steps =~= seq![steps[0]] + steps.skip(1));
    law_failed_pipe_ends(h, git(dir, seq!["stash"@]), "git stash"@, steps.skip(1), code);
}

} // verus!
