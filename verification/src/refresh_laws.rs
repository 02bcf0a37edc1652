//! What a refresh of the host does from its beginning to its end, on every host.

use vstd::prelude::*;

use crate::action::{ActionView, EventView};
use crate::cleanup::asked;
use crate::first_line::goal_steps;
use crate::host::Host;
use crate::number::decimal;
use crate::outside::path_shown;
use crate::path::joined_path;
use crate::refresh::{
    backup_steps, basic_backup_steps, basic_steps, basic_upgrade_steps, dropbox_steps, final_steps,
    full_steps, own_log_steps, restore_steps, rotate_steps, upgrade_steps, with_config,
};
use crate::runs::{
    can_be_read, file_answers, law_basic_refresh, law_file_is_read, law_full_refresh, line_of,
    FileState,
};
use crate::script::{after, ask, expand, next_action, possible};
use crate::scripts::refresh_start;
use crate::step::{GoalView, RefreshStepView, Routine, Stage, StepView};
use crate::text::Text;
use crate::trace::{
    all_flat, all_succeeded, course, doings, goes, is_closed, is_flat, is_line, lemma_closed_adds,
    lemma_course, lemma_course_adds, lemma_course_guarded, lemma_course_plain, lemma_start,
    lemma_then, provided, to_pipe, to_run, told,
};

verus! {

// ---------------------------------------------------------------------------
// The first line of a file
// ---------------------------------------------------------------------------

/// What is asked about a file whose first line is read. A file of fewer than 1024 bytes is read
/// whole, a longer one up to the end of its first line.
pub open spec fn questions(path: Text, f: FileState) -> Seq<ActionView> {
    match f {
        FileState::Missing => seq![ActionView::Exists(path)],
        FileState::Unopened { .. } => seq![
            ActionView::Exists(path),
            ActionView::FileLength(path),
            ActionView::ReadLine(path),
        ],
        FileState::Readable { length, .. } => seq![
            ActionView::Exists(path),
            ActionView::FileLength(path),
            if length < 1024 {
                ActionView::ReadText(path)
            } else {
                ActionView::ReadLine(path)
            },
        ],
    }
}

/// The first line of a file is asked for at its path and nowhere else.
pub proof fn law_file_questions(
    h: Host,
    path: Text,
    goal: GoalView,
    rest: Seq<StepView>,
    f: FileState,
)
    requires
        can_be_read(f),
    ensures
        goes(
            h,
            seq![StepView::FirstLine { stage: Stage::Probe, path, goal }] + rest,
            file_answers(f),
            goal_steps(h, goal, line_of(f)) + rest,
            questions(path, f),
        ),
{
    let probe = StepView::FirstLine { stage: Stage::Probe, path, goal };
    let measure = StepView::FirstLine { stage: Stage::Length, path, goal };
    let short = StepView::FirstLine { stage: Stage::Short, path, goal };
    let long = StepView::FirstLine { stage: Stage::Long, path, goal };
    let e = file_answers(f);
    let q = questions(path, f);
    let start = seq![probe] + rest;
    let none = Seq::<EventView>::empty();
    let no = Seq::<ActionView>::empty();
    law_file_is_read(h, path, goal, rest, f);
    lemma_start(h, start);
    lemma_then(h, start, none, probe, rest, no, e[0]);
    if e.len() == 1 {
        assert(e =~= none.push(e[0]));
        assert(q =~= no.push(ActionView::Exists(path)));
    } else {
        let q1 = no.push(ActionView::Exists(path));
        let q2 = q1.push(ActionView::FileLength(path));
        lemma_then(h, start, none.push(e[0]), measure, rest, q1, e[1]);
        let last = if q[2] is ReadText {
            short
        } else {
            long
        };
        lemma_then(h, start, none.push(e[0]).push(e[1]), last, rest, q2, e[2]);
        assert(e =~= none.push(e[0]).push(e[1]).push(e[2]));
        assert(q =~= q2.push(q[2]));
    }
}

// ---------------------------------------------------------------------------
// The beginning
// ---------------------------------------------------------------------------

/// A refresh asks for the name of the host, which is the first line of `/etc/hostname`, and says
/// it; then for the user, where it does the full routine; then for the local time.
pub proof fn law_refresh_begins(h: Host, f: FileState, user: Text, date: Text)
    requires
        can_be_read(f),
    ensures
        ({
            let full = seq![refresh_start(Routine::Full)];
            let answers = file_answers(f) + seq![
                EventView::Done,
                EventView::Text(user),
                EventView::Text(date),
            ];
            &&& possible(h, full, answers)
            &&& asked(h, full, answers) == questions("/etc/hostname"@, f) + seq![
                ActionView::Say("hostname "@ + line_of(f)),
                ActionView::User,
                ActionView::LocalTime,
            ]
        }),
        ({
            let basic = seq![refresh_start(Routine::Basic)];
            let answers = file_answers(f) + seq![EventView::Done, EventView::Text(date)];
            &&& possible(h, basic, answers)
            &&& asked(h, basic, answers) == questions("/etc/hostname"@, f) + seq![
                ActionView::Say("hostname "@ + line_of(f)),
                ActionView::LocalTime,
            ]
        }),
{
    let none = Seq::<StepView>::empty();
    let hostname = line_of(f);
    let path = "/etc/hostname"@;
    let e = file_answers(f);
    let q = questions(path, f);
    let said = StepView::Say("hostname "@ + hostname);
    {
        let start = seq![refresh_start(Routine::Full)];
        let who = StepView::Refresh(RefreshStepView::User { hostname });
        let next = StepView::Refresh(RefreshStepView::Full { hostname, user });
        law_file_questions(h, path, GoalView::Hostname(Routine::Full), none, f);
        assert(start =~= start + none);
        assert(after(h, start, e) =~= seq![said] + seq![who]);
        lemma_then(h, start, e, said, seq![who], q, EventView::Done);
        let (e1, q1) = (e.push(EventView::Done), q.push(ActionView::Say("hostname "@ + hostname)));
        assert(after(h, start, e1) =~= seq![who] + none);
        lemma_then(h, start, e1, who, none, q1, EventView::Text(user));
        let (e2, q2) = (e1.push(EventView::Text(user)), q1.push(ActionView::User));
        assert(after(h, start, e2) =~= seq![next] + none);
        lemma_then(h, start, e2, next, none, q2, EventView::Text(date));
        assert(e2.push(EventView::Text(date)) =~= e + seq![
            EventView::Done,
            EventView::Text(user),
            EventView::Text(date),
        ]);
        assert(q2.push(ActionView::LocalTime) =~= q + seq![
            ActionView::Say("hostname "@ + hostname),
            ActionView::User,
            ActionView::LocalTime,
        ]);
    }
    {
        let start = seq![refresh_start(Routine::Basic)];
        let next = StepView::Refresh(RefreshStepView::Basic { hostname });
        law_file_questions(h, path, GoalView::Hostname(Routine::Basic), none, f);
        assert(start =~= start + none);
        assert(after(h, start, e) =~= seq![said] + seq![next]);
        lemma_then(h, start, e, said, seq![next], q, EventView::Done);
        let (e1, q1) = (e.push(EventView::Done), q.push(ActionView::Say("hostname "@ + hostname)));
        assert(after(h, start, e1) =~= seq![next] + none);
        lemma_then(h, start, e1, next, none, q1, EventView::Text(date));
        assert(e1.push(EventView::Text(date)) =~= e + seq![EventView::Done, EventView::Text(date)]);
        assert(q1.push(ActionView::LocalTime) =~= q + seq![
            ActionView::Say("hostname "@ + hostname),
            ActionView::LocalTime,
        ]);
    }
}

// ---------------------------------------------------------------------------
// The routines
// ---------------------------------------------------------------------------

/// A file in the directory of the logs.
pub open spec fn in_logs(h: Host, leaf: Text) -> Text {
    joined_path(joined_path(h.home_dir@, "log"@), leaf)
}

/// A description of databases.
pub open spec fn in_backup_config(h: Host, leaf: Text) -> Text {
    joined_path(joined_path(h.config_dir@, "backup_app_rust"@), leaf)
}

/// A log that is there is given the date in its name, and packed.
pub open spec fn puts_away(
    h: Host,
    name: Text,
    date: Text,
    there: spec_fn(Text) -> bool,
) -> Seq<ActionView> {
    let from = in_logs(h, name + ".log"@);
    let to = in_logs(h, name + "_"@ + date + ".log"@);
    seq![ActionView::Exists(from)] + provided(
        there(from),
        seq![
            ActionView::Say("mv/gzip "@ + path_shown(from) + " "@ + path_shown(to)),
            ActionView::Rename { from, to },
            to_run("gzip"@, seq![to]),
        ],
    )
}

/// A message is sent by Telegram.
pub open spec fn sends(h: Host, message: Text) -> Seq<ActionView> {
    seq![
        to_run(
            h.config.inner().send_to_telegram_path@,
            seq!["-r"@, "ddboline"@, "-m"@, message],
        ),
    ]
}

/// The packages are brought up to date, and this is told.
pub open spec fn upgrades(h: Host, hostname: Text) -> Seq<ActionView> {
    seq![
        ActionView::Say("sudo apt-get update"@),
        to_pipe("sudo"@, seq!["apt-get"@, "update"@]),
    ] + sends(h, hostname + " has updated"@) + seq![
        to_run("sudo"@, seq!["apt-get"@, "dist-upgrade"@]),
    ]
}

/// Databases are backed up where there is a description of them.
pub open spec fn backs_up(
    h: Host,
    leaf: Text,
    there: spec_fn(Text) -> bool,
) -> Seq<ActionView> {
    let path = in_backup_config(h, leaf);
    seq![ActionView::Exists(path)] + provided(
        there(path),
        seq![to_pipe(h.config.inner().backup_app_path@, seq!["backup"@, "-f"@, path])],
    )
}

/// Databases are restored where there is a description of them.
pub open spec fn restores(
    h: Host,
    leaf: Text,
    there: spec_fn(Text) -> bool,
) -> Seq<ActionView> {
    let path = in_backup_config(h, leaf);
    seq![ActionView::Exists(path)] + provided(
        there(path),
        seq![
            to_pipe(
                h.config.inner().backup_app_path@,
                seq!["restore"@, "-f"@, path, "-k"@, "movie_collection_rust"@],
            ),
        ],
    )
}

/// The file synchronisation is started where it is there.
pub open spec fn starts_dropbox(h: Host, there: spec_fn(Text) -> bool) -> Seq<ActionView> {
    let path = h.config.inner().dropbox_path@;
    seq![ActionView::Exists(path)] + provided(there(path), seq![to_run(path, seq!["start"@])])
}

/// All that the basic routine asks for on a host with these files, in order.
pub open spec fn basic_doings(
    h: Host,
    hostname: Text,
    date: Text,
    there: spec_fn(Text) -> bool,
) -> Seq<ActionView> {
    seq![ActionView::Say("date "@ + date)] + puts_away(h, "crontab"@, date, there) + puts_away(
        h,
        "crontab_aws"@,
        date,
        there,
    ) + upgrades(h, hostname) + provided(
        hostname == "dilepton-tower"@,
        seq![to_run("sudo"@, seq!["modprobe"@, "vboxdrv"@])] + backs_up(
            h,
            "postgres.toml"@,
            there,
        ),
    ) + backs_up(h, "postgres_local.toml"@, there) + starts_dropbox(h, there) + sends(
        h,
        hostname + " has finished"@,
    ) + seq![ActionView::UpdateRepos]
}

/// All that the full routine asks for on a host with these files, in order.
pub open spec fn full_doings(
    h: Host,
    hostname: Text,
    user: Text,
    date: Text,
    there: spec_fn(Text) -> bool,
) -> Seq<ActionView> {
    let root_log = in_logs(h, "crontab_root"@ + ".log"@);
    seq![ActionView::Say("date "@ + date), ActionView::Exists(root_log)] + provided(
        there(root_log),
        seq![to_run("sudo"@, seq!["chown"@, user + ":"@ + user, root_log])],
    ) + puts_away(h, "crontab"@, date, there) + puts_away(h, "crontab_aws"@, date, there)
        + puts_away(h, "crontab_root"@, date, there) + upgrades(h, hostname) + provided(
        hostname == "dilepton-tower"@,
        backs_up(h, "postgres.toml"@, there),
    ) + backs_up(h, "postgres_local.toml"@, there) + starts_dropbox(h, there) + sends(
        h,
        hostname + " has finished"@,
    ) + seq![ActionView::UpdateRepos] + provided(
        hostname != "dilepton-tower"@,
        restores(h, "postgres.toml"@, there),
    )
}

proof fn lemma_rotate(
    h: Host,
    name: Text,
    date: Text,
    missing: Text,
    there: spec_fn(Text) -> bool,
)
    ensures
        course(h, rotate_steps(h, name, date, missing), there) == puts_away(h, name, date, there),
        is_closed(rotate_steps(h, name, date, missing)),
        all_flat(rotate_steps(h, name, date, missing)),
{
    let steps = rotate_steps(h, name, date, missing);
    let body = steps.skip(1);
    let path = in_logs(h, name + ".log"@);
    assert(steps =~= seq![StepView::Guard { path, span: body.len() as usize }] + body);
    lemma_course_guarded(h, path, body, there);
    assert(course(h, steps, there) =~= puts_away(h, name, date, there));
}

proof fn lemma_with_config(
    h: Host,
    leaf: Text,
    step: StepView,
    there: spec_fn(Text) -> bool,
)
    requires
        !(step is Guard),
    ensures
        course(h, with_config(h, leaf, step), there) == seq![
            ActionView::Exists(in_backup_config(h, leaf)),
        ] + provided(there(in_backup_config(h, leaf)), seq![ask(h, step)]),
        is_closed(with_config(h, leaf, step)),
{
    let steps = with_config(h, leaf, step);
    let body = seq![step];
    let path = in_backup_config(h, leaf);
    assert(steps =~= seq![StepView::Guard { path, span: body.len() as usize }] + body);
    lemma_course_guarded(h, path, body, there);
    assert(body.map_values(|s: StepView| ask(h, s)) =~= seq![ask(h, step)]);
}

proof fn lemma_dropbox(h: Host, missing: Text, there: spec_fn(Text) -> bool)
    ensures
        course(h, dropbox_steps(h, missing), there) == starts_dropbox(h, there),
        is_closed(dropbox_steps(h, missing)),
        all_flat(dropbox_steps(h, missing)),
{
    let steps = dropbox_steps(h, missing);
    let body = steps.skip(1);
    let path = h.config.inner().dropbox_path@;
    assert(steps =~= seq![StepView::Guard { path, span: body.len() as usize }] + body);
    lemma_course_guarded(h, path, body, there);
    assert(course(h, steps, there) =~= starts_dropbox(h, there));
}

proof fn lemma_own_log(h: Host, user: Text, there: spec_fn(Text) -> bool)
    ensures
        ({
            let path = in_logs(h, "crontab_root"@ + ".log"@);
            course(h, own_log_steps(h, user), there) == seq![ActionView::Exists(path)] + provided(
                there(path),
                seq![to_run("sudo"@, seq!["chown"@, user + ":"@ + user, path])],
            )
        }),
        is_closed(own_log_steps(h, user)),
        all_flat(own_log_steps(h, user)),
{
    let steps = own_log_steps(h, user);
    let body = steps.skip(1);
    let path = in_logs(h, "crontab_root"@ + ".log"@);
    assert(steps =~= seq![StepView::Guard { path, span: body.len() as usize }] + body);
    lemma_course_guarded(h, path, body, there);
    assert(body.map_values(|s: StepView| ask(h, s)) =~= seq![
        to_run("sudo"@, seq!["chown"@, user + ":"@ + user, path]),
    ]);
}

proof fn lemma_upgrade(h: Host, hostname: Text, there: spec_fn(Text) -> bool)
    ensures
        course(h, upgrade_steps(h, hostname), there) == upgrades(h, hostname),
        course(h, basic_upgrade_steps(h, hostname), there) == upgrades(h, hostname),
        is_closed(upgrade_steps(h, hostname)),
        is_closed(basic_upgrade_steps(h, hostname)),
        all_flat(upgrade_steps(h, hostname)),
        all_flat(basic_upgrade_steps(h, hostname)),
{
    lemma_course_plain(h, upgrade_steps(h, hostname), there);
    lemma_course_plain(h, basic_upgrade_steps(h, hostname), there);
    assert(course(h, upgrade_steps(h, hostname), there) =~= upgrades(h, hostname));
    assert(course(h, basic_upgrade_steps(h, hostname), there) =~= upgrades(h, hostname));
}

proof fn lemma_backup(h: Host, hostname: Text, there: spec_fn(Text) -> bool)
    ensures
        course(h, backup_steps(h, hostname), there) == provided(
            hostname == "dilepton-tower"@,
            backs_up(h, "postgres.toml"@, there),
        ) + backs_up(h, "postgres_local.toml"@, there),
        is_closed(backup_steps(h, hostname)),
        all_flat(backup_steps(h, hostname)),
{
    let steps = backup_steps(h, hostname);
    let n = steps.len();
    let local = seq![steps[n - 2], steps[n - 1]];
    let none = Seq::<StepView>::empty();
    assert(local =~= with_config(h, "postgres_local.toml"@, steps[n - 1]));
    lemma_with_config(h, "postgres_local.toml"@, steps[n - 1], there);
    assert(course(h, local, there) =~= backs_up(h, "postgres_local.toml"@, there));
    if hostname == "dilepton-tower"@ {
        let own = seq![steps[0], steps[1]];
        assert(own =~= with_config(h, "postgres.toml"@, steps[1]));
        lemma_with_config(h, "postgres.toml"@, steps[1], there);
        assert(course(h, own, there) =~= backs_up(h, "postgres.toml"@, there));
        assert(steps =~= own + local);
        lemma_course_adds(h, own, local, there);
        lemma_closed_adds(own, local);
    } else {
        assert(steps =~= local);
        assert(course(h, steps, there) =~= provided(false, seq![]) + backs_up(
            h,
            "postgres_local.toml"@,
            there,
        ));
    }
}

proof fn lemma_basic_backup(h: Host, hostname: Text, there: spec_fn(Text) -> bool)
    ensures
        course(h, basic_backup_steps(h, hostname), there) == provided(
            hostname == "dilepton-tower"@,
            seq![to_run("sudo"@, seq!["modprobe"@, "vboxdrv"@])] + backs_up(
                h,
                "postgres.toml"@,
                there,
            ),
        ) + backs_up(h, "postgres_local.toml"@, there),
        is_closed(basic_backup_steps(h, hostname)),
        all_flat(basic_backup_steps(h, hostname)),
{
    let steps = basic_backup_steps(h, hostname);
    let n = steps.len();
    let local = seq![steps[n - 2], steps[n - 1]];
    assert(local =~= with_config(h, "postgres_local.toml"@, steps[n - 1]));
    lemma_with_config(h, "postgres_local.toml"@, steps[n - 1], there);
    assert(course(h, local, there) =~= backs_up(h, "postgres_local.toml"@, there));
    if hostname == "dilepton-tower"@ {
        let load = seq![steps[0]];
        let own = seq![steps[1], steps[2]];
        assert(own =~= with_config(h, "postgres.toml"@, steps[2]));
        lemma_with_config(h, "postgres.toml"@, steps[2], there);
        assert(course(h, own, there) =~= backs_up(h, "postgres.toml"@, there));
        lemma_course_plain(h, load, there);
        assert(course(h, load, there) =~= seq![to_run("sudo"@, seq!["modprobe"@, "vboxdrv"@])]);
        lemma_course_adds(h, load, own, there);
        lemma_closed_adds(load, own);
        assert(steps =~= load + own + local);
        lemma_course_adds(h, load + own, local, there);
        lemma_closed_adds(load + own, local);
    } else {
        assert(steps =~= local);
        assert(course(h, steps, there) =~= provided(false, seq![]) + backs_up(
            h,
            "postgres_local.toml"@,
            there,
        ));
    }
}

proof fn lemma_final(h: Host, hostname: Text, missing: Text, there: spec_fn(Text) -> bool)
    ensures
        course(h, final_steps(h, hostname, missing), there) == sends(
            h,
            hostname + " has finished"@,
        ) + seq![ActionView::UpdateRepos],
        is_closed(final_steps(h, hostname, missing)),
        all_flat(final_steps(h, hostname, missing)),
{
    lemma_course_plain(h, final_steps(h, hostname, missing), there);
    assert(course(h, final_steps(h, hostname, missing), there) =~= sends(
        h,
        hostname + " has finished"@,
    ) + seq![ActionView::UpdateRepos]);
}

proof fn lemma_restore(h: Host, hostname: Text, there: spec_fn(Text) -> bool)
    ensures
        course(h, restore_steps(h, hostname), there) == provided(
            hostname != "dilepton-tower"@,
            restores(h, "postgres.toml"@, there),
        ),
        all_flat(restore_steps(h, hostname)),
{
    let steps = restore_steps(h, hostname);
    if hostname == "dilepton-tower"@ {
        lemma_course_plain(h, steps, there);
        assert(course(h, steps, there) =~= seq![]);
    } else {
        assert(steps =~= with_config(h, "postgres.toml"@, steps[1]));
        lemma_with_config(h, "postgres.toml"@, steps[1], there);
        assert(course(h, steps, there) =~= restores(h, "postgres.toml"@, there));
    }
}

/// The course of a list of steps behind another.
proof fn lemma_append(
    h: Host,
    a: Seq<StepView>,
    b: Seq<StepView>,
    ca: Seq<ActionView>,
    there: spec_fn(Text) -> bool,
)
    requires
        is_closed(a),
        all_flat(a),
        all_flat(b),
        course(h, a, there) == ca,
    ensures
        course(h, a + b, there) == ca + course(h, b, there),
        all_flat(a + b),
        is_closed(b) ==> is_closed(a + b),
{
    lemma_course_adds(h, a, b, there);
    if is_closed(b) {
        lemma_closed_adds(a, b);
    }
    assert forall|i: int| 0 <= i < (a + b).len() implies is_flat(
        #[trigger] (a + b)[i],
    ) by {
        if i < a.len() {
            assert((a + b)[i] == a[i]);
        } else {
            assert((a + b)[i] == b[i - a.len()]);
        }
    }
}

proof fn lemma_basic_course(h: Host, hostname: Text, date: Text, there: spec_fn(Text) -> bool)
    ensures
        course(h, basic_steps(h, hostname, date), there) == basic_doings(h, hostname, date, there),
        all_flat(basic_steps(h, hostname, date)),
{
    let m = "No status code"@;
    let s0 = seq![StepView::Say("date "@ + date)];
    let c0 = seq![ActionView::Say("date "@ + date)];
    lemma_course_plain(h, s0, there);
    assert(course(h, s0, there) =~= c0);
    let p1 = rotate_steps(h, "crontab"@, date, m);
    let p2 = rotate_steps(h, "crontab_aws"@, date, m);
    let p3 = basic_upgrade_steps(h, hostname);
    let p4 = basic_backup_steps(h, hostname);
    let p5 = dropbox_steps(h, m);
    let p6 = final_steps(h, hostname, m);
    lemma_rotate(h, "crontab"@, date, m, there);
    lemma_rotate(h, "crontab_aws"@, date, m, there);
    lemma_upgrade(h, hostname, there);
    lemma_basic_backup(h, hostname, there);
    lemma_dropbox(h, m, there);
    lemma_final(h, hostname, m, there);
    lemma_append(h, s0, p1, c0, there);
    let c1 = c0 + puts_away(h, "crontab"@, date, there);
    lemma_append(h, s0 + p1, p2, c1, there);
    let c2 = c1 + puts_away(h, "crontab_aws"@, date, there);
    lemma_append(h, s0 + p1 + p2, p3, c2, there);
    let c3 = c2 + upgrades(h, hostname);
    lemma_append(h, s0 + p1 + p2 + p3, p4, c3, there);
    let c4 = c3 + course(h, p4, there);
    lemma_append(h, s0 + p1 + p2 + p3 + p4, p5, c4, there);
    let c5 = c4 + starts_dropbox(h, there);
    lemma_append(h, s0 + p1 + p2 + p3 + p4 + p5, p6, c5, there);
    assert(basic_steps(h, hostname, date) == s0 + p1 + p2 + p3 + p4 + p5 + p6);
    assert(c5 + course(h, p6, there) =~= basic_doings(h, hostname, date, there));
}

proof fn lemma_full_course(
    h: Host,
    hostname: Text,
    user: Text,
    date: Text,
    there: spec_fn(Text) -> bool,
)
    ensures
        course(h, full_steps(h, hostname, user, date), there) == full_doings(
            h,
            hostname,
            user,
            date,
            there,
        ),
        all_flat(full_steps(h, hostname, user, date)),
{
    let m = "No status code 3"@;
    let s0 = seq![StepView::Say("date "@ + date)];
    let c0 = seq![ActionView::Say("date "@ + date)];
    lemma_course_plain(h, s0, there);
    assert(course(h, s0, there) =~= c0);
    let p0 = own_log_steps(h, user);
    let p1 = rotate_steps(h, "crontab"@, date, m);
    let p2 = rotate_steps(h, "crontab_aws"@, date, m);
    let p3 = rotate_steps(h, "crontab_root"@, date, m);
    let p4 = upgrade_steps(h, hostname);
    let p5 = backup_steps(h, hostname);
    let p6 = dropbox_steps(h, "No status code 7"@);
    let p7 = final_steps(h, hostname, "No status code 8"@);
    let p8 = restore_steps(h, hostname);
    lemma_own_log(h, user, there);
    lemma_rotate(h, "crontab"@, date, m, there);
    lemma_rotate(h, "crontab_aws"@, date, m, there);
    lemma_rotate(h, "crontab_root"@, date, m, there);
    lemma_upgrade(h, hostname, there);
    lemma_backup(h, hostname, there);
    lemma_dropbox(h, "No status code 7"@, there);
    lemma_final(h, hostname, "No status code 8"@, there);
    lemma_restore(h, hostname, there);
    lemma_append(h, s0, p0, c0, there);
    let c1 = c0 + course(h, p0, there);
    lemma_append(h, s0 + p0, p1, c1, there);
    let c2 = c1 + puts_away(h, "crontab"@, date, there);
    lemma_append(h, s0 + p0 + p1, p2, c2, there);
    let c3 = c2 + puts_away(h, "crontab_aws"@, date, there);
    lemma_append(h, s0 + p0 + p1 + p2, p3, c3, there);
    let c4 = c3 + puts_away(h, "crontab_root"@, date, there);
    lemma_append(h, s0 + p0 + p1 + p2 + p3, p4, c4, there);
    let c5 = c4 + upgrades(h, hostname);
    lemma_append(h, s0 + p0 + p1 + p2 + p3 + p4, p5, c5, there);
    let c6 = c5 + course(h, p5, there);
    lemma_append(h, s0 + p0 + p1 + p2 + p3 + p4 + p5, p6, c6, there);
    let c7 = c6 + starts_dropbox(h, there);
    lemma_append(h, s0 + p0 + p1 + p2 + p3 + p4 + p5 + p6, p7, c7, there);
    let c8 = c7 + course(h, p7, there);
    lemma_append(h, s0 + p0 + p1 + p2 + p3 + p4 + p5 + p6 + p7, p8, c8, there);
    assert(full_steps(h, hostname, user, date) == s0 + p0 + p1 + p2 + p3 + p4 + p5 + p6 + p7 + p8);
    assert(c8 + course(h, p8, there) =~= full_doings(h, hostname, user, date, there));
}

/// Every run of the basic routine that succeeds does the same, by which files there are and what
/// the host is called: its logs are put away, its packages are brought up to date, its databases
/// are backed up, the file synchronisation is started and the repositories are brought up to date,
/// in that order. Only programs that failed add lines to what is said.
pub proof fn law_basic_routine(
    h: Host,
    f: FileState,
    date: Text,
    there: spec_fn(Text) -> bool,
    events: Seq<EventView>,
)
    requires
        can_be_read(f),
        ({
            let todo = after(
                h,
                seq![refresh_start(Routine::Basic)],
                file_answers(f) + seq![EventView::Done, EventView::Text(date)],
            );
            &&& possible(h, todo, events)
            &&& told(h, todo, events, there)
            &&& next_action(h, after(h, todo, events)) == ActionView::Finish(None)
        }),
    ensures
        ({
            let todo = after(
                h,
                seq![refresh_start(Routine::Basic)],
                file_answers(f) + seq![EventView::Done, EventView::Text(date)],
            );
            let expected = basic_doings(h, line_of(f), date, there);
            &&& doings(asked(h, todo, events)) == doings(expected)
            &&& all_succeeded(events) ==> asked(h, todo, events) == expected
        }),
{
    law_basic_refresh(h, f, date);
    lemma_basic_course(h, line_of(f), date, there);
    lemma_course(h, basic_steps(h, line_of(f), date), there, events);
}

/// The same for the full routine, which also takes over the log of the superuser and puts it away,
/// and restores the databases on all hosts but the one that keeps them.
pub proof fn law_full_routine(
    h: Host,
    f: FileState,
    user: Text,
    date: Text,
    there: spec_fn(Text) -> bool,
    events: Seq<EventView>,
)
    requires
        can_be_read(f),
        ({
            let todo = after(
                h,
                seq![refresh_start(Routine::Full)],
                file_answers(f) + seq![
                    EventView::Done,
                    EventView::Text(user),
                    EventView::Text(date),
                ],
            );
            &&& possible(h, todo, events)
            &&& told(h, todo, events, there)
            &&& next_action(h, after(h, todo, events)) == ActionView::Finish(None)
        }),
    ensures
        ({
            let todo = after(
                h,
                seq![refresh_start(Routine::Full)],
                file_answers(f) + seq![
                    EventView::Done,
                    EventView::Text(user),
                    EventView::Text(date),
                ],
            );
            let expected = full_doings(h, line_of(f), user, date, there);
            &&& doings(asked(h, todo, events)) == doings(expected)
            &&& all_succeeded(events) ==> asked(h, todo, events) == expected
        }),
{
    law_full_refresh(h, f, user, date);
    lemma_full_course(h, line_of(f), user, date, there);
    lemma_course(h, full_steps(h, line_of(f), user, date), there, events);
}

proof fn lemma_doings_contain(trace: Seq<ActionView>, a: ActionView)
    requires
        !is_line(a),
    ensures
        doings(trace).contains(a) <==> trace.contains(a),
    decreases trace.len(),
{
    if trace.len() > 0 {
        let init = trace.drop_last();
        let d = doings(init);
        lemma_doings_contain(init, a);
        if init.contains(a) {
            let i = choose|i: int| 0 <= i < init.len() && init[i] == a;
            assert(trace[i] == a);
            let k = choose|k: int| 0 <= k < d.len() && d[k] == a;
            assert(doings(trace)[k] == a);
        }
        if trace.last() == a {
            assert(trace[trace.len() - 1] == a);
            assert(doings(trace)[d.len() as int] == a);
        }
        if trace.contains(a) && trace.last() != a {
            let i = choose|i: int| 0 <= i < trace.len() && trace[i] == a;
            assert(init[i] == a);
        }
        if doings(trace).contains(a) && trace.last() != a {
            let k = choose|k: int| 0 <= k < doings(trace).len() && doings(trace)[k] == a;
            assert(d[k] == a);
        }
    } else {
        assert(doings(trace) =~= seq![]);
    }
}

/// The databases of a host itself are backed up on every host that has a description of them,
/// whatever it is called: no refresh succeeds without.
pub proof fn law_local_databases_are_backed_up(
    h: Host,
    f: FileState,
    user: Text,
    date: Text,
    there: spec_fn(Text) -> bool,
    events: Seq<EventView>,
    routine: Routine,
)
    requires
        can_be_read(f),
        there(in_backup_config(h, "postgres_local.toml"@)),
        ({
            let todo = after(
                h,
                seq![refresh_start(routine)],
                file_answers(f) + (if routine is Full {
                    seq![EventView::Done, EventView::Text(user), EventView::Text(date)]
                } else {
                    seq![EventView::Done, EventView::Text(date)]
                }),
            );
            &&& possible(h, todo, events)
            &&& told(h, todo, events, there)
            &&& next_action(h, after(h, todo, events)) == ActionView::Finish(None)
        }),
    ensures
        ({
            let todo = after(
                h,
                seq![refresh_start(routine)],
                file_answers(f) + (if routine is Full {
                    seq![EventView::Done, EventView::Text(user), EventView::Text(date)]
                } else {
                    seq![EventView::Done, EventView::Text(date)]
                }),
            );
            asked(h, todo, events).contains(
                to_pipe(
                    h.config.inner().backup_app_path@,
                    seq!["backup"@, "-f"@, in_backup_config(h, "postgres_local.toml"@)],
                ),
            )
        }),
{
    let wanted = to_pipe(
        h.config.inner().backup_app_path@,
        seq!["backup"@, "-f"@, in_backup_config(h, "postgres_local.toml"@)],
    );
    let name = line_of(f);
    let local = backs_up(h, "postgres_local.toml"@, there);
    assert(local[1] == wanted);
    if routine is Full {
        law_full_routine(h, f, user, date, there, events);
        let todo = full_steps(h, name, user, date);
        law_full_refresh(h, f, user, date);
        let all = full_doings(h, name, user, date, there);
        let root_log = in_logs(h, "crontab_root"@ + ".log"@);
        let head = seq![ActionView::Say("date "@ + date), ActionView::Exists(root_log)] + provided(
            there(root_log),
            seq![to_run("sudo"@, seq!["chown"@, user + ":"@ + user, root_log])],
        ) + puts_away(h, "crontab"@, date, there) + puts_away(h, "crontab_aws"@, date, there)
            + puts_away(h, "crontab_root"@, date, there) + upgrades(h, name) + provided(
            name == "dilepton-tower"@,
            backs_up(h, "postgres.toml"@, there),
        );
        assert(all[head.len() as int + 1] == wanted);
        lemma_doings_contain(all, wanted);
        lemma_doings_contain(asked(h, todo, events), wanted);
    } else {
        law_basic_routine(h, f, date, there, events);
        let todo = basic_steps(h, name, date);
        law_basic_refresh(h, f, date);
        let all = basic_doings(h, name, date, there);
        let head = seq![ActionView::Say("date "@ + date)] + puts_away(
            h,
            "crontab"@,
            date,
            there,
        ) + puts_away(h, "crontab_aws"@, date, there) + upgrades(h, name) + provided(
            name == "dilepton-tower"@,
            seq![to_run("sudo"@, seq!["modprobe"@, "vboxdrv"@])] + backs_up(
                h,
                "postgres.toml"@,
                there,
            ),
        );
        assert(all[head.len() as int + 1] == wanted);
        lemma_doings_contain(all, wanted);
        lemma_doings_contain(asked(h, todo, events), wanted);
    }
}

// ---------------------------------------------------------------------------
// Programs that fail
// ---------------------------------------------------------------------------

/// What the end of a program leads to in the full routine.
pub open spec fn full_reaction(h: Host, s: StepView, code: i32) -> bool {
    let n = decimal(code as int);
    let next = expand(h, s, EventView::Exit(Some(code)));
    match ask(h, s) {
        ActionView::Pipe(c) => {
            let update = "apt-get update"@ + " failed with "@ + n;
            let own = "backup_app_rust postgres.toml"@ + " failed with "@ + n;
            let local = "backup_app_rust postgres_local.toml"@ + " failed with "@ + n;
            if c.args == seq!["apt-get"@, "update"@] {
                next == seq![StepView::Say(update), StepView::Halt(Some(update))]
            } else if c.args == seq![
                "backup"@,
                "-f"@,
                in_backup_config(h, "postgres_local.toml"@),
            ] {
                next == seq![StepView::Say(local), StepView::Halt(Some(local))]
            } else {
                next == seq![StepView::Say(own), StepView::Halt(Some(own))]
            }
        },
        ActionView::Status(c) => {
            &&& c.args == seq!["apt-get"@, "dist-upgrade"@] ==> next == seq![
                StepView::Log("apt-get dist-upgrade failed with "@ + n),
            ]
            &&& c.args.len() == 3 ==> next == seq![StepView::Say("copy failed with "@ + n)]
            &&& c.args.len() == 4 ==> next == seq![
                StepView::Halt(Some("send-to-telegram failed with "@ + n)),
            ]
            &&& c.args == seq!["start"@] ==> next == seq![
                StepView::Halt(Some("dropbox failed with "@ + n)),
            ]
            &&& c.args.len() == 1 && c.args != seq!["start"@] ==> next == seq![
                StepView::Say("gzip failed with "@ + n),
            ]
        },
        _ => true,
    }
}

/// What the end of a program leads to in the basic routine.
pub open spec fn basic_reaction(h: Host, s: StepView, code: i32) -> bool {
    let n = decimal(code as int);
    let next = expand(h, s, EventView::Exit(Some(code)));
    match ask(h, s) {
        ActionView::Pipe(c) => {
            let update = "apt-get update failed with "@ + n;
            let own = "backup_app_rust postgres.toml failed with "@ + n;
            let local = "backup_app_rust postgres_local.toml failed with "@ + n;
            if c.args == seq!["apt-get"@, "update"@] {
                next == seq![StepView::Halt(Some(update))]
            } else if c.args == seq![
                "backup"@,
                "-f"@,
                in_backup_config(h, "postgres_local.toml"@),
            ] {
                next == seq![StepView::Halt(Some(local))]
            } else {
                next == seq![StepView::Halt(Some(own))]
            }
        },
        ActionView::Status(c) => {
            &&& c.args == seq!["apt-get"@, "dist-upgrade"@] ==> next == seq![
                StepView::Halt(Some("apt-get dist-upgrade failed with "@ + n)),
            ]
            &&& c.args == seq!["modprobe"@, "vboxdrv"@] ==> next == seq![
                StepView::Halt(Some("modprobe vboxdrv failed with "@ + n)),
            ]
            &&& c.args.len() == 4 ==> next == seq![
                StepView::Halt(Some("send-to-telegram failed with "@ + n)),
            ]
            &&& c.args == seq!["start"@] ==> next == seq![
                StepView::Halt(Some("dropbox failed with "@ + n)),
            ]
            &&& c.args.len() == 1 && c.args != seq!["start"@] ==> next == seq![
                StepView::Say("gzip failed with "@ + n),
            ]
        },
        _ => true,
    }
}

/// Whether a program that ends without an exit code ends the script in failure.
pub open spec fn killed_is_fatal(h: Host, s: StepView) -> bool {
    s is Run || s is Pipe ==> {
        let next = expand(h, s, EventView::Exit(None));
        next.len() == 1 && (next[0] matches StepView::Halt(outcome) && outcome is Some)
    }
}

spec fn all_full(h: Host, steps: Seq<StepView>, code: i32) -> bool {
    forall|i: int|
        0 <= i < steps.len() ==> full_reaction(h, #[trigger] steps[i], code) && killed_is_fatal(
            h,
            steps[i],
        )
}

spec fn all_basic(h: Host, steps: Seq<StepView>, code: i32) -> bool {
    forall|i: int|
        0 <= i < steps.len() ==> basic_reaction(h, #[trigger] steps[i], code) && killed_is_fatal(
            h,
            steps[i],
        )
}

proof fn lemma_all_full_adds(h: Host, a: Seq<StepView>, b: Seq<StepView>, code: i32)
    requires
        all_full(h, a, code),
        all_full(h, b, code),
    ensures
        all_full(h, a + b, code),
{
    assert forall|i: int| 0 <= i < (a + b).len() implies full_reaction(
        h,
        #[trigger] (a + b)[i],
        code,
    ) && killed_is_fatal(h, (a + b)[i]) by {
        if i < a.len() {
            assert((a + b)[i] == a[i]);
        } else {
            assert((a + b)[i] == b[i - a.len()]);
        }
    }
}

proof fn lemma_all_basic_adds(h: Host, a: Seq<StepView>, b: Seq<StepView>, code: i32)
    requires
        all_basic(h, a, code),
        all_basic(h, b, code),
    ensures
        all_basic(h, a + b, code),
{
    assert forall|i: int| 0 <= i < (a + b).len() implies basic_reaction(
        h,
        #[trigger] (a + b)[i],
        code,
    ) && killed_is_fatal(h, (a + b)[i]) by {
        if i < a.len() {
            assert((a + b)[i] == a[i]);
        } else {
            assert((a + b)[i] == b[i - a.len()]);
        }
    }
}

proof fn lemma_log_is_not_start(h: Host, leaf: Text)
    requires
        leaf.len() >= 4,
        leaf.last() == 'g',
    ensures
        seq![in_logs(h, leaf)] != seq!["start"@],
{
    reveal_strlit("start");
    let path = in_logs(h, leaf);
    assert(path.last() == 'g');
    assert("start"@.last() == 't');
    assert(seq![path][0] != seq!["start"@][0]);
}

#[verifier::spinoff_prover]
proof fn lemma_rotate_reacts(h: Host, name: Text, date: Text, missing: Text, code: i32)
    requires
        code != 0,
    ensures
        all_full(h, rotate_steps(h, name, date, missing), code),
        all_basic(h, rotate_steps(h, name, date, missing), code),
{
    reveal_strlit(".log");
    let leaf = name + "_"@ + date + ".log"@;
    assert(leaf.last() == 'g');
    lemma_log_is_not_start(h, leaf);
    let steps = rotate_steps(h, name, date, missing);
    let m = "gzip failed with "@ + decimal(code as int);
    assert(expand(h, steps[3], EventView::Exit(Some(code))) =~= seq![StepView::Say(m)]);
    assert(ask(h, steps[3]) == to_run("gzip"@, seq![in_logs(h, leaf)]));
    assert(seq![in_logs(h, leaf)].len() == 1);
}

#[verifier::spinoff_prover]
proof fn lemma_upgrade_reacts(h: Host, hostname: Text, code: i32)
    requires
        code != 0,
    ensures
        all_full(h, upgrade_steps(h, hostname), code),
        all_basic(h, basic_upgrade_steps(h, hostname), code),
{
    let n = decimal(code as int);
    let e = EventView::Exit(Some(code));
    let a = upgrade_steps(h, hostname);
    let b = basic_upgrade_steps(h, hostname);
    reveal_strlit("start");
    assert(seq!["apt-get"@, "dist-upgrade"@].len() == 2);
    assert(seq!["start"@].len() == 1);
    assert(seq!["modprobe"@, "vboxdrv"@].len() == 2);
    reveal_strlit("modprobe");
    reveal_strlit("apt-get");
    assert(seq!["modprobe"@, "vboxdrv"@][0].len() != seq!["apt-get"@, "dist-upgrade"@][0].len());
    let m = "apt-get update"@ + " failed with "@ + n;
    assert(expand(h, a[1], e) =~= seq![StepView::Say(m), StepView::Halt(Some(m))]);
    assert(expand(h, a[2], e) =~= seq![
        StepView::Halt(Some("send-to-telegram failed with "@ + n)),
    ]);
    assert(expand(h, a[3], e) =~= seq![StepView::Log("apt-get dist-upgrade failed with "@ + n)]);
    let q = "apt-get update failed with "@ + n;
    assert(expand(h, b[1], e) =~= seq![StepView::Halt(Some(q))]);
    assert(expand(h, b[2], e) =~= seq![
        StepView::Halt(Some("send-to-telegram failed with "@ + n)),
    ]);
    assert(expand(h, b[3], e) =~= seq![
        StepView::Halt(Some("apt-get dist-upgrade failed with "@ + n)),
    ]);
}

#[verifier::spinoff_prover]
proof fn lemma_rest_reacts(h: Host, hostname: Text, user: Text, missing: Text, code: i32)
    requires
        code != 0,
    ensures
        all_full(h, own_log_steps(h, user), code),
        all_full(h, dropbox_steps(h, missing), code),
        all_basic(h, dropbox_steps(h, missing), code),
        all_full(h, final_steps(h, hostname, missing), code),
        all_basic(h, final_steps(h, hostname, missing), code),
{
    let n = decimal(code as int);
    let e = EventView::Exit(Some(code));
    let a = own_log_steps(h, user);
    let b = dropbox_steps(h, missing);
    let c = final_steps(h, hostname, missing);
    assert(seq!["apt-get"@, "dist-upgrade"@].len() == 2);
    assert(seq!["start"@].len() == 1);
    assert(seq!["modprobe"@, "vboxdrv"@].len() == 2);
    assert(expand(h, a[1], e) =~= seq![StepView::Say("copy failed with "@ + n)]);
    assert(expand(h, b[1], e) =~= seq![StepView::Halt(Some("dropbox failed with "@ + n))]);
    assert(expand(h, c[0], e) =~= seq![
        StepView::Halt(Some("send-to-telegram failed with "@ + n)),
    ]);
}

proof fn lemma_other_config(h: Host)
    ensures
        in_backup_config(h, "postgres_local.toml"@) != in_backup_config(h, "postgres.toml"@),
{
    reveal_strlit("postgres_local.toml");
    reveal_strlit("postgres.toml");
    let dir = joined_path(h.config_dir@, "backup_app_rust"@);
    assert(joined_path(dir, "postgres_local.toml"@).len() != joined_path(
        dir,
        "postgres.toml"@,
    ).len());
}

#[verifier::spinoff_prover]
proof fn lemma_backup_reacts(h: Host, hostname: Text, code: i32)
    requires
        code != 0,
    ensures
        all_full(h, backup_steps(h, hostname), code),
        all_full(h, restore_steps(h, hostname), code),
        all_basic(h, basic_backup_steps(h, hostname), code),
{
    let n = decimal(code as int);
    let e = EventView::Exit(Some(code));
    let own = "backup_app_rust postgres.toml"@ + " failed with "@ + n;
    let local = "backup_app_rust postgres_local.toml"@ + " failed with "@ + n;
    let a = backup_steps(h, hostname);
    let k = a.len() - 1;
    let here = in_backup_config(h, "postgres_local.toml"@);
    let there = in_backup_config(h, "postgres.toml"@);
    lemma_other_config(h);
    assert(seq!["apt-get"@, "update"@].len() == 2);
    assert(seq!["backup"@, "-f"@, here].len() == 3);
    assert(seq!["backup"@, "-f"@, there][2] != seq!["backup"@, "-f"@, here][2]);
    assert(seq!["restore"@, "-f"@, there, "-k"@, "movie_collection_rust"@].len() == 5);
    assert(expand(h, a[k], e) =~= seq![StepView::Say(local), StepView::Halt(Some(local))]);
    let r = restore_steps(h, hostname);
    let b = basic_backup_steps(h, hostname);
    let j = b.len() - 1;
    let q1 = "backup_app_rust postgres.toml failed with "@ + n;
    let q2 = "backup_app_rust postgres_local.toml failed with "@ + n;
    assert(expand(h, b[j], e) =~= seq![StepView::Halt(Some(q2))]);
    assert(seq!["apt-get"@, "dist-upgrade"@].len() == 2);
    assert(seq!["start"@].len() == 1);
    assert(seq!["modprobe"@, "vboxdrv"@].len() == 2);
    reveal_strlit("modprobe");
    reveal_strlit("apt-get");
    assert(seq!["modprobe"@, "vboxdrv"@][0].len() != seq!["apt-get"@, "dist-upgrade"@][0].len());
    if hostname == "dilepton-tower"@ {
        assert(expand(h, a[1], e) =~= seq![StepView::Say(own), StepView::Halt(Some(own))]);
        assert(expand(h, b[2], e) =~= seq![StepView::Halt(Some(q1))]);
        assert(expand(h, b[0], e) =~= seq![
            StepView::Halt(Some("modprobe vboxdrv failed with "@ + n)),
        ]);
    } else {
        assert(expand(h, r[1], e) =~= seq![StepView::Say(own), StepView::Halt(Some(own))]);
    }
}

/// In the full routine a failure to put a log away is told, one to upgrade the packages is logged,
/// and any other ends the routine in failure. So does a program that ends without an exit code.
pub proof fn law_full_failures(
    h: Host,
    hostname: Text,
    user: Text,
    date: Text,
    i: int,
    code: i32,
)
    requires
        code != 0,
        0 <= i < full_steps(h, hostname, user, date).len(),
    ensures
        full_reaction(h, full_steps(h, hostname, user, date)[i], code),
        killed_is_fatal(h, full_steps(h, hostname, user, date)[i]),
{
    let m = "No status code 3"@;
    let s0 = seq![StepView::Say("date "@ + date)];
    let p0 = own_log_steps(h, user);
    let p1 = rotate_steps(h, "crontab"@, date, m);
    let p2 = rotate_steps(h, "crontab_aws"@, date, m);
    let p3 = rotate_steps(h, "crontab_root"@, date, m);
    let p4 = upgrade_steps(h, hostname);
    let p5 = backup_steps(h, hostname);
    let p6 = dropbox_steps(h, "No status code 7"@);
    let p7 = final_steps(h, hostname, "No status code 8"@);
    let p8 = restore_steps(h, hostname);
    lemma_rotate_reacts(h, "crontab"@, date, m, code);
    lemma_rotate_reacts(h, "crontab_aws"@, date, m, code);
    lemma_rotate_reacts(h, "crontab_root"@, date, m, code);
    lemma_upgrade_reacts(h, hostname, code);
    lemma_backup_reacts(h, hostname, code);
    lemma_rest_reacts(h, hostname, user, "No status code 7"@, code);
    lemma_rest_reacts(h, hostname, user, "No status code 8"@, code);
    assert(all_full(h, s0, code));
    lemma_all_full_adds(h, s0, p0, code);
    lemma_all_full_adds(h, s0 + p0, p1, code);
    lemma_all_full_adds(h, s0 + p0 + p1, p2, code);
    lemma_all_full_adds(h, s0 + p0 + p1 + p2, p3, code);
    lemma_all_full_adds(h, s0 + p0 + p1 + p2 + p3, p4, code);
    lemma_all_full_adds(h, s0 + p0 + p1 + p2 + p3 + p4, p5, code);
    lemma_all_full_adds(h, s0 + p0 + p1 + p2 + p3 + p4 + p5, p6, code);
    lemma_all_full_adds(h, s0 + p0 + p1 + p2 + p3 + p4 + p5 + p6, p7, code);
    lemma_all_full_adds(h, s0 + p0 + p1 + p2 + p3 + p4 + p5 + p6 + p7, p8, code);
}

/// In the basic routine a failure to pack a log is told, and any other ends the routine in failure.
pub proof fn law_basic_failures(h: Host, hostname: Text, date: Text, i: int, code: i32)
    requires
        code != 0,
        0 <= i < basic_steps(h, hostname, date).len(),
    ensures
        basic_reaction(h, basic_steps(h, hostname, date)[i], code),
        killed_is_fatal(h, basic_steps(h, hostname, date)[i]),
{
    let m = "No status code"@;
    let s0 = seq![StepView::Say("date "@ + date)];
    let p1 = rotate_steps(h, "crontab"@, date, m);
    let p2 = rotate_steps(h, "crontab_aws"@, date, m);
    let p3 = basic_upgrade_steps(h, hostname);
    let p4 = basic_backup_steps(h, hostname);
    let p5 = dropbox_steps(h, m);
    let p6 = final_steps(h, hostname, m);
    lemma_rotate_reacts(h, "crontab"@, date, m, code);
    lemma_rotate_reacts(h, "crontab_aws"@, date, m, code);
    lemma_upgrade_reacts(h, hostname, code);
    lemma_backup_reacts(h, hostname, code);
    lemma_rest_reacts(h, hostname, seq![], m, code);
    assert(all_basic(h, s0, code));
    lemma_all_basic_adds(h, s0, p1, code);
    lemma_all_basic_adds(h, s0 + p1, p2, code);
    lemma_all_basic_adds(h, s0 + p1 + p2, p3, code);
    lemma_all_basic_adds(h, s0 + p1 + p2 + p3, p4, code);
    lemma_all_basic_adds(h, s0 + p1 + p2 + p3 + p4, p5, code);
    lemma_all_basic_adds(h, s0 + p1 + p2 + p3 + p4 + p5, p6, code);
}

} // verus!
