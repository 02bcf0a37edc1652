//! The refresh of a host: its logs are put away, its packages brought up to date, its databases
//! backed up, and its repositories brought up to date.

use vstd::prelude::*;

use crate::action::{Action, ActionView, Command, CommandView, Event, EventView};
use crate::host::Host;
use crate::outside::{path_shown, show_path};
use crate::path::{join_path, joined_path};
use crate::program::{
    args1, args2, args3, args5, command, failure, new_failure, pipe, pipe_step, run, run_step,
    send_message, telegram_step,
};
use crate::step::{
    chain, step_views, Notice, RefreshStep, RefreshStepView, Routine, Step, StepView, Verdict,
};
use crate::text::{cat, cat3, text_eq, Text};

verus! {

// ---------------------------------------------------------------------------
// Logs
// ---------------------------------------------------------------------------

/// The directory of the logs.
pub open spec fn log_dir(h: Host) -> Text {
    joined_path(h.home_dir@, "log"@)
}

/// Where the log `name` is.
pub open spec fn log_path(h: Host, name: Text) -> Text {
    joined_path(log_dir(h), name + ".log"@)
}

/// Where the log `name` is put away on `date`.
pub open spec fn dated_log_path(h: Host, name: Text, date: Text) -> Text {
    joined_path(log_dir(h), name + "_"@ + date + ".log"@)
}

/// The steps that put the log `name` away, if it is there.
pub open spec fn rotate_steps(h: Host, name: Text, date: Text, missing: Text) -> Seq<StepView> {
    let old_path = log_path(h, name);
    let new_path = dated_log_path(h, name, date);
    seq![
        StepView::Guard { path: old_path, span: 3 },
        StepView::Say("mv/gzip "@ + path_shown(old_path) + " "@ + path_shown(new_path)),
        StepView::Rename { from: old_path, to: new_path },
        run_step(
            command("gzip"@, seq![new_path]),
            failure(missing, "gzip failed with "@, Notice::Say, Verdict::Continue),
        ),
    ]
}

/// The steps that give the log of the superuser to the user, if it is there.
pub open spec fn own_log_steps(h: Host, user: Text) -> Seq<StepView> {
    let path = log_path(h, "crontab_root"@);
    seq![
        StepView::Guard { path, span: 1 },
        run_step(
            command("sudo"@, seq!["chown"@, user + ":"@ + user, path]),
            failure("No status code 2"@, "copy failed with "@, Notice::Say, Verdict::Continue),
        ),
    ]
}

fn log_file(host: &Host, name: &str) -> (r: String)
    ensures
        r@ == log_path(*host, name@),
{
    let dir: String = join_path(host.home_dir.as_str(), "log");
    let file: String = cat(name, ".log");
    join_path(dir.as_str(), file.as_str())
}

fn dated_log_file(host: &Host, name: &str, date: &str) -> (r: String)
    ensures
        r@ == dated_log_path(*host, name@, date@),
{
    let dir: String = join_path(host.home_dir.as_str(), "log");
    let stem: String = cat3(name, "_", date);
    let file: String = cat(stem.as_str(), ".log");
    join_path(dir.as_str(), file.as_str())
}

fn rotate(host: &Host, name: &str, date: &str, missing: &str) -> (r: Vec<Step>)
    ensures
        step_views(r@) == rotate_steps(*host, name@, date@, missing@),
{
    let old_path: String = log_file(host, name);
    let new_path: String = dated_log_file(host, name, date);
    let old_shown: String = show_path(old_path.as_str());
    let new_shown: String = show_path(new_path.as_str());
    let moved: String = cat3("mv/gzip ", old_shown.as_str(), " ");
    let zip: Command = Command::new("gzip", args1(new_path.as_str()));
    let out: Vec<Step> = vec![
        Step::Guard { path: old_path.clone(), span: 3 },
        Step::Say(cat(moved.as_str(), new_shown.as_str())),
        Step::Rename { from: old_path, to: new_path },
        run(zip, new_failure(missing, "gzip failed with ", Notice::Say, Verdict::Continue)),
    ];
    proof {
        assert(step_views(out@) =~= rotate_steps(*host, name@, date@, missing@));
    }
    out
}

fn own_log(host: &Host, user: &str) -> (r: Vec<Step>)
    ensures
        step_views(r@) == own_log_steps(*host, user@),
{
    let path: String = log_file(host, "crontab_root");
    let owner: String = cat3(user, ":", user);
    let chown: Command = Command::new("sudo", args3("chown", owner.as_str(), path.as_str()));
    let out: Vec<Step> = vec![
        Step::Guard { path, span: 1 },
        run(
            chown,
            new_failure("No status code 2", "copy failed with ", Notice::Say, Verdict::Continue),
        ),
    ];
    proof {
        assert(step_views(out@) =~= own_log_steps(*host, user@));
    }
    out
}

// ---------------------------------------------------------------------------
// Databases
// ---------------------------------------------------------------------------

/// Where a description of databases for the backup program is.
pub open spec fn backup_config(h: Host, name: Text) -> Text {
    joined_path(joined_path(h.config_dir@, "backup_app_rust"@), name)
}

/// The command that backs databases up.
pub open spec fn backup(h: Host, name: Text) -> CommandView {
    command(h.config.inner().backup_app_path@, seq!["backup"@, "-f"@, backup_config(h, name)])
}

/// The command that restores databases.
pub open spec fn restore(h: Host, name: Text) -> CommandView {
    command(
        h.config.inner().backup_app_path@,
        seq!["restore"@, "-f"@, backup_config(h, name), "-k"@, "movie_collection_rust"@],
    )
}

fn backup_file(host: &Host, name: &str) -> (r: String)
    ensures
        r@ == backup_config(*host, name@),
{
    let dir: String = join_path(host.config_dir.as_str(), "backup_app_rust");
    join_path(dir.as_str(), name)
}

fn backup_command(host: &Host, name: &str) -> (r: Command)
    ensures
        r@ == backup(*host, name@),
{
    let path: String = backup_file(host, name);
    Command::new(
        host.config.get().backup_app_path.as_str(),
        args3("backup", "-f", path.as_str()),
    )
}

fn restore_command(host: &Host, name: &str) -> (r: Command)
    ensures
        r@ == restore(*host, name@),
{
    let path: String = backup_file(host, name);
    Command::new(
        host.config.get().backup_app_path.as_str(),
        args5("restore", "-f", path.as_str(), "-k", "movie_collection_rust"),
    )
}

/// The steps that take `step` only where the description `name` exists.
pub open spec fn with_config(h: Host, name: Text, step: StepView) -> Seq<StepView> {
    seq![StepView::Guard { path: backup_config(h, name), span: 1 }, step]
}

fn only_with_config(host: &Host, name: &str, step: Step) -> (r: Vec<Step>)
    ensures
        step_views(r@) == with_config(*host, name@, step@),
{
    let out: Vec<Step> = vec![Step::Guard { path: backup_file(host, name), span: 1 }, step];
    proof {
        assert(step_views(out@) =~= with_config(*host, name@, step@));
    }
    out
}

// ---------------------------------------------------------------------------
// The routines
// ---------------------------------------------------------------------------

/// The host that keeps the databases. It is backed up; all others are restored from it.
pub open spec fn keeps_databases(hostname: Text) -> bool {
    hostname == "dilepton-tower"@
}

/// A step that ends the script in silence where its program fails.
pub open spec fn strict(command: CommandView, missing: Text, prefix: Text) -> StepView {
    run_step(command, failure(missing, prefix, Notice::Quiet, Verdict::Fail))
}

/// The same with a program whose output is passed on.
pub open spec fn strict_pipe(command: CommandView, missing: Text, prefix: Text) -> StepView {
    StepView::Pipe {
        command,
        on_failure: Some(failure(missing, prefix, Notice::Quiet, Verdict::Fail)),
    }
}

fn new_strict(command: Command, missing: &str, prefix: &str) -> (r: Step)
    ensures
        r@ == strict(command@, missing@, prefix@),
{
    run(command, new_failure(missing, prefix, Notice::Quiet, Verdict::Fail))
}

fn new_strict_pipe(command: Command, missing: &str, prefix: &str) -> (r: Step)
    ensures
        r@ == strict_pipe(command@, missing@, prefix@),
{
    Step::Pipe {
        command,
        on_failure: Some(new_failure(missing, prefix, Notice::Quiet, Verdict::Fail)),
    }
}

/// The steps that start the file synchronisation, if it is there.
pub open spec fn dropbox_steps(h: Host, missing: Text) -> Seq<StepView> {
    let path = h.config.inner().dropbox_path@;
    seq![
        StepView::Guard { path, span: 1 },
        strict(command(path, seq!["start"@]), missing, "dropbox failed with "@),
    ]
}

fn start_dropbox(host: &Host, missing: &str) -> (r: Vec<Step>)
    ensures
        step_views(r@) == dropbox_steps(*host, missing@),
{
    let start: Command = Command::new(host.config.get().dropbox_path.as_str(), args1("start"));
    let out: Vec<Step> = vec![
        Step::Guard { path: host.config.get().dropbox_path.clone(), span: 1 },
        new_strict(start, missing, "dropbox failed with "),
    ];
    proof {
        assert(step_views(out@) =~= dropbox_steps(*host, missing@));
    }
    out
}

/// The steps of the full routine that bring the packages up to date. That they could not all be
/// upgraded is logged, and nothing more.
pub open spec fn upgrade_steps(h: Host, hostname: Text) -> Seq<StepView> {
    seq![
        StepView::Say("sudo apt-get update"@),
        pipe_step(command("sudo"@, seq!["apt-get"@, "update"@]), "apt-get update"@),
        telegram_step(h, hostname + " has updated"@, "No status code 4"@),
        run_step(
            command("sudo"@, seq!["apt-get"@, "dist-upgrade"@]),
            failure(
                "No status code 5"@,
                "apt-get dist-upgrade failed with "@,
                Notice::Log,
                Verdict::Continue,
            ),
        ),
    ]
}

/// The steps of the full routine that take the backups.
pub open spec fn backup_steps(h: Host, hostname: Text) -> Seq<StepView> {
    (if keeps_databases(hostname) {
        with_config(
            h,
            "postgres.toml"@,
            pipe_step(backup(h, "postgres.toml"@), "backup_app_rust postgres.toml"@),
        )
    } else {
        seq![]
    }) + with_config(
        h,
        "postgres_local.toml"@,
        pipe_step(backup(h, "postgres_local.toml"@), "backup_app_rust postgres_local.toml"@),
    )
}

/// The steps of the full routine that restore what was backed up elsewhere.
pub open spec fn restore_steps(h: Host, hostname: Text) -> Seq<StepView> {
    if keeps_databases(hostname) {
        seq![]
    } else {
        with_config(
            h,
            "postgres.toml"@,
            pipe_step(restore(h, "postgres.toml"@), "backup_app_rust postgres.toml"@),
        )
    }
}

/// The last steps of a routine, but for what is restored.
pub open spec fn final_steps(h: Host, hostname: Text, missing: Text) -> Seq<StepView> {
    seq![telegram_step(h, hostname + " has finished"@, missing), StepView::UpdateRepos]
}

/// The steps of the full routine, once the host, the user and the local time are known.
pub open spec fn full_steps(h: Host, hostname: Text, user: Text, date: Text) -> Seq<StepView> {
    seq![StepView::Say("date "@ + date)] + own_log_steps(h, user) + rotate_steps(
        h,
        "crontab"@,
        date,
        "No status code 3"@,
    ) + rotate_steps(h, "crontab_aws"@, date, "No status code 3"@) + rotate_steps(
        h,
        "crontab_root"@,
        date,
        "No status code 3"@,
    ) + upgrade_steps(h, hostname) + backup_steps(h, hostname) + dropbox_steps(
        h,
        "No status code 7"@,
    ) + final_steps(h, hostname, "No status code 8"@) + restore_steps(h, hostname)
}

/// The steps of the basic routine that bring the packages up to date.
pub open spec fn basic_upgrade_steps(h: Host, hostname: Text) -> Seq<StepView> {
    seq![
        StepView::Say("sudo apt-get update"@),
        strict_pipe(
            command("sudo"@, seq!["apt-get"@, "update"@]),
            "No status code"@,
            "apt-get update failed with "@,
        ),
        telegram_step(h, hostname + " has updated"@, "No status code"@),
        strict(
            command("sudo"@, seq!["apt-get"@, "dist-upgrade"@]),
            "No status code"@,
            "apt-get dist-upgrade failed with "@,
        ),
    ]
}

/// The steps of the basic routine that take the backups.
pub open spec fn basic_backup_steps(h: Host, hostname: Text) -> Seq<StepView> {
    (if keeps_databases(hostname) {
        seq![
            strict(
                command("sudo"@, seq!["modprobe"@, "vboxdrv"@]),
                "No status code"@,
                "modprobe vboxdrv failed with "@,
            ),
        ] + with_config(
            h,
            "postgres.toml"@,
            strict_pipe(
                backup(h, "postgres.toml"@),
                "No status code"@,
                "backup_app_rust postgres.toml failed with "@,
            ),
        )
    } else {
        seq![]
    }) + with_config(
        h,
        "postgres_local.toml"@,
        strict_pipe(
            backup(h, "postgres_local.toml"@),
            "No status code"@,
            "backup_app_rust postgres_local.toml failed with "@,
        ),
    )
}

/// The steps of the basic routine, once the host and the local time are known. It leaves the log
/// of the superuser alone, and restores nothing.
pub open spec fn basic_steps(h: Host, hostname: Text, date: Text) -> Seq<StepView> {
    seq![StepView::Say("date "@ + date)] + rotate_steps(
        h,
        "crontab"@,
        date,
        "No status code"@,
    ) + rotate_steps(h, "crontab_aws"@, date, "No status code"@) + basic_upgrade_steps(
        h,
        hostname,
    ) + basic_backup_steps(h, hostname) + dropbox_steps(h, "No status code"@) + final_steps(
        h,
        hostname,
        "No status code"@,
    )
}

fn upgrade(host: &Host, hostname: &str) -> (r: Vec<Step>)
    ensures
        step_views(r@) == upgrade_steps(*host, hostname@),
{
    let message: String = cat(hostname, " has updated");
    let out: Vec<Step> = vec![
        Step::Say("sudo apt-get update".to_string()),
        pipe(Command::new("sudo", args2("apt-get", "update")), "apt-get update"),
        send_message(host, message.as_str(), "No status code 4"),
        run(
            Command::new("sudo", args2("apt-get", "dist-upgrade")),
            new_failure(
                "No status code 5",
                "apt-get dist-upgrade failed with ",
                Notice::Log,
                Verdict::Continue,
            ),
        ),
    ];
    proof {
        assert(step_views(out@) =~= upgrade_steps(*host, hostname@));
    }
    out
}

fn basic_upgrade(host: &Host, hostname: &str) -> (r: Vec<Step>)
    ensures
        step_views(r@) == basic_upgrade_steps(*host, hostname@),
{
    let message: String = cat(hostname, " has updated");
    let out: Vec<Step> = vec![
        Step::Say("sudo apt-get update".to_string()),
        new_strict_pipe(
            Command::new("sudo", args2("apt-get", "update")),
            "No status code",
            "apt-get update failed with ",
        ),
        send_message(host, message.as_str(), "No status code"),
        new_strict(
            Command::new("sudo", args2("apt-get", "dist-upgrade")),
            "No status code",
            "apt-get dist-upgrade failed with ",
        ),
    ];
    proof {
        assert(step_views(out@) =~= basic_upgrade_steps(*host, hostname@));
    }
    out
}

fn back_up(host: &Host, hostname: &str) -> (r: Vec<Step>)
    ensures
        step_views(r@) == backup_steps(*host, hostname@),
{
    let own: Vec<Step> = if text_eq(hostname, "dilepton-tower") {
        only_with_config(
            host,
            "postgres.toml",
            pipe(backup_command(host, "postgres.toml"), "backup_app_rust postgres.toml"),
        )
    } else {
        Vec::new()
    };
    let local: Vec<Step> = only_with_config(
        host,
        "postgres_local.toml",
        pipe(backup_command(host, "postgres_local.toml"), "backup_app_rust postgres_local.toml"),
    );
    let out: Vec<Step> = chain(own, local);
    proof {
        assert(step_views(out@) =~= backup_steps(*host, hostname@));
    }
    out
}

fn basic_back_up(host: &Host, hostname: &str) -> (r: Vec<Step>)
    ensures
        step_views(r@) == basic_backup_steps(*host, hostname@),
{
    let own: Vec<Step> = if text_eq(hostname, "dilepton-tower") {
        let load: Vec<Step> = vec![
            new_strict(
                Command::new("sudo", args2("modprobe", "vboxdrv")),
                "No status code",
                "modprobe vboxdrv failed with ",
            ),
        ];
        let save: Vec<Step> = only_with_config(
            host,
            "postgres.toml",
            new_strict_pipe(
                backup_command(host, "postgres.toml"),
                "No status code",
                "backup_app_rust postgres.toml failed with ",
            ),
        );
        chain(load, save)
    } else {
        Vec::new()
    };
    let local: Vec<Step> = only_with_config(
        host,
        "postgres_local.toml",
        new_strict_pipe(
            backup_command(host, "postgres_local.toml"),
            "No status code",
            "backup_app_rust postgres_local.toml failed with ",
        ),
    );
    let out: Vec<Step> = chain(own, local);
    proof {
        assert(step_views(out@) =~= basic_backup_steps(*host, hostname@));
    }
    out
}

fn restore_from(host: &Host, hostname: &str) -> (r: Vec<Step>)
    ensures
        step_views(r@) == restore_steps(*host, hostname@),
{
    let out: Vec<Step> = if text_eq(hostname, "dilepton-tower") {
        Vec::new()
    } else {
        only_with_config(
            host,
            "postgres.toml",
            pipe(restore_command(host, "postgres.toml"), "backup_app_rust postgres.toml"),
        )
    };
    proof {
        assert(step_views(out@) =~= restore_steps(*host, hostname@));
    }
    out
}

fn end_routine(host: &Host, hostname: &str, missing: &str) -> (r: Vec<Step>)
    ensures
        step_views(r@) == final_steps(*host, hostname@, missing@),
{
    let message: String = cat(hostname, " has finished");
    let out: Vec<Step> = vec![send_message(host, message.as_str(), missing), Step::UpdateRepos];
    proof {
        assert(step_views(out@) =~= final_steps(*host, hostname@, missing@));
    }
    out
}

fn say_date(date: &str) -> (r: Vec<Step>)
    ensures
        step_views(r@) == seq![StepView::Say("date "@ + date@)],
{
    let out: Vec<Step> = vec![Step::Say(cat("date ", date))];
    proof {
        assert(step_views(out@) =~= seq![StepView::Say("date "@ + date@)]);
    }
    out
}

/// The steps of the full routine, once the host, the user and the local time are known.
pub fn full_routine(host: &Host, hostname: &str, user: &str, date: &str) -> (r: Vec<Step>)
    ensures
        step_views(r@) == full_steps(*host, hostname@, user@, date@),
{
    let out: Vec<Step> = chain(say_date(date), own_log(host, user));
    let out: Vec<Step> = chain(out, rotate(host, "crontab", date, "No status code 3"));
    let out: Vec<Step> = chain(out, rotate(host, "crontab_aws", date, "No status code 3"));
    let out: Vec<Step> = chain(out, rotate(host, "crontab_root", date, "No status code 3"));
    let out: Vec<Step> = chain(out, upgrade(host, hostname));
    let out: Vec<Step> = chain(out, back_up(host, hostname));
    let out: Vec<Step> = chain(out, start_dropbox(host, "No status code 7"));
    let out: Vec<Step> = chain(out, end_routine(host, hostname, "No status code 8"));
    chain(out, restore_from(host, hostname))
}

/// The steps of the basic routine, once the host and the local time are known.
pub fn basic_routine(host: &Host, hostname: &str, date: &str) -> (r: Vec<Step>)
    ensures
        step_views(r@) == basic_steps(*host, hostname@, date@),
{
    let out: Vec<Step> = chain(say_date(date), rotate(host, "crontab", date, "No status code"));
    let out: Vec<Step> = chain(out, rotate(host, "crontab_aws", date, "No status code"));
    let out: Vec<Step> = chain(out, basic_upgrade(host, hostname));
    let out: Vec<Step> = chain(out, basic_back_up(host, hostname));
    let out: Vec<Step> = chain(out, start_dropbox(host, "No status code"));
    chain(out, end_routine(host, hostname, "No status code"))
}

// ---------------------------------------------------------------------------
// The steps
// ---------------------------------------------------------------------------

/// The steps that follow once the name of the host is known.
pub open spec fn hostname_steps(routine: Routine, hostname: Text) -> Seq<StepView> {
    seq![
        StepView::Say("hostname "@ + hostname),
        StepView::Refresh(
            match routine {
                Routine::Full => RefreshStepView::User { hostname },
                Routine::Basic => RefreshStepView::Basic { hostname },
            },
        ),
    ]
}

/// The steps that follow once the name of the host is known.
pub fn after_hostname(routine: Routine, hostname: String) -> (r: Vec<Step>)
    ensures
        step_views(r@) == hostname_steps(routine, hostname@),
{
    let said: String = cat("hostname ", hostname.as_str());
    let ghost name = hostname@;
    let next: RefreshStep = match routine {
        Routine::Full => RefreshStep::User { hostname },
        Routine::Basic => RefreshStep::Basic { hostname },
    };
    let out: Vec<Step> = vec![Step::Say(said), Step::Refresh(next)];
    proof {
        assert(step_views(out@) =~= hostname_steps(routine, name));
    }
    out
}

/// What a step of a refresh asks for.
pub open spec fn refresh_ask(s: RefreshStepView) -> ActionView {
    match s {
        RefreshStepView::User { .. } => ActionView::User,
        RefreshStepView::Full { .. } | RefreshStepView::Basic { .. } => ActionView::LocalTime,
    }
}

/// Whether an event answers a step of a refresh.
pub open spec fn refresh_accepts(s: RefreshStepView, e: EventView) -> bool {
    e is Text
}

/// The steps that follow from the answer to a step of a refresh.
pub open spec fn refresh_expand(h: Host, s: RefreshStepView, e: EventView) -> Seq<StepView> {
    match (s, e) {
        (RefreshStepView::User { hostname }, EventView::Text(user)) => seq![
            StepView::Refresh(RefreshStepView::Full { hostname, user }),
        ],
        (RefreshStepView::Full { hostname, user }, EventView::Text(date)) => full_steps(
            h,
            hostname,
            user,
            date,
        ),
        (RefreshStepView::Basic { hostname }, EventView::Text(date)) => basic_steps(
            h,
            hostname,
            date,
        ),
        _ => seq![],
    }
}

/// What a step of a refresh asks for.
pub fn refresh_action(s: &RefreshStep) -> (r: Action)
    ensures
        r@ == refresh_ask(s@),
{
    match s {
        RefreshStep::User { .. } => Action::User,
        RefreshStep::Full { .. } | RefreshStep::Basic { .. } => Action::LocalTime,
    }
}

/// Whether an event answers a step of a refresh.
pub fn refresh_admits(s: &RefreshStep, e: &Event) -> (r: bool)
    ensures
        r == refresh_accepts(s@, e@),
{
    matches!(e, Event::Text(_))
}

/// The steps that follow from the answer to a step of a refresh.
pub fn refresh_next(host: &Host, s: RefreshStep, e: Event) -> (r: Vec<Step>)
    requires
        refresh_accepts(s@, e@),
    ensures
        step_views(r@) == refresh_expand(*host, s@, e@),
{
    let ghost expected = refresh_expand(*host, s@, e@);
    let out: Vec<Step> = match (s, e) {
        (RefreshStep::User { hostname }, Event::Text(user)) => {
            vec![Step::Refresh(RefreshStep::Full { hostname, user })]
        },
        (RefreshStep::Full { hostname, user }, Event::Text(date)) => full_routine(
            host,
            hostname.as_str(),
            user.as_str(),
            date.as_str(),
        ),
        (RefreshStep::Basic { hostname }, Event::Text(date)) => basic_routine(
            host,
            hostname.as_str(),
            date.as_str(),
        ),
        _ => Vec::new(),
    };
    proof {
        assert(step_views(out@) =~= expected);
    }
    out
}

} // verus!
