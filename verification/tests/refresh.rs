use ddboline_scripts::action::{Action, Command, Event};
use ddboline_scripts::config::{Config, ConfigInner};
use ddboline_scripts::host::Host;
use ddboline_scripts::script::Script;
use ddboline_scripts::scripts::{authenticate, authenticate_basic};

const DATE: &str = "2024-05-06T07:08:09+02:00";

fn host() -> Host {
    Host {
        config: Config::from_inner(ConfigInner {
            send_to_telegram_path: "/bin/tele".to_string(),
            backup_app_path: "/bin/backup".to_string(),
            dropbox_path: "/bin/dropbox".to_string(),
            ..ConfigInner::default()
        }),
        home_dir: "/home/u".to_string(),
        config_dir: "/home/u/.config".to_string(),
    }
}

/// Runs a script on a host where these paths exist and these programs fail, and gives what was
/// asked for, without the questions.
fn run(
    mut script: Script,
    hostname: &str,
    existing: &[&str],
    failing: &[(&str, Option<i32>)],
) -> (Vec<Action>, Option<String>) {
    let h = host();
    let mut done = Vec::new();
    loop {
        let action = script.action(&h);
        let event = match &action {
            Action::Finish(outcome) => return (done, outcome.clone()),
            Action::Exists(p) if p == "/etc/hostname" => Event::Answer(true),
            Action::Exists(p) => Event::Answer(existing.contains(&p.as_str())),
            Action::FileLength(_) => Event::Length(hostname.len() as u64 + 1),
            Action::ReadText(_) => Event::Text(format!("{hostname}\n")),
            Action::User => Event::Text("me".to_string()),
            Action::LocalTime => Event::Text(DATE.to_string()),
            Action::Status(c) | Action::Pipe(c) => {
                let line = format!("{} {}", c.program, c.args.join(" "));
                let code = failing.iter().find(|(l, _)| line.starts_with(l));
                done.push(action);
                Event::Exit(code.map_or(Some(0), |(_, code)| *code))
            }
            _ => {
                done.push(action);
                Event::Done
            }
        };
        assert!(script.admits(&event));
        script.answer(&h, event);
    }
}

fn say(s: &str) -> Action {
    Action::Say(s.to_string())
}

fn command(line: &[&str]) -> Command {
    Command {
        program: line[0].to_string(),
        args: line[1..].iter().map(|a| a.to_string()).collect(),
        dir: None,
    }
}

fn status(line: &[&str]) -> Action {
    Action::Status(command(line))
}

fn pipe(line: &[&str]) -> Action {
    Action::Pipe(command(line))
}

const ALL: [&str; 6] = [
    "/home/u/log/crontab.log",
    "/home/u/log/crontab_aws.log",
    "/home/u/log/crontab_root.log",
    "/home/u/.config/backup_app_rust/postgres.toml",
    "/home/u/.config/backup_app_rust/postgres_local.toml",
    "/bin/dropbox",
];

fn rotated(name: &str) -> Vec<Action> {
    let from = format!("/home/u/log/{name}.log");
    let to = format!("/home/u/log/{name}_{DATE}.log");
    vec![
        say(&format!("mv/gzip {from:?} {to:?}")),
        Action::Rename { from, to: to.clone() },
        status(&["gzip", &to]),
    ]
}

#[test]
fn the_host_that_keeps_the_databases() {
    let (done, outcome) = run(authenticate(), "dilepton-tower", &ALL, &[]);
    assert_eq!(outcome, None);
    let mut expected = vec![
        say("hostname dilepton-tower"),
        say(&format!("date {DATE}")),
        status(&["sudo", "chown", "me:me", "/home/u/log/crontab_root.log"]),
    ];
    expected.extend(rotated("crontab"));
    expected.extend(rotated("crontab_aws"));
    expected.extend(rotated("crontab_root"));
    expected.extend([
        say("sudo apt-get update"),
        pipe(&["sudo", "apt-get", "update"]),
        status(&["/bin/tele", "-r", "ddboline", "-m", "dilepton-tower has updated"]),
        status(&["sudo", "apt-get", "dist-upgrade"]),
        pipe(&["/bin/backup", "backup", "-f", ALL[3]]),
        pipe(&["/bin/backup", "backup", "-f", ALL[4]]),
        status(&["/bin/dropbox", "start"]),
        status(&["/bin/tele", "-r", "ddboline", "-m", "dilepton-tower has finished"]),
        Action::UpdateRepos,
    ]);
    assert_eq!(done, expected);
}

#[test]
fn another_host_restores() {
    let (done, outcome) = run(authenticate(), "laptop", &ALL, &[]);
    assert_eq!(outcome, None);
    assert!(!done.contains(&pipe(&["/bin/backup", "backup", "-f", ALL[3]])));
    assert_eq!(
        done[done.len() - 5..],
        [
            pipe(&["/bin/backup", "backup", "-f", ALL[4]]),
            status(&["/bin/dropbox", "start"]),
            status(&["/bin/tele", "-r", "ddboline", "-m", "laptop has finished"]),
            Action::UpdateRepos,
            pipe(&["/bin/backup", "restore", "-f", ALL[3], "-k", "movie_collection_rust"]),
        ]
    );
}

#[test]
fn a_bare_host() {
    let (done, outcome) = run(authenticate(), "laptop", &[], &[]);
    assert_eq!(outcome, None);
    assert_eq!(
        done,
        [
            say("hostname laptop"),
            say(&format!("date {DATE}")),
            say("sudo apt-get update"),
            pipe(&["sudo", "apt-get", "update"]),
            status(&["/bin/tele", "-r", "ddboline", "-m", "laptop has updated"]),
            status(&["sudo", "apt-get", "dist-upgrade"]),
            status(&["/bin/tele", "-r", "ddboline", "-m", "laptop has finished"]),
            Action::UpdateRepos,
        ]
    );
}

#[test]
fn failures_that_are_told() {
    let (done, outcome) = run(
        authenticate(),
        "laptop",
        &ALL,
        &[("sudo chown", Some(1)), ("gzip", Some(2)), ("sudo apt-get dist-upgrade", Some(100))],
    );
    assert_eq!(outcome, None);
    assert!(done.contains(&say("copy failed with 1")));
    assert_eq!(done.iter().filter(|a| **a == say("gzip failed with 2")).count(), 3);
    assert!(done.contains(&Action::Log("apt-get dist-upgrade failed with 100".to_string())));
}

#[test]
fn failures_that_end_the_routine() {
    for (line, code, message) in [
        ("sudo chown", None, "No status code 2"),
        ("gzip", None, "No status code 3"),
        ("sudo apt-get update", Some(100), "apt-get update failed with 100"),
        ("sudo apt-get update", None, "No status code 0 apt-get update"),
        ("/bin/tele -r ddboline -m laptop has updated", Some(1), "send-to-telegram failed with 1"),
        ("/bin/tele -r ddboline -m laptop has updated", None, "No status code 4"),
        ("sudo apt-get dist-upgrade", None, "No status code 5"),
        ("/bin/backup backup", Some(5), "backup_app_rust postgres_local.toml failed with 5"),
        ("/bin/dropbox", Some(6), "dropbox failed with 6"),
        ("/bin/dropbox", None, "No status code 7"),
        ("/bin/tele -r ddboline -m laptop has finished", Some(1), "send-to-telegram failed with 1"),
        ("/bin/tele -r ddboline -m laptop has finished", None, "No status code 8"),
        ("/bin/backup restore", Some(7), "backup_app_rust postgres.toml failed with 7"),
    ] {
        let (_, outcome) = run(authenticate(), "laptop", &ALL, &[(line, code)]);
        assert_eq!(outcome.as_deref(), Some(message));
    }
}

#[test]
fn the_basic_routine() {
    let (done, outcome) = run(authenticate_basic(), "dilepton-tower", &ALL, &[]);
    assert_eq!(outcome, None);
    let mut expected = vec![say("hostname dilepton-tower"), say(&format!("date {DATE}"))];
    expected.extend(rotated("crontab"));
    expected.extend(rotated("crontab_aws"));
    expected.extend([
        say("sudo apt-get update"),
        pipe(&["sudo", "apt-get", "update"]),
        status(&["/bin/tele", "-r", "ddboline", "-m", "dilepton-tower has updated"]),
        status(&["sudo", "apt-get", "dist-upgrade"]),
        status(&["sudo", "modprobe", "vboxdrv"]),
        pipe(&["/bin/backup", "backup", "-f", ALL[3]]),
        pipe(&["/bin/backup", "backup", "-f", ALL[4]]),
        status(&["/bin/dropbox", "start"]),
        status(&["/bin/tele", "-r", "ddboline", "-m", "dilepton-tower has finished"]),
        Action::UpdateRepos,
    ]);
    assert_eq!(done, expected);
}

#[test]
fn failures_of_the_basic_routine() {
    for (line, code, message) in [
        ("gzip", None, "No status code"),
        ("sudo apt-get update", Some(100), "apt-get update failed with 100"),
        ("sudo apt-get dist-upgrade", Some(100), "apt-get dist-upgrade failed with 100"),
        ("sudo modprobe", Some(1), "modprobe vboxdrv failed with 1"),
        ("/bin/backup backup", Some(5), "backup_app_rust postgres.toml failed with 5"),
        ("/bin/dropbox", Some(6), "dropbox failed with 6"),
        ("/bin/tele", None, "No status code"),
    ] {
        let (_, outcome) = run(authenticate_basic(), "dilepton-tower", &ALL, &[(line, code)]);
        assert_eq!(outcome.as_deref(), Some(message));
    }
}

#[test]
fn without_a_user_there_is_no_refresh() {
    let h = host();
    let mut script = authenticate();
    script.answer(&h, Event::Answer(false));
    script.answer(&h, Event::Done);
    assert_eq!(script.action(&h), Action::User);
    script.answer(&h, Event::Failed("environment variable not found".to_string()));
    assert_eq!(
        script.action(&h),
        Action::Finish(Some("environment variable not found".to_string()))
    );
}
