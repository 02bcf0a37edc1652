use ddboline_scripts::action::{Action, Command, Event};
use ddboline_scripts::config::{Config, ConfigInner};
use ddboline_scripts::first_line::first_line_of;
use ddboline_scripts::git::{choose_branch, update_outcome, update_repos};
use ddboline_scripts::host::Host;
use ddboline_scripts::program::{after_exit, new_failure, process_child, process_reader};
use ddboline_scripts::script::Script;
use ddboline_scripts::scripts::{authenticate, process_git_directory};
use ddboline_scripts::step::{Notice, Step, Verdict};

fn host() -> Host {
    Host {
        config: Config::from_inner(ConfigInner {
            workspace_repos: vec!["one".to_string(), "two".to_string()],
            workspace_path: "/w".to_string(),
            setup_files_repos: vec!["three".to_string()],
            setup_files_path: "/s/build".to_string(),
            ..ConfigInner::default()
        }),
        home_dir: "/home/u".to_string(),
        config_dir: "/home/u/.config".to_string(),
    }
}

fn say(s: &str) -> Step {
    Step::Say(s.to_string())
}

fn git(args: &[&str]) -> Command {
    Command {
        program: "git".to_string(),
        args: args.iter().map(|a| a.to_string()).collect(),
        dir: Some("/w/one".to_string()),
    }
}

/// Answers each action with the next event and gives the actions.
fn play(script: &mut Script, events: Vec<Event>) -> Vec<Action> {
    let h = host();
    let mut asked = Vec::new();
    for event in events {
        asked.push(script.action(&h));
        assert!(script.admits(&event), "{event:?} to {:?}", asked.last());
        script.answer(&h, event);
    }
    asked.push(script.action(&h));
    asked
}

/// Reads the first line of a file with this text, and gives it.
fn first_line(text: &str) -> String {
    let line_end = text.find('\n').map_or(text.len(), |i| i + 1);
    let mut script = authenticate();
    let read = if text.len() < 1024 { text } else { &text[..line_end] };
    let asked = play(
        &mut script,
        vec![
            Event::Answer(true),
            Event::Length(text.len() as u64),
            Event::Text(read.to_string()),
        ],
    );
    assert_eq!(asked[0], Action::Exists("/etc/hostname".to_string()));
    assert_eq!(asked[1], Action::FileLength("/etc/hostname".to_string()));
    if text.len() < 1024 {
        assert_eq!(asked[2], Action::ReadText("/etc/hostname".to_string()));
    } else {
        assert_eq!(asked[2], Action::ReadLine("/etc/hostname".to_string()));
    }
    match &asked[3] {
        Action::Say(said) => said.strip_prefix("hostname ").unwrap().to_string(),
        other => panic!("{other:?}"),
    }
}

#[test]
fn test_get_first_line_of_file() {
    let license = "MIT License\n\nPermission is hereby granted, free of charge, to any person\n";
    assert!(license.len() < 1024);

    let buf = first_line(license);

    assert_eq!(buf, "MIT License");
    assert_eq!(first_line(&license.repeat(20)), "MIT License");
}

#[test]
fn first_lines() {
    for (text, line) in [
        ("", ""),
        ("host", "host"),
        ("host\n", "host"),
        (" \thost \r\nmore", "host"),
        ("\nhost", ""),
    ] {
        assert_eq!(first_line_of(text), line);
        assert_eq!(first_line(text), line);
        let long = format!("{text}\n{}", "x".repeat(2000));
        assert_eq!(first_line(&long), line);
        assert_eq!(first_line_of(&long), line);
    }
}

#[test]
fn first_line_of_a_missing_file() {
    let asked = play(&mut authenticate(), vec![Event::Answer(false)]);
    assert_eq!(asked[1], Action::Say("hostname ".to_string()));
    let asked = play(
        &mut authenticate(),
        vec![Event::Answer(true), Event::Length(1024), Event::NotOpened],
    );
    assert_eq!(asked[3], Action::Say("hostname ".to_string()));
}

#[test]
fn length_decides_how_a_file_is_read() {
    let asked = play(&mut authenticate(), vec![Event::Answer(true), Event::Length(1023)]);
    assert_eq!(asked[2], Action::ReadText("/etc/hostname".to_string()));
    let asked = play(&mut authenticate(), vec![Event::Answer(true), Event::Length(1024)]);
    assert_eq!(asked[2], Action::ReadLine("/etc/hostname".to_string()));
}

#[test]
fn a_guard_leaves_steps_out() {
    let steps = || {
        vec![
            Step::Guard { path: "/p".to_string(), span: 2 },
            say("a"),
            say("b"),
            say("c"),
        ]
    };
    let asked = play(&mut Script::new(steps()), vec![Event::Answer(true), Event::Done]);
    assert_eq!(asked[1..], [Action::Say("a".to_string()), Action::Say("b".to_string())]);
    let asked = play(&mut Script::new(steps()), vec![Event::Answer(false), Event::Done]);
    assert_eq!(asked[1..], [Action::Say("c".to_string()), Action::Finish(None)]);
    let far = vec![Step::Guard { path: "/p".to_string(), span: usize::MAX }, say("a")];
    let asked = play(&mut Script::new(far), vec![Event::Answer(false)]);
    assert_eq!(asked[1], Action::Finish(None));
}

#[test]
fn what_cannot_be_done_ends_a_script() {
    let mut script = Script::new(vec![say("a"), say("b")]);
    let asked = play(&mut script, vec![Event::Failed("no output".to_string())]);
    assert_eq!(asked[1], Action::Finish(Some("no output".to_string())));
    assert!(script.is_finished());
    assert!(!script.admits(&Event::Done));
    assert!(!script.admits(&Event::Failed("again".to_string())));
}

#[test]
fn an_empty_script_is_finished() {
    let script = Script::new(vec![]);
    assert!(script.is_finished());
    assert_eq!(script.action(&host()), Action::Finish(None));
}

#[test]
fn answers_have_to_fit() {
    let script = Script::new(vec![say("a")]);
    assert!(script.admits(&Event::Done));
    assert!(!script.admits(&Event::Answer(true)));
    assert!(!script.admits(&Event::Exit(Some(0))));
    let script = Script::new(vec![Step::Branches { dir: "/d".to_string() }]);
    assert!(script.admits(&Event::Output(vec![])));
    assert!(!script.admits(&Event::Text(String::new())));
}

#[test]
fn what_follows_from_an_exit_code() {
    let failure = |notice, verdict| Some(new_failure("none", "it failed with ", notice, verdict));
    assert_eq!(after_exit(None, Some(1)), []);
    assert_eq!(after_exit(failure(Notice::Say, Verdict::Fail), Some(0)), []);
    assert_eq!(
        after_exit(failure(Notice::Say, Verdict::Fail), None),
        [Step::Halt(Some("none".to_string()))]
    );
    assert_eq!(
        after_exit(failure(Notice::Log, Verdict::Continue), Some(-7)),
        [Step::Log("it failed with -7".to_string())]
    );
    assert_eq!(
        after_exit(failure(Notice::Say, Verdict::Finish), Some(2)),
        [say("it failed with 2"), Step::Halt(None)]
    );
    assert_eq!(
        after_exit(failure(Notice::Quiet, Verdict::Fail), Some(2)),
        [Step::Halt(Some("it failed with 2".to_string()))]
    );
    assert_eq!(
        after_exit(Some(process_child("git gc")), Some(128)),
        [say("git gc failed with 128"), Step::Halt(Some("git gc failed with 128".to_string()))]
    );
    assert_eq!(
        after_exit(Some(process_child("git gc")), None),
        [Step::Halt(Some("No status code 0 git gc".to_string()))]
    );
}

#[test]
fn output_is_passed_on_line_by_line() {
    assert_eq!(process_reader(Some(b"Up to date.\n")).as_deref(), Some("Up to date."));
    assert_eq!(process_reader(Some(b"no line end")).as_deref(), Some("no line end"));
    assert_eq!(process_reader(Some(b"\n")).as_deref(), Some(""));
    assert_eq!(
        process_reader(Some("na\u{ef}ve \u{20ac}\n".as_bytes())).as_deref(),
        Some("na\u{ef}ve \u{20ac}")
    );
    assert_eq!(process_reader(Some(b"a\xffb\n")).as_deref(), Some("a\u{fffd}b"));
    assert_eq!(process_reader(Some(b"")), None);
    assert_eq!(process_reader(None), None);
}

#[test]
fn the_main_branch() {
    assert_eq!(choose_branch("* main\n  master\n").as_deref(), Some("main"));
    assert_eq!(choose_branch("* master\n  dev\n").as_deref(), Some("master"));
    assert_eq!(choose_branch("* dev\n").as_deref(), None);
    assert_eq!(choose_branch("main").as_deref(), None);
}

#[test]
fn a_repository_is_brought_up_to_date() {
    let asked = play(
        &mut process_git_directory("/w/one"),
        vec![
            Event::Exit(Some(0)),
            Event::Output(b"* dev\n  master\xff\n".to_vec()),
            Event::Exit(Some(1)),
            Event::Exit(None),
            Event::Exit(Some(0)),
            Event::Exit(Some(0)),
            Event::Exit(Some(0)),
            Event::Exit(Some(0)),
        ],
    );
    assert_eq!(
        asked,
        [
            Action::Pipe(git(&["stash"])),
            Action::Output(git(&["branch"])),
            Action::Status(git(&["checkout", "master"])),
            Action::Status(git(&["pull"])),
            Action::Status(git(&["pull", "--tags"])),
            Action::Status(git(&["push"])),
            Action::Status(git(&["push", "--tags"])),
            Action::Pipe(git(&["gc"])),
            Action::Finish(None),
        ]
    );
}

#[test]
fn a_repository_without_a_main_branch() {
    let asked = play(
        &mut process_git_directory("/w/one"),
        vec![Event::Exit(Some(0)), Event::Output(b"* dev\n".to_vec()), Event::Exit(Some(0))],
    );
    assert_eq!(asked[2..], [Action::Pipe(git(&["gc"])), Action::Finish(None)]);
}

#[test]
fn a_failed_stash_stops() {
    let asked = play(
        &mut process_git_directory("/w/one"),
        vec![Event::Exit(Some(1)), Event::Done],
    );
    assert_eq!(
        asked[1..],
        [
            Action::Say("git stash failed with 1".to_string()),
            Action::Finish(Some("git stash failed with 1".to_string())),
        ]
    );
}

#[test]
fn all_repositories_in_order() {
    let jobs = update_repos(&host());
    let dirs: Vec<&str> = jobs.iter().map(|j| j.directory.as_str()).collect();
    assert_eq!(dirs, ["/w/one", "/w/two", "/s/build/three"]);
    let lines: Vec<&str> = jobs.iter().map(|j| j.line.as_str()).collect();
    assert_eq!(
        lines,
        ["Process \"/w/one\"", "Process \"/w/two\"", "Process \"/s/build/three\""]
    );
}

#[test]
fn the_first_failure_decides() {
    let failed = |m: &str| Err(m.to_string());
    assert_eq!(update_outcome(&vec![]), Ok(()));
    assert_eq!(update_outcome(&vec![Ok(()), Ok(())]), Ok(()));
    assert_eq!(update_outcome(&vec![Ok(()), failed("a"), Ok(()), failed("b")]), failed("a"));
    assert_eq!(update_outcome(&vec![failed("b")]), failed("b"));
}

#[test]
fn no_repositories() {
    let h = Host { config: Config::new(), home_dir: String::new(), config_dir: String::new() };
    assert_eq!(update_repos(&h), []);
}
