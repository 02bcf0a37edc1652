use ddboline_scripts::action::{Action, Command, Event};
use ddboline_scripts::config::{Config, ConfigInner};
use ddboline_scripts::host::Host;
use ddboline_scripts::script::Script;
use ddboline_scripts::scripts::check_repo;
use std::collections::{HashMap, VecDeque};

#[derive(Default)]
struct World {
    existing: Vec<String>,
    entries: HashMap<String, Vec<(Vec<u8>, u64)>>,
    texts: HashMap<Vec<u8>, String>,
    exit: HashMap<String, Option<i32>>,
    listing: VecDeque<(Vec<u8>, u64)>,
    mtime: u64,
    done: Vec<Action>,
}

impl World {
    fn perform(&mut self, action: Action) -> Event {
        let event = match &action {
            Action::Exists(p) => return Event::Answer(self.existing.contains(p)),
            Action::OpenDir(p) => {
                self.listing = self.entries.get(p).cloned().unwrap_or_default().into();
                return Event::Done;
            }
            Action::NextEntry => {
                return match self.listing.pop_front() {
                    Some((name, mtime)) => {
                        self.mtime = mtime;
                        Event::Entry(name)
                    }
                    None => Event::End,
                }
            }
            Action::EntryModified => return Event::Seconds(self.mtime),
            Action::ReadEntry { name, .. } => Event::Text(self.texts[name].clone()),
            Action::Status(c) | Action::Pipe(c) => {
                Event::Exit(self.exit.get(&c.program).copied().unwrap_or(Some(0)))
            }
            _ => Event::Done,
        };
        self.done.push(action);
        event
    }

    fn run(&mut self, mut script: Script, host: &Host) -> Option<String> {
        loop {
            match script.action(host) {
                Action::Finish(outcome) => {
                    assert!(script.is_finished());
                    assert!(!script.admits(&Event::Done));
                    return outcome;
                }
                action => {
                    let event = self.perform(action);
                    assert!(script.admits(&event), "{event:?}");
                    script.answer(host, event);
                }
            }
        }
    }
}

fn host(aws: bool) -> Host {
    Host {
        config: Config::from_inner(ConfigInner {
            distros: vec!["noble".to_string()],
            repo_directories: vec!["main".to_string(), "gone".to_string()],
            repo_deb_directory: "/deb".to_string(),
            repo_directory: "/repo".to_string(),
            reprepro_path: "/usr/bin/reprepro".to_string(),
            aws_path: aws.then_some("/usr/bin/aws".to_string()),
            repo_bucket: aws.then_some("bucket".to_string()),
            ..ConfigInner::default()
        }),
        home_dir: "/home/u".to_string(),
        config_dir: "/home/u/.config".to_string(),
    }
}

fn bytes(s: &str) -> Vec<u8> {
    s.as_bytes().to_vec()
}

fn say(s: &str) -> Action {
    Action::Say(s.to_string())
}

fn remove(s: &str) -> Action {
    Action::Remove(s.to_string())
}

fn world() -> World {
    let mut w = World::default();
    for p in [
        "/deb/noble/main",
        "/deb/noble/devel_main",
        "/repo/noble/main",
        "/usr/bin/reprepro",
        "/repo/noble/main/db",
        "/repo/noble/main/pool",
    ] {
        w.existing.push(p.to_string());
    }
    let log: Vec<String> = (1..=25).map(|i| format!("line {i}")).collect();
    w.texts.insert(bytes("x.log"), log.join("\n"));
    w.entries.insert(
        "/deb/noble/devel_main".to_string(),
        vec![
            (bytes("b_2_amd64.deb"), 9),
            (bytes("x.log"), 9),
            (bytes("notes.txt"), 9),
            (vec![0xff, b'.', b'd', b'e', b'b'], 9),
        ],
    );
    w.entries.insert(
        "/deb/noble/main".to_string(),
        vec![
            (bytes("b_1_amd64.deb"), 5),
            (bytes("a_1_amd64.deb"), 7),
            (bytes("b_2_amd64.deb"), 9),
            (bytes("a_0_amd64.deb"), 3),
            (vec![0xff, b'_'], 1),
            (bytes("c.deb"), 2),
        ],
    );
    w
}

fn shown_log() -> Vec<Action> {
    (6..=25).map(|i| say(&format!("line {i}"))).collect()
}

#[test]
fn nothing_is_changed_without_leave() {
    let mut w = world();
    let h = host(true);
    assert_eq!(w.run(check_repo(&h, false, false), &h), None);
    let mut expected = vec![Action::ReadEntry {
        dir: "/deb/noble/devel_main".to_string(),
        name: bytes("x.log"),
    }];
    expected.extend(shown_log());
    expected.push(say("devel b_2_amd64.deb"));
    expected.push(say("distro_deb directory noble"));
    expected.push(say("duplicate /deb/noble/main/b_1_amd64.deb"));
    expected.push(say("duplicate /deb/noble/main/a_0_amd64.deb"));
    assert_eq!(w.done, expected);
}

#[test]
fn only_a_log_tells_of_a_removal_without_leave() {
    let h = host(true);
    let told = |w: &World, start: &str| -> Vec<String> {
        let mut lines = Vec::new();
        for action in &w.done {
            match action {
                Action::Say(line) if line.starts_with(start) => lines.push(line.clone()),
                _ => {}
            }
        }
        lines
    };
    let log = "remove x\nrepo_directory y\n".to_string() + &"z\n".repeat(17);
    for (cleanup, publish) in [(false, false), (false, true), (true, false)] {
        let mut w = world();
        assert_eq!(w.run(check_repo(&h, cleanup, publish), &h), None);
        assert_eq!(told(&w, "remove ").is_empty(), !cleanup);
        assert_eq!(told(&w, "repo_directory ").is_empty(), !publish);
        assert!(!w.done.contains(&Action::UpdateRepos));
    }
    let mut w = world();
    w.texts.insert(bytes("x.log"), log);
    assert_eq!(w.run(check_repo(&h, false, false), &h), None);
    assert_eq!(told(&w, "remove "), vec!["remove x"]);
    assert_eq!(told(&w, "repo_directory "), vec!["repo_directory y"]);
}

#[test]
fn cleanup_moves_and_removes() {
    let mut w = world();
    let h = host(true);
    assert_eq!(w.run(check_repo(&h, true, false), &h), None);
    let mut expected = vec![Action::ReadEntry {
        dir: "/deb/noble/devel_main".to_string(),
        name: bytes("x.log"),
    }];
    expected.extend(shown_log());
    expected.push(Action::RemoveEntry {
        dir: "/deb/noble/devel_main".to_string(),
        name: bytes("x.log"),
    });
    expected.push(say("devel b_2_amd64.deb"));
    expected.push(Action::Rename {
        from: "/deb/noble/devel_main/b_2_amd64.deb".to_string(),
        to: "/deb/noble/main/b_2_amd64.deb".to_string(),
    });
    expected.push(say("distro_deb directory noble"));
    for p in ["/deb/noble/main/b_1_amd64.deb", "/deb/noble/main/a_0_amd64.deb"] {
        expected.push(say(&format!("duplicate {p}")));
        expected.push(say(&format!("remove {p}")));
        expected.push(remove(p));
    }
    assert_eq!(w.done, expected);
}

fn reprepro() -> Action {
    Action::Status(Command {
        program: "/usr/bin/reprepro".to_string(),
        args: [
            "-b",
            "/repo/noble/main",
            "includedeb",
            "noble",
            "/deb/noble/main/b_2_amd64.deb",
            "/deb/noble/main/a_1_amd64.deb",
            "/deb/noble/main/c.deb",
        ]
        .map(str::to_string)
        .to_vec(),
        dir: None,
    })
}

fn aws() -> Action {
    Action::Pipe(Command {
        program: "/usr/bin/aws".to_string(),
        args: [
            "s3",
            "sync",
            "--acl",
            "public-read",
            "/repo/noble/main/",
            "s3://bucket/deb/noble/main/",
        ]
        .map(str::to_string)
        .to_vec(),
        dir: None,
    })
}

fn clear() -> Vec<Action> {
    vec![
        Action::RemoveTree("/repo/noble/main/db".to_string()),
        Action::RemoveTree("/repo/noble/main/pool".to_string()),
    ]
}

#[test]
fn publication_builds_and_uploads() {
    let mut w = world();
    let h = host(true);
    assert_eq!(w.run(check_repo(&h, false, true), &h), None);
    let announced = say("repo_directory \"/repo/noble/main\"");
    let from = w.done.iter().position(|a| *a == announced).unwrap();
    let mut expected = clear();
    expected.push(reprepro());
    expected.push(aws());
    expected.extend(clear());
    assert_eq!(w.done[from + 1..], expected);
}

#[test]
fn publication_without_a_bucket() {
    let mut w = world();
    let h = host(false);
    assert_eq!(w.run(check_repo(&h, false, true), &h), None);
    assert_eq!(w.done.last(), Some(&reprepro()));
}

#[test]
fn publication_without_the_program() {
    let mut w = world();
    w.existing.retain(|p| p != "/usr/bin/reprepro");
    let h = host(true);
    assert_eq!(w.run(check_repo(&h, false, true), &h), None);
    assert_eq!(w.done.last(), Some(&say("duplicate /deb/noble/main/a_0_amd64.deb")));
}

#[test]
fn publication_without_packages() {
    let mut w = world();
    w.entries.insert("/deb/noble/main".to_string(), vec![]);
    let h = host(true);
    assert_eq!(w.run(check_repo(&h, false, true), &h), None);
    assert_eq!(w.done.last(), Some(&say("distro_deb directory noble")));
}

#[test]
fn failed_build_is_told_and_no_error() {
    let mut w = world();
    w.exit.insert("/usr/bin/reprepro".to_string(), Some(3));
    let h = host(true);
    assert_eq!(w.run(check_repo(&h, false, true), &h), None);
    assert_eq!(w.done[w.done.len() - 2..], [reprepro(), say("reprepro failed with 3")]);
}

#[test]
fn killed_build_is_an_error() {
    let mut w = world();
    w.exit.insert("/usr/bin/reprepro".to_string(), None);
    let h = host(true);
    assert_eq!(w.run(check_repo(&h, false, true), &h).as_deref(), Some("No status code 1"));
}

#[test]
fn failed_upload_is_told_and_an_error() {
    let mut w = world();
    w.exit.insert("/usr/bin/aws".to_string(), Some(2));
    let h = host(true);
    assert_eq!(
        w.run(check_repo(&h, false, true), &h).as_deref(),
        Some("aws sync failed with 2")
    );
    assert_eq!(w.done.last(), Some(&say("aws sync failed with 2")));
}

#[test]
fn killed_upload_is_an_error() {
    let mut w = world();
    w.exit.insert("/usr/bin/aws".to_string(), None);
    let h = host(true);
    assert_eq!(
        w.run(check_repo(&h, false, true), &h).as_deref(),
        Some("No status code 0 aws sync")
    );
}

#[test]
fn of_equal_age_the_last_path_is_kept() {
    let mut w = world();
    w.existing.retain(|p| p != "/deb/noble/devel_main");
    w.entries.insert(
        "/deb/noble/main".to_string(),
        vec![(bytes("a_2.deb"), 4), (bytes("a_1.deb"), 4), (bytes("a_3.deb"), 4)],
    );
    let h = host(true);
    assert_eq!(w.run(check_repo(&h, false, false), &h), None);
    assert_eq!(
        w.done,
        [
            say("distro_deb directory noble"),
            say("duplicate /deb/noble/main/a_1.deb"),
            say("duplicate /deb/noble/main/a_2.deb"),
        ]
    );
}

#[test]
fn short_logs_are_no_answer() {
    let h = host(true);
    let mut script = check_repo(&h, false, false);
    for event in [
        Event::Answer(true),
        Event::Answer(true),
        Event::Done,
        Event::Entry(bytes("x.log")),
        Event::End,
    ] {
        assert!(script.admits(&event));
        script.answer(&h, event);
    }
    assert!(matches!(script.action(&h), Action::ReadEntry { .. }));
    assert!(!script.admits(&Event::Text("\n".repeat(18))));
    assert!(script.admits(&Event::Text("\n".repeat(19))));
}

#[test]
fn directories_that_do_not_exist_are_passed_over() {
    let mut w = World::default();
    let h = host(true);
    assert_eq!(w.run(check_repo(&h, true, true), &h), None);
    assert!(w.done.is_empty());
}

/// What a check that cleans up does to the files.
fn clean_up(w: &mut World) {
    for action in std::mem::take(&mut w.done) {
        match action {
            Action::RemoveEntry { dir, name } => {
                w.entries.get_mut(&dir).unwrap().retain(|(n, _)| *n != name);
            }
            Action::Rename { from, .. } => {
                let (dir, name) = from.rsplit_once('/').unwrap();
                w.entries.get_mut(dir).unwrap().retain(|(n, _)| *n != bytes(name));
            }
            Action::Remove(path) => {
                let (dir, name) = path.rsplit_once('/').unwrap();
                w.entries.get_mut(dir).unwrap().retain(|(n, _)| *n != bytes(name));
            }
            _ => {}
        }
    }
}

#[test]
fn a_second_cleanup_changes_nothing() {
    let mut w = world();
    let h = host(true);
    assert_eq!(w.run(check_repo(&h, true, false), &h), None);
    assert!(w.done.len() > 20);
    clean_up(&mut w);
    assert_eq!(w.run(check_repo(&h, true, false), &h), None);
    assert_eq!(w.done, [say("distro_deb directory noble")]);
}
