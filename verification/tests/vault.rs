use ddboline_scripts::action::{Action, Command, Event};
use ddboline_scripts::config::{Config, ConfigInner};
use ddboline_scripts::host::Host;
use ddboline_scripts::script::Script;
use ddboline_scripts::vault::{get_current_password_file, ShowPasswordOpts};

fn host(gpg_user: Option<&str>, gpg_key: Option<&str>) -> Host {
    Host {
        config: Config::from_inner(ConfigInner {
            password_directory: "/vault".to_string(),
            send_to_telegram_path: "/bin/tele".to_string(),
            gpg_user: gpg_user.map(str::to_string),
            gpg_key: gpg_key.map(str::to_string),
            ..ConfigInner::default()
        }),
        home_dir: "/home/u".to_string(),
        config_dir: "/home/u/.config".to_string(),
    }
}

/// A host with a password file, and what its programs do.
struct World {
    plain: &'static str,
    lines: std::vec::IntoIter<&'static str>,
    names: std::vec::IntoIter<&'static str>,
    input_exists: bool,
    hashes: std::vec::IntoIter<&'static str>,
    failing: Vec<(&'static str, Option<i32>)>,
    now: i64,
    done: Vec<Action>,
}

fn world(hashes: Vec<&'static str>) -> World {
    World {
        plain: "mail secret1\nbank secret2\nbank secret3\n",
        lines: vec!["mail secret1\n", "bank secret2\n", "bank secret3\n"].into_iter(),
        names: vec![
            "passwords_2023.txt.asc",
            "passwords_2024.txt.asc",
            "zzz.txt.asc",
            "passwords_9.asc",
        ]
        .into_iter(),
        input_exists: true,
        hashes: hashes.into_iter(),
        failing: vec![],
        now: 86_400 * 365,
        done: vec![],
    }
}

impl World {
    fn run(&mut self, opts: ShowPasswordOpts, h: &Host) -> Option<String> {
        let mut script: Script = opts.process(h);
        loop {
            let action = script.action(h);
            let event = match &action {
                Action::Finish(outcome) => return outcome.clone(),
                Action::Clock => Event::Clock(self.now),
                Action::Exists(_) => Event::Answer(self.input_exists),
                Action::OpenDir(_) => Event::Done,
                Action::NextEntry => match self.names.next() {
                    Some(name) => Event::Entry(name.as_bytes().to_vec()),
                    None => Event::End,
                },
                Action::NextLine => match self.lines.next() {
                    Some(line) => Event::Text(line.to_string()),
                    None => Event::End,
                },
                Action::ReadText(_) => Event::Text(self.plain.to_string()),
                Action::Hash(_) => Event::Text(self.hashes.next().unwrap().to_string()),
                Action::Status(c) => {
                    let line = format!("{} {}", c.program, c.args.join(" "));
                    let code = self.failing.iter().find(|(l, _)| line.starts_with(l));
                    Event::Exit(code.map_or(Some(0), |(_, code)| *code))
                }
                _ => Event::Done,
            };
            if !matches!(
                action,
                Action::Exists(_)
                    | Action::NextEntry
                    | Action::NextLine
                    | Action::Clock
                    | Action::OpenDir(_)
                    | Action::OpenLines(_)
                    | Action::ReadText(_)
                    | Action::Hash(_)
            ) {
                self.done.push(action);
            }
            assert!(script.admits(&event), "{event:?}");
            script.answer(h, event);
        }
    }

    /// Where the decrypted passwords were kept.
    fn plain_path(&self) -> String {
        for action in &self.done {
            if let Action::Status(c) = action {
                if c.program == "gpg" {
                    return c.args[2].clone();
                }
            }
        }
        panic!("nothing was decrypted");
    }

    /// The name of the file to which the passwords were encrypted.
    fn encrypted_to(&self) -> &str {
        let file = |action| match action {
            &Action::Status(ref c) if c.args[0] == "-aes" => c.args[6].strip_prefix("/vault/"),
            _ => None,
        };
        self.done.iter().find_map(file).unwrap()
    }
}

fn say(s: &str) -> Action {
    Action::Say(s.to_string())
}

fn status(line: &[&str]) -> Action {
    Action::Status(Command {
        program: line[0].to_string(),
        args: line[1..].iter().map(|a| a.to_string()).collect(),
        dir: None,
    })
}

fn show(query: Option<&str>) -> ShowPasswordOpts {
    ShowPasswordOpts::Show { input: None, query: query.map(str::to_string) }
}

fn edit(output: Option<&str>) -> ShowPasswordOpts {
    ShowPasswordOpts::Edit {
        input: Some("/in.asc".to_string()),
        output: output.map(str::to_string),
    }
}

#[test]
fn the_current_file() {
    let current = |names: &[&[u8]]| {
        let v: Vec<Vec<u8>> = names.iter().map(|n| n.to_vec()).collect();
        get_current_password_file(&v)
    };
    assert_eq!(current(&[]), None);
    assert_eq!(current(&[b"passwords.txt", b"other.txt.asc", b"passwords.asc"]), None);
    assert_eq!(current(&[b"passwords.txt.asc"]).as_deref(), Some("passwords.txt.asc"));
    assert_eq!(
        current(&[
            b"passwords_2024-02-01.txt.asc",
            b"passwords_2024-03-01.txt.asc",
            b"passwords_2023-12-31.txt.asc",
            b"passwords_\xff.txt.asc",
            b"zzz",
        ])
        .as_deref(),
        Some("passwords_2024-03-01.txt.asc")
    );
}

#[test]
fn an_encrypted_file_is_found_again() {
    let h = host(Some("user"), Some("key"));
    let mut w = world(vec!["aa", "bb"]);
    assert_eq!(w.run(edit(None), &h), None);
    let file = w.encrypted_to();
    for older in ["passwords_1970-12-31.txt.asc", "passwords_0001-01-01.txt.asc", "readme.txt"] {
        let names = vec![older.as_bytes().to_vec(), file.as_bytes().to_vec()];
        assert_eq!(get_current_password_file(&names).as_deref(), Some(file));
    }
}

#[test]
fn a_later_day_takes_the_place_of_an_earlier() {
    let h = host(Some("user"), Some("key"));
    let mut names: Vec<Vec<u8>> = Vec::new();
    for seconds in [
        -62_167_219_200,
        -62_135_596_801,
        -62_135_596_800,
        -1,
        0,
        86_400,
        1_709_164_800,
        1_709_251_200,
        253_402_300_799,
    ] {
        let mut w = world(vec!["aa", "bb"]);
        w.now = seconds;
        assert_eq!(w.run(edit(None), &h), None);
        let file = w.encrypted_to();
        names.push(file.as_bytes().to_vec());
        assert_eq!(get_current_password_file(&names).as_deref(), Some(file));
    }
    assert_eq!(names[0], b"passwords_0000-01-01.txt.asc");
    assert_eq!(names[7], b"passwords_2024-03-01.txt.asc");
}

#[test]
fn all_passwords_are_shown() {
    let h = host(None, None);
    let mut w = world(vec![]);
    assert_eq!(w.run(show(None), &h), None);
    let plain = w.plain_path();
    assert_eq!(
        w.done,
        [
            say("current_password_file \"/vault/passwords_2024.txt.asc\""),
            status(&["gpg", "--quiet", "--output", &plain, "-d", "/vault/passwords_2024.txt.asc"]),
            say("mail secret1\nbank secret2\nbank secret3\n"),
            Action::Remove(plain),
        ]
    );
}

#[test]
fn the_decrypted_file_has_a_name_of_its_own() {
    let h = host(None, None);
    let mut paths = Vec::new();
    for _ in 0..2 {
        let mut w = world(vec![]);
        assert_eq!(w.run(show(None), &h), None);
        let path = w.plain_path();
        let token = path
            .strip_prefix("/tmp/passwords_1971-01-01_")
            .and_then(|p| p.strip_suffix(".txt"))
            .unwrap();
        assert_eq!(token.len(), 16);
        assert!(token.chars().all(|c| c.is_ascii_alphanumeric()));
        paths.push(path);
    }
    assert_ne!(paths[0], paths[1]);
}

#[test]
fn the_first_match_is_shown() {
    let h = host(None, None);
    let mut w = world(vec![]);
    assert_eq!(w.run(show(Some("bank")), &h), None);
    assert_eq!(w.done[2..], [say("\nbank secret2\n"), Action::Remove(w.plain_path())]);
}

#[test]
fn no_match_shows_nothing() {
    let h = host(None, None);
    let mut w = world(vec![]);
    assert_eq!(w.run(show(Some("absent")), &h), None);
    assert_eq!(w.done[2..], [Action::Remove(w.plain_path())]);
}

#[test]
fn the_first_match_is_sent() {
    let h = host(None, None);
    let mut w = world(vec![]);
    let opts = ShowPasswordOpts::Send { input: None, query: "bank".to_string() };
    assert_eq!(w.run(opts, &h), None);
    assert_eq!(
        w.done[2..],
        [
            status(&["/bin/tele", "-r", "ddboline", "-m", "bank secret2\n"]),
            say("bank secret2\n"),
            Action::Remove(w.plain_path()),
        ]
    );
}

#[test]
fn what_could_not_be_sent() {
    for (code, message) in
        [(Some(4), "send-to-telegram failed with 4"), (None, "No status code 12")]
    {
        let h = host(None, None);
        let mut w = world(vec![]);
        w.failing.push(("/bin/tele", code));
        let opts = ShowPasswordOpts::Send { input: None, query: "bank".to_string() };
        assert_eq!(w.run(opts, &h).as_deref(), Some(message));
    }
}

#[test]
fn an_input_that_was_given() {
    let h = host(None, None);
    let mut w = world(vec![]);
    let opts = || ShowPasswordOpts::Show { input: Some("/in.asc".to_string()), query: None };
    assert_eq!(w.run(opts(), &h), None);
    assert_eq!(w.done[0], say("current_password_file \"/in.asc\""));
    let mut w = world(vec![]);
    w.input_exists = false;
    assert_eq!(w.run(opts(), &h).as_deref(), Some("Password File Not Found"));
    assert!(w.done.is_empty());
}

#[test]
fn no_password_file() {
    let h = host(None, None);
    let mut w = world(vec![]);
    w.names = vec!["readme"].into_iter();
    assert_eq!(w.run(show(None), &h).as_deref(), Some("no password file found"));
}

#[test]
fn what_could_not_be_decrypted() {
    let h = host(None, None);
    let mut w = world(vec![]);
    w.failing.push(("gpg --quiet", Some(2)));
    assert_eq!(w.run(show(None), &h).as_deref(), Some("gpg -d failed with 2"));
    assert_eq!(w.done.last(), Some(&say("gpg -d failed with 2")));
    let mut w = world(vec![]);
    w.failing.push(("gpg --quiet", None));
    assert_eq!(w.run(show(None), &h).as_deref(), Some("No status code 11"));
}

#[test]
fn an_edit_takes_a_user_and_a_key() {
    let h = host(None, Some("key"));
    assert_eq!(world(vec![]).run(edit(None), &h).as_deref(), Some("No gpg user found"));
    let h = host(Some("user"), None);
    assert_eq!(world(vec![]).run(edit(None), &h).as_deref(), Some("No gpg key found"));
}

#[test]
fn an_edit_is_encrypted() {
    for (output, file) in [
        (None, "/vault/passwords_1971-01-01.txt.asc"),
        (Some("/out.asc"), "/out.asc"),
    ] {
        let h = host(Some("user"), Some("key"));
        let mut w = world(vec!["aa", "bb"]);
        assert_eq!(w.run(edit(output), &h), None);
        let plain = w.plain_path();
        assert_eq!(
            w.done[2..],
            [
                status(&["emacs", "-nw", &plain]),
                status(&["gpg", "-aes", "-r", "key", "-u", "user", "--output", file, &plain]),
                Action::Remove(plain),
            ]
        );
    }
}

#[test]
fn an_edit_that_changes_nothing() {
    let h = host(Some("user"), Some("key"));
    let mut w = world(vec!["aa", "aa"]);
    assert_eq!(w.run(edit(None), &h), None);
    let plain = w.plain_path();
    assert_eq!(w.done[2..], [status(&["emacs", "-nw", &plain]), Action::Remove(plain)]);
}

#[test]
fn failed_edits_remove_what_was_decrypted() {
    let h = host(Some("user"), Some("key"));
    for (line, code, message) in [
        ("emacs", 3, "emacs failed with 3"),
        ("gpg -aes", 4, "gpg encrypt failed with 4"),
    ] {
        let mut w = world(vec!["aa", "bb"]);
        w.failing.push((line, Some(code)));
        assert_eq!(w.run(edit(None), &h).as_deref(), Some(message));
        assert_eq!(w.done.last(), Some(&Action::Remove(w.plain_path())));
    }
    for (line, message) in [("emacs", "No status code 13"), ("gpg -aes", "No status code 14")] {
        let mut w = world(vec!["aa", "bb"]);
        w.failing.push((line, None));
        assert_eq!(w.run(edit(None), &h).as_deref(), Some(message));
    }
}

#[test]
fn passwords_are_created() {
    let h = host(None, None);
    for (number_of_characters, n) in [(None, 16), (Some(7), 7), (Some(0), 0)] {
        let mut w = world(vec![]);
        assert_eq!(w.run(ShowPasswordOpts::Create { number_of_characters }, &h), None);
        match &w.done[..] {
            [Action::Say(text)] => {
                let lines: Vec<&str> = text.split('\n').collect();
                assert_eq!(lines.len(), 5);
                assert!(lines.iter().all(|l| l.len() == n));
                assert!(lines[0].chars().all(|c| c.is_ascii_uppercase()));
                assert!(lines[1].chars().all(|c| c.is_ascii_lowercase()));
            }
            other => panic!("{other:?}"),
        }
    }
}

#[test]
fn times_outside_the_calendar_are_no_answer() {
    let h = host(None, None);
    let script = show(None).process(&h);
    assert_eq!(script.action(&h), Action::Clock);
    assert!(script.admits(&Event::Clock(0)));
    assert!(script.admits(&Event::Clock(253_402_300_799)));
    assert!(!script.admits(&Event::Clock(253_402_300_800)));
    assert!(script.admits(&Event::Clock(-377_705_116_800)));
    assert!(!script.admits(&Event::Clock(-377_705_116_801)));
}

#[test]
fn dates_at_the_ends_of_the_calendar() {
    let h = host(None, None);
    for (seconds, date) in [
        (0, "1970-01-01"),
        (951_782_400, "2000-02-29"),
        (253_402_300_799, "9999-12-31"),
        (-377_705_116_800, "-9999-01-01"),
    ] {
        let steps = ShowPasswordOpts::Show { input: Some("/in".to_string()), query: None }
            .plan_with_token(&h, "T".to_string());
        let mut script = Script::new(steps);
        script.answer(&h, Event::Clock(seconds));
        script.answer(&h, Event::Answer(true));
        script.answer(&h, Event::Done);
        match script.action(&h) {
            Action::Status(c) => assert_eq!(c.args[2], format!("/tmp/passwords_{date}_T.txt")),
            other => panic!("{other:?}"),
        }
    }
}
