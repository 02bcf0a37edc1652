use ddboline_scripts::action::{Action, Command, Event};
use ddboline_scripts::config::{Config, ConfigInner};
use ddboline_scripts::host::Host;
use ddboline_scripts::script::Script;
use ddboline_scripts::scripts::{clear_secrets_restart_systemd, list_running_services};
use ddboline_scripts::services::{layout, read_states, SystemctlStatus};

fn names(v: &[&str]) -> Vec<String> {
    v.iter().map(|s| s.to_string()).collect()
}

fn host(services: &[&str]) -> Host {
    Host {
        config: Config::from_inner(ConfigInner {
            systemd_services: names(services),
            secret_path: "/run/secret".to_string(),
            jwt_secret_path: "/run/jwt".to_string(),
            ..ConfigInner::default()
        }),
        home_dir: "/home/u".to_string(),
        config_dir: "/home/u/.config".to_string(),
    }
}

const OUTPUT: &str = "  UNIT LOAD ACTIVE SUB DESCRIPTION
  nginx.service loaded active running A high performance web server
  other.service loaded active running Something else
  auth-server-rust.service   loaded   failed   failed   Auth \u{e9}  \n  ssh.service loaded active running
  nginx.socket loaded active running Not a service
";

#[test]
fn a_line_of_systemctl() {
    let services = names(&["ssh", "nginx"]);
    let status = SystemctlStatus::from_systemctl_line(
        "  nginx.service   loaded active   running  A high  performance server \t",
        &services,
    )
    .unwrap();
    assert_eq!(status.unit, "nginx");
    assert_eq!(status.load, "loaded");
    assert_eq!(status.active, "active");
    assert_eq!(status.sub, "running");
    assert_eq!(status.description, "A high  performance server");
    assert_eq!(status.text(), "nginx loaded active running A high  performance server");
}

#[test]
fn lines_that_say_nothing() {
    let services = names(&["ssh", "nginx"]);
    for line in [
        "",
        "nginx.service",
        "nginx.service loaded active running",
        "other.service loaded active running Description",
        "nginx loaded active running Description",
        "nginx.socket loaded active running Description",
        ".service loaded active running Description",
    ] {
        assert_eq!(SystemctlStatus::from_systemctl_line(line, &services), None, "{line:?}");
    }
}

#[test]
fn a_description_that_stands_earlier_in_the_line() {
    let services = names(&["a"]);
    let line = "a.service loaded active act ive x";
    let status = SystemctlStatus::from_systemctl_line(line, &services).unwrap();
    assert_eq!(status.sub, "act");
    assert_eq!(status.description, "ive act ive x");
}

#[test]
fn known_lines_are_always_listed() {
    let services = names(&["a"]);
    for line in [
        "a.service a a a a",
        "a.service service a.service a service",
        "x a.service l o a d",
        "a.service \u{e9} \u{e9} \u{e9} \u{e9}",
    ] {
        let fields: Vec<&str> = line.split_ascii_whitespace().collect();
        let listed = SystemctlStatus::from_systemctl_line(line, &services).is_some();
        assert_eq!(listed, fields.len() >= 5 && fields[0] == "a.service", "{line:?}");
    }
}

#[test]
fn a_table_of_services() {
    let h = host(&["nginx", "auth-server-rust", "ssh"]);
    let mut script = list_running_services();
    assert_eq!(
        script.action(&h),
        Action::Output(Command { program: "systemctl".to_string(), args: vec![], dir: None })
    );
    script.answer(&h, Event::Output(OUTPUT.as_bytes().to_vec()));
    let mut said = Vec::new();
    while let Action::Say(line) = script.action(&h) {
        said.push(line);
        script.answer(&h, Event::Done);
    }
    assert_eq!(script.action(&h), Action::Finish(None));
    assert_eq!(
        said,
        [
            "nginx             A high performance web server  active  ",
            "auth-server-rust  Auth \u{e9}                        failed  ",
        ]
    );
}

#[test]
fn rows_are_equally_wide() {
    let all = read_states(&names(&["nginx", "auth-server-rust", "other"]), OUTPUT);
    assert_eq!(all.len(), 3);
    let rows = layout(&all);
    assert!(rows.iter().all(|r| r.len() == rows[0].len()));
    assert!(layout(&vec![]).is_empty());
}

#[test]
fn output_that_is_not_text() {
    let h = host(&["a"]);
    let mut script = list_running_services();
    script.answer(&h, Event::Output(b"a.service l active s d\xff".to_vec()));
    assert_eq!(script.action(&h), Action::Say("a  d\u{fffd}  active  ".to_string()));
}

fn run(
    mut script: Script,
    h: &Host,
    existing: &[&str],
    code: Option<i32>,
) -> (Vec<Action>, Option<String>) {
    let mut done = Vec::new();
    loop {
        let action = script.action(h);
        let event = match &action {
            Action::Finish(outcome) => return (done, outcome.clone()),
            Action::Exists(p) => Event::Answer(existing.contains(&p.as_str())),
            Action::Status(_) => {
                done.push(action);
                Event::Exit(code)
            }
            _ => {
                done.push(action);
                Event::Done
            }
        };
        script.answer(h, event);
    }
}

fn say(s: &str) -> Action {
    Action::Say(s.to_string())
}

fn restart(service: &str) -> Action {
    Action::Status(Command {
        program: "sudo".to_string(),
        args: names(&["systemctl", "restart", service]),
        dir: None,
    })
}

#[test]
fn secrets_go_and_services_restart() {
    let h = host(&["nginx", "ssh", "auth-server-rust"]);
    let (done, outcome) =
        run(clear_secrets_restart_systemd(&h), &h, &["/run/secret", "/run/jwt"], Some(0));
    assert_eq!(outcome, None);
    assert_eq!(
        done,
        [
            say("remove \"/run/secret\""),
            Action::Remove("/run/secret".to_string()),
            say("remove \"/run/jwt\""),
            Action::Remove("/run/jwt".to_string()),
            say("restart auth-server-rust"),
            restart("auth-server-rust"),
            Action::Sleep(10),
            say("restart ssh"),
            restart("ssh"),
            say("restart auth-server-rust"),
            restart("auth-server-rust"),
        ]
    );
    assert!(!done.contains(&restart("nginx")));
}

#[test]
fn secrets_that_are_not_there() {
    let h = host(&["auth-server-rust"]);
    let (done, _) = run(clear_secrets_restart_systemd(&h), &h, &[], Some(0));
    assert_eq!(done[0], say("restart auth-server-rust"));
}

#[test]
fn no_authentication_server() {
    let h = host(&["nginx", "ssh"]);
    let (done, outcome) = run(clear_secrets_restart_systemd(&h), &h, &["/run/secret"], Some(0));
    assert_eq!(outcome, None);
    assert_eq!(done, [Action::SayErr("auth server not found".to_string())]);
}

#[test]
fn failed_restarts_are_logged() {
    let h = host(&["ssh", "auth-server-rust"]);
    let (done, outcome) = run(clear_secrets_restart_systemd(&h), &h, &[], Some(5));
    assert_eq!(outcome, None);
    for service in ["ssh", "auth-server-rust"] {
        let line = format!("systemctl restart {service} failed with code 5");
        assert!(done.contains(&Action::Log(line)));
    }
}

#[test]
fn killed_restarts_are_errors() {
    let h = host(&["ssh", "auth-server-rust"]);
    let (_, outcome) = run(clear_secrets_restart_systemd(&h), &h, &[], None);
    assert_eq!(outcome.as_deref(), Some("No status code 9"));
    let mut script = clear_secrets_restart_systemd(&h);
    let mut restarts = 0;
    loop {
        let event = match script.action(&h) {
            Action::Finish(outcome) => {
                assert_eq!(outcome.as_deref(), Some("No status code 10"));
                return;
            }
            Action::Exists(_) => Event::Answer(false),
            Action::Status(_) => {
                restarts += 1;
                Event::Exit(if restarts == 1 { Some(0) } else { None })
            }
            _ => Event::Done,
        };
        script.answer(&h, event);
    }
}

#[test]
fn a_state_is_read_back_from_its_text() {
    let services = names(&["ssh", "nginx"]);
    for (load, active, sub, description) in [
        ("loaded", "active", "running", "A  high performance web server"),
        ("a", "a", "a", "b a a"),
        ("not-found", "inactive", "dead", "nginx.service"),
    ] {
        let line = SystemctlStatus {
            unit: "ssh.service".to_string(),
            load: load.to_string(),
            active: active.to_string(),
            sub: sub.to_string(),
            description: description.to_string(),
        }
        .text();
        let status = SystemctlStatus::from_systemctl_line(&line, &services).unwrap();
        assert_eq!(status.unit, "ssh");
        assert_eq!(status.load, load);
        assert_eq!(status.active, active);
        assert_eq!(status.sub, sub);
        assert_eq!(status.description, description);
    }
}
