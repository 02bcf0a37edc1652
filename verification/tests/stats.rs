use ddboline_scripts::action::{Action, Command, Event, Slot};
use ddboline_scripts::config::{Config, ConfigInner};
use ddboline_scripts::host::Host;
use ddboline_scripts::scripts::system_stats;
use ddboline_scripts::stats::show_uptime;

fn host() -> Host {
    Host {
        config: Config::from_inner(ConfigInner {
            weather_util_path: "/bin/weather".to_string(),
            calendar_app_path: "/bin/calendar".to_string(),
            frequency_path: "/freq".to_string(),
            temperature_path: "/temp".to_string(),
            uptime_path: "/uptime".to_string(),
            ..ConfigInner::default()
        }),
        home_dir: "/home/u".to_string(),
        config_dir: "/home/u/.config".to_string(),
    }
}

fn report(weather: bool, calendar: bool, freq: &str, temp: &str, uptime: &str) -> Vec<Action> {
    let h = host();
    let mut script = system_stats();
    let mut done = Vec::new();
    loop {
        let action = script.action(&h);
        let event = match &action {
            Action::Finish(outcome) => {
                assert_eq!(*outcome, None);
                return done;
            }
            Action::Exists(p) => Event::Answer(match p.as_str() {
                "/bin/weather" => weather,
                "/bin/calendar" => calendar,
                _ => true,
            }),
            Action::FileLength(_) => Event::Length(10),
            Action::ReadText(p) => Event::Text(
                match p.as_str() {
                    "/freq" => freq,
                    "/temp" => temp,
                    _ => uptime,
                }
                .to_string(),
            ),
            Action::Measure(word) => {
                done.push(Action::Measure(word.clone()));
                Event::Uptime { whole_seconds: 788_645, subseconds: "0.250".to_string() }
            }
            Action::Collect(Slot::Weather) => Event::Output(b"sunny\xff\n".to_vec()),
            Action::Collect(Slot::Calendar) => Event::Output(b"free\n".to_vec()),
            _ => {
                done.push(action);
                Event::Done
            }
        };
        assert!(script.admits(&event));
        script.answer(&h, event);
    }
}

fn say(s: &str) -> Action {
    Action::Say(s.to_string())
}

fn measure(s: &str) -> Action {
    Action::Measure(Some(s.to_string()))
}

#[test]
fn a_report_without_programs() {
    assert_eq!(
        report(false, false, "2800123\n", "45678\n", "788645.25 1000.0\n"),
        [
            measure("788645.25"),
            say("Uptime 788645 seconds or 1 weeks 2 days 03:04:05.250"),
            say("Temperature 45 C  CpuFreq 2800 MHz"),
        ]
    );
}

#[test]
fn a_report_with_programs() {
    let spawn = |slot, program: &str, args: &[&str]| Action::Spawn {
        slot,
        command: Command {
            program: program.to_string(),
            args: args.iter().map(|a| a.to_string()).collect(),
            dir: None,
        },
    };
    assert_eq!(
        report(true, true, "1999", "-1999", "1 2"),
        [
            spawn(Slot::Weather, "/bin/weather", &["-z", "11106"]),
            spawn(Slot::Calendar, "/bin/calendar", &[]),
            measure("1"),
            say("Uptime 788645 seconds or 1 weeks 2 days 03:04:05.250"),
            say("Temperature -1 C  CpuFreq 1 MHz"),
            say("\nWeather:"),
            say("sunny\u{fffd}\n"),
            say("\nAgenda:"),
            say("free\n"),
        ]
    );
    let only_calendar = report(false, true, "0", "0", "1 2");
    assert!(!only_calendar.contains(&say("\nWeather:")));
    assert_eq!(only_calendar.last(), Some(&say("free\n")));
}

#[test]
fn readings_that_are_no_numbers() {
    let done = report(false, false, "n/a\n", "", "\n");
    assert_eq!(done[0], Action::Measure(None));
    assert_eq!(done[2], say("Temperature 0 C  CpuFreq 0 MHz"));
}

#[test]
fn spans_of_time() {
    for (seconds, fraction, shown) in [
        (0, "0.000", "00:00:00.000"),
        (59, "0.999", "00:00:59.999"),
        (60, "0.000", "00:01:00.000"),
        (3_599, "1.000", "00:59:59.000"),
        (86_399, "0.500", "23:59:59.500"),
        (86_400, "0.500", "1 days 00:00:00.500"),
        (604_799, "0.000", "6 days 23:59:59.000"),
        (604_800, "0.000", "1 weeks 00:00:00.000"),
        (788_645, "0.250", "1 weeks 2 days 03:04:05.250"),
        (-5, "-0.500", "00:00:-50.500"),
    ] {
        assert_eq!(show_uptime(seconds, fraction), shown);
    }
}

#[test]
fn the_parts_of_a_span_make_up_all_of_it() {
    for seconds in [0i64, 1, 61, 3_661, 90_061, 694_861, 31_536_000] {
        let shown = show_uptime(seconds, "0.000");
        let mut total = 0;
        let words: Vec<&str> = shown.split(' ').collect();
        for pair in words[..words.len() - 1].chunks(2) {
            let n: i64 = pair[0].parse().unwrap();
            total += n * if pair[1] == "weeks" { 604_800 } else { 86_400 };
        }
        let clock = words[words.len() - 1].strip_suffix(".000").unwrap();
        let hms: Vec<i64> = clock.split(':').map(|p| p.parse().unwrap()).collect();
        total += hms[0] * 3_600 + hms[1] * 60 + hms[2];
        assert_eq!(total, seconds);
    }
}

#[test]
fn long_and_missing_files() {
    let h = host();
    let mut script = system_stats();
    let mut said = Vec::new();
    loop {
        let event = match script.action(&h) {
            Action::Finish(outcome) => {
                assert_eq!(outcome, None);
                break;
            }
            Action::Exists(p) => Event::Answer(p == "/freq" || p == "/uptime"),
            Action::FileLength(_) => Event::Length(4096),
            Action::ReadLine(p) if p == "/freq" => Event::Text("2800000\n".to_string()),
            Action::ReadLine(_) => Event::NotOpened,
            Action::Measure(word) => {
                assert_eq!(word, None);
                Event::Uptime { whole_seconds: 0, subseconds: "0.000".to_string() }
            }
            Action::Say(line) => {
                said.push(line);
                Event::Done
            }
            other => panic!("{other:?}"),
        };
        assert!(script.admits(&event));
        script.answer(&h, event);
    }
    assert_eq!(
        said,
        ["Uptime 0 seconds or 00:00:00.000", "Temperature 0 C  CpuFreq 2800 MHz"]
    );
}
