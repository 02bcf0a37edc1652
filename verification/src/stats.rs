//! The report about the host: how long it has been up, how warm and how fast it is, the weather
//! and the agenda.

use vstd::prelude::*;
use vstd::utf8::{decode_utf8, valid_utf8};

use crate::action::{Action, ActionView, Command, CommandView, Event, EventView, Slot};
use crate::host::Host;
use crate::number::{decimal, decimal2, decimal2_text, decimal_text, parse_i64, parsed};
use crate::outside::{reads_utf8, stack_lossy, stack_lossy_text};
use crate::program::{args2, command};
use crate::search::{first_word, first_word_of};
use crate::step::{
    chain, step_views, Goal, GoalView, Stage, StatsStep, StatsStepView, Step, StepView, Tools,
};
use crate::text::{
    cat, cat3, cat5, chars_of, clone_opt, join_texts, joined, text_between, texts, Text,
};

verus! {

// ---------------------------------------------------------------------------
// Numbers
// ---------------------------------------------------------------------------

/// `a` divided by `b`, rounded towards zero.
pub open spec fn quotient(a: int, b: int) -> int {
    if a >= 0 {
        a / b
    } else {
        -((-a) / b)
    }
}

/// What is left of `a` when it is divided by `b`; it has the sign of `a`.
pub open spec fn remainder(a: int, b: int) -> int {
    if a >= 0 {
        a % b
    } else {
        -((-a) % b)
    }
}

/// A reading in thousandths, in whole units. What is no number counts as zero.
pub open spec fn reading(line: Text) -> int {
    match parsed(line) {
        Some(x) => quotient(x as int, 1000),
        None => 0,
    }
}

fn divide(a: i64, b: i64) -> (r: i64)
    requires
        b > 1,
    ensures
        r == quotient(a as int, b as int),
{
    a / b
}

fn rest_of(a: i64, b: i64) -> (r: i64)
    requires
        b > 1,
    ensures
        r == remainder(a as int, b as int),
{
    a % b
}

fn read_number(line: &str) -> (r: i64)
    ensures
        r == reading(line@),
{
    match parse_i64(line) {
        Some(x) => divide(x, 1000),
        None => 0,
    }
}

// ---------------------------------------------------------------------------
// The time since the host was started
// ---------------------------------------------------------------------------

pub open spec fn weeks(seconds: int) -> int {
    quotient(seconds, 604_800)
}

pub open spec fn days(seconds: int) -> int {
    remainder(quotient(seconds, 86_400), 7)
}

pub open spec fn hours(seconds: int) -> int {
    remainder(quotient(seconds, 3_600), 24)
}

pub open spec fn minutes(seconds: int) -> int {
    remainder(quotient(seconds, 60), 60)
}

/// A span of time in weeks and days, as far as there are any, and on a clock. The fraction of a
/// second is given with one character in front of its point.
pub open spec fn uptime_text(seconds: int, fraction: Text) -> Text {
    joined(
        (if weeks(seconds) > 0 {
            seq![decimal(weeks(seconds)) + " weeks"@]
        } else {
            seq![]
        }) + (if days(seconds) > 0 {
            seq![decimal(days(seconds)) + " days"@]
        } else {
            seq![]
        }) + seq![clock_text(seconds, fraction)],
        " "@,
    )
}

/// The time on a clock after that many seconds, and the fraction of a second.
pub open spec fn clock_text(seconds: int, fraction: Text) -> Text {
    decimal2(hours(seconds)) + ":"@ + decimal2(minutes(seconds)) + ":"@ + decimal2(
        remainder(seconds, 60),
    ) + fraction.skip(1)
}

fn clock(seconds: i64, fraction: &str) -> (r: String)
    requires
        fraction@.len() >= 1,
    ensures
        r@ == clock_text(seconds as int, fraction@),
{
    let h: String = decimal2_text(rest_of(divide(seconds, 3_600), 24));
    let m: String = decimal2_text(rest_of(divide(seconds, 60), 60));
    let s: String = decimal2_text(rest_of(seconds, 60));
    let hms: String = cat5(h.as_str(), ":", m.as_str(), ":", s.as_str());
    let v: Vec<char> = chars_of(fraction);
    let point: String = text_between(&v, 1, v.len());
    proof {
        assert(point@ =~= fraction@.skip(1));
    }
    cat(hms.as_str(), point.as_str())
}

/// A span of time in weeks, days and on a clock.
pub fn show_uptime(seconds: i64, fraction: &str) -> (r: String)
    requires
        fraction@.len() >= 1,
    ensures
        r@ == uptime_text(seconds as int, fraction@),
{
    let mut parts: Vec<String> = Vec::new();
    let w: i64 = divide(seconds, 604_800);
    let d: i64 = rest_of(divide(seconds, 86_400), 7);
    if w > 0 {
        let number: String = decimal_text(w);
        parts.push(cat(number.as_str(), " weeks"));
    }
    if d > 0 {
        let number: String = decimal_text(d);
        parts.push(cat(number.as_str(), " days"));
    }
    parts.push(clock(seconds, fraction));
    proof {
        assert(texts(parts@) =~= (if weeks(seconds as int) > 0 {
            seq![decimal(weeks(seconds as int)) + " weeks"@]
        } else {
            seq![]
        }) + (if days(seconds as int) > 0 {
            seq![decimal(days(seconds as int)) + " days"@]
        } else {
            seq![]
        }) + seq![clock_text(seconds as int, fraction@)]);
    }
    join_texts(&parts, " ")
}

/// The parts of a span of time that is shown make up all of it, and none is larger than it can be.
pub proof fn law_uptime_adds_up(seconds: int)
    requires
        seconds >= 0,
    ensures
        weeks(seconds) * 604_800 + days(seconds) * 86_400 + hours(seconds) * 3_600 + minutes(
            seconds,
        ) * 60 + remainder(seconds, 60) == seconds,
        0 <= weeks(seconds),
        0 <= days(seconds) < 7,
        0 <= hours(seconds) < 24,
        0 <= minutes(seconds) < 60,
        0 <= remainder(seconds, 60) < 60,
{
    assert(quotient(seconds, 604_800) == quotient(seconds, 86_400) / 7);
    assert(quotient(seconds, 86_400) == quotient(seconds, 3_600) / 24);
    assert(quotient(seconds, 3_600) == quotient(seconds, 60) / 60);
}

// ---------------------------------------------------------------------------
// The report
// ---------------------------------------------------------------------------

/// The command that tells the weather.
pub open spec fn weather_command(h: Host) -> CommandView {
    command(h.config.inner().weather_util_path@, seq!["-z"@, "11106"@])
}

/// The command that tells the agenda.
pub open spec fn calendar_command(h: Host) -> CommandView {
    command(h.config.inner().calendar_app_path@, seq![])
}

/// The command behind a report that is started.
pub open spec fn slot_command(h: Host, slot: Slot) -> CommandView {
    match slot {
        Slot::Weather => weather_command(h),
        Slot::Calendar => calendar_command(h),
    }
}

/// What is said of the time since the host was started.
pub open spec fn uptime_line(seconds: int, fraction: Text) -> Text {
    "Uptime "@ + decimal(seconds) + " seconds or "@ + uptime_text(seconds, fraction)
}

/// What is said of the processor.
pub open spec fn processor_line(temperature: int, frequency: int) -> Text {
    "Temperature "@ + decimal(temperature) + " C  CpuFreq "@ + decimal(frequency) + " MHz"@
}

/// The steps that wait for a report and show it under `title`.
pub open spec fn collect_steps(started: bool, title: Text, slot: Slot) -> Seq<StepView> {
    if started {
        seq![StepView::Say(title), StepView::Stats(StatsStepView::Collect(slot))]
    } else {
        seq![]
    }
}

/// The steps that write the report, once all has been read.
pub open spec fn report_steps(
    tools: Tools,
    frequency: int,
    temperature: int,
    seconds: int,
    fraction: Text,
) -> Seq<StepView> {
    seq![
        StepView::Say(uptime_line(seconds, fraction)),
        StepView::Say(processor_line(temperature, frequency)),
    ] + collect_steps(tools.weather, "\nWeather:"@, Slot::Weather) + collect_steps(
        tools.calendar,
        "\nAgenda:"@,
        Slot::Calendar,
    )
}

/// The step that reads the first line of the file at `path`.
pub open spec fn first_line_step(path: Text, goal: GoalView) -> StepView {
    StepView::FirstLine { stage: Stage::Probe, path, goal }
}

/// The step that starts a report, if there is one to start.
pub open spec fn spawn_steps(found: bool, slot: Slot) -> Seq<StepView> {
    if found {
        seq![StepView::Stats(StatsStepView::Spawn(slot))]
    } else {
        seq![]
    }
}

fn collect(started: bool, title: &str, slot: Slot) -> (r: Vec<Step>)
    ensures
        step_views(r@) == collect_steps(started, title@, slot),
{
    let mut out: Vec<Step> = Vec::new();
    if started {
        out.push(Step::Say(title.to_string()));
        out.push(Step::Stats(StatsStep::Collect(slot)));
    }
    proof {
        assert(step_views(out@) =~= collect_steps(started, title@, slot));
    }
    out
}

/// The steps that write the report, once all has been read.
pub fn report(
    tools: Tools,
    frequency: i64,
    temperature: i64,
    seconds: i64,
    fraction: &str,
) -> (r: Vec<Step>)
    requires
        fraction@.len() >= 1,
    ensures
        step_views(r@) == report_steps(
            tools,
            frequency as int,
            temperature as int,
            seconds as int,
            fraction@,
        ),
{
    let number: String = decimal_text(seconds);
    let shown: String = show_uptime(seconds, fraction);
    let head: String = cat3("Uptime ", number.as_str(), " seconds or ");
    let warm: String = decimal_text(temperature);
    let fast: String = decimal_text(frequency);
    let first: Vec<Step> = vec![
        Step::Say(cat(head.as_str(), shown.as_str())),
        Step::Say(cat5("Temperature ", warm.as_str(), " C  CpuFreq ", fast.as_str(), " MHz")),
    ];
    proof {
        assert(step_views(first@) =~= seq![
            StepView::Say(uptime_line(seconds as int, fraction@)),
            StepView::Say(processor_line(temperature as int, frequency as int)),
        ]);
    }
    let out: Vec<Step> = chain(first, collect(tools.weather, "\nWeather:", Slot::Weather));
    chain(out, collect(tools.calendar, "\nAgenda:", Slot::Calendar))
}

fn spawn(found: bool, slot: Slot, next: Step) -> (r: Vec<Step>)
    ensures
        step_views(r@) == spawn_steps(found, slot).push(next@),
{
    let mut out: Vec<Step> = Vec::new();
    if found {
        out.push(Step::Stats(StatsStep::Spawn(slot)));
    }
    out.push(next);
    proof {
        assert(step_views(out@) =~= spawn_steps(found, slot).push(next@));
    }
    out
}

fn slot_program(host: &Host, slot: Slot) -> (r: Command)
    ensures
        r@ == slot_command(*host, slot),
{
    match slot {
        Slot::Weather => Command::new(
            host.config.get().weather_util_path.as_str(),
            args2("-z", "11106"),
        ),
        Slot::Calendar => {
            let none: Vec<String> = Vec::new();
            proof {
                assert(texts(none@) =~= Seq::<Text>::empty());
            }
            Command::new(host.config.get().calendar_app_path.as_str(), none)
        },
    }
}

// ---------------------------------------------------------------------------
// The steps
// ---------------------------------------------------------------------------

/// The steps that follow once the frequency of the processor has been read.
pub open spec fn frequency_steps(h: Host, tools: Tools, line: Text) -> Seq<StepView> {
    seq![
        first_line_step(
            h.config.inner().temperature_path@,
            GoalView::Temperature { tools, frequency: reading(line) as i64 },
        ),
    ]
}

/// The steps that follow once the temperature of the processor has been read.
pub open spec fn temperature_steps(
    h: Host,
    tools: Tools,
    frequency: i64,
    line: Text,
) -> Seq<StepView> {
    seq![
        first_line_step(
            h.config.inner().uptime_path@,
            GoalView::Uptime { tools, frequency, temperature: reading(line) as i64 },
        ),
    ]
}

/// The steps that follow once the time since the host was started has been read.
pub open spec fn uptime_steps(
    tools: Tools,
    frequency: i64,
    temperature: i64,
    line: Text,
) -> Seq<StepView> {
    seq![
        StepView::Stats(
            StatsStepView::Measure { word: first_word(line), tools, frequency, temperature },
        ),
    ]
}

/// What a step of the report asks for.
pub open spec fn stats_ask(h: Host, s: StatsStepView) -> ActionView {
    match s {
        StatsStepView::Weather => ActionView::Exists(h.config.inner().weather_util_path@),
        StatsStepView::Calendar { .. } => ActionView::Exists(h.config.inner().calendar_app_path@),
        StatsStepView::Spawn(slot) => ActionView::Spawn { slot, command: slot_command(h, slot) },
        StatsStepView::Measure { word, .. } => ActionView::Measure(word),
        StatsStepView::Collect(slot) => ActionView::Collect(slot),
    }
}

/// Whether an event answers a step of the report. The fraction of a second has a character in
/// front of its point.
pub open spec fn stats_accepts(s: StatsStepView, e: EventView) -> bool {
    match s {
        StatsStepView::Weather | StatsStepView::Calendar { .. } => e is Answer,
        StatsStepView::Spawn(_) => e is Done,
        StatsStepView::Measure { .. } => e matches EventView::Uptime { subseconds, .. }
            && subseconds.len() >= 1,
        StatsStepView::Collect(_) => e is Output,
    }
}

/// The steps that follow from the answer to a step of the report.
pub open spec fn stats_expand(h: Host, s: StatsStepView, e: EventView) -> Seq<StepView> {
    match (s, e) {
        (StatsStepView::Weather, EventView::Answer(found)) => spawn_steps(
            found,
            Slot::Weather,
        ).push(StepView::Stats(StatsStepView::Calendar { weather: found })),
        (StatsStepView::Calendar { weather }, EventView::Answer(found)) => spawn_steps(
            found,
            Slot::Calendar,
        ).push(
            first_line_step(
                h.config.inner().frequency_path@,
                GoalView::Frequency(Tools { weather, calendar: found }),
            ),
        ),
        (
            StatsStepView::Measure { tools, frequency, temperature, .. },
            EventView::Uptime { whole_seconds, subseconds },
        ) => report_steps(
            tools,
            frequency as int,
            temperature as int,
            whole_seconds as int,
            subseconds,
        ),
        (StatsStepView::Collect(_), EventView::Output(bytes)) => seq![
            StepView::Say(stack_lossy_text(bytes)),
        ],
        _ => seq![],
    }
}

/// The step that reads the first line of the file at `path`.
pub fn read_first_line(path: &str, goal: Goal) -> (r: Step)
    ensures
        r@ == first_line_step(path@, goal@),
{
    Step::FirstLine { stage: Stage::Probe, path: path.to_string(), goal }
}

/// The steps that follow once the frequency of the processor has been read.
pub fn after_frequency(host: &Host, tools: Tools, line: &str) -> (r: Vec<Step>)
    ensures
        step_views(r@) == frequency_steps(*host, tools, line@),
{
    let out: Vec<Step> = vec![
        read_first_line(
            host.config.get().temperature_path.as_str(),
            Goal::Temperature { tools, frequency: read_number(line) },
        ),
    ];
    proof {
        assert(step_views(out@) =~= frequency_steps(*host, tools, line@));
    }
    out
}

/// The steps that follow once the temperature of the processor has been read.
pub fn after_temperature(host: &Host, tools: Tools, frequency: i64, line: &str) -> (r: Vec<Step>)
    ensures
        step_views(r@) == temperature_steps(*host, tools, frequency, line@),
{
    let out: Vec<Step> = vec![
        read_first_line(
            host.config.get().uptime_path.as_str(),
            Goal::Uptime { tools, frequency, temperature: read_number(line) },
        ),
    ];
    proof {
        assert(step_views(out@) =~= temperature_steps(*host, tools, frequency, line@));
    }
    out
}

/// The steps that follow once the time since the host was started has been read.
pub fn after_uptime(tools: Tools, frequency: i64, temperature: i64, line: &str) -> (r: Vec<Step>)
    ensures
        step_views(r@) == uptime_steps(tools, frequency, temperature, line@),
{
    let word: Option<String> = first_word_of(line);
    let out: Vec<Step> = vec![
        Step::Stats(StatsStep::Measure { word, tools, frequency, temperature }),
    ];
    proof {
        assert(step_views(out@) =~= uptime_steps(tools, frequency, temperature, line@));
    }
    out
}

/// What a step of the report asks for.
pub fn stats_action(host: &Host, s: &StatsStep) -> (r: Action)
    ensures
        r@ == stats_ask(*host, s@),
{
    match s {
        StatsStep::Weather => Action::Exists(host.config.get().weather_util_path.clone()),
        StatsStep::Calendar { .. } => Action::Exists(host.config.get().calendar_app_path.clone()),
        StatsStep::Spawn(slot) => Action::Spawn { slot: *slot, command: slot_program(host, *slot) },
        StatsStep::Measure { word, .. } => Action::Measure(clone_opt(word)),
        StatsStep::Collect(slot) => Action::Collect(*slot),
    }
}

/// Whether an event answers a step of the report.
pub fn stats_admits(s: &StatsStep, e: &Event) -> (r: bool)
    ensures
        r == stats_accepts(s@, e@),
{
    match s {
        StatsStep::Weather | StatsStep::Calendar { .. } => matches!(e, Event::Answer(_)),
        StatsStep::Spawn(_) => matches!(e, Event::Done),
        StatsStep::Measure { .. } => match e {
            Event::Uptime { subseconds, .. } => chars_of(subseconds.as_str()).len() >= 1,
            _ => false,
        },
        StatsStep::Collect(_) => matches!(e, Event::Output(_)),
    }
}

/// The steps that follow from the answer to a step of the report.
pub fn stats_next(host: &Host, s: StatsStep, e: Event) -> (r: Vec<Step>)
    requires
        stats_accepts(s@, e@),
    ensures
        step_views(r@) == stats_expand(*host, s@, e@),
        e@ matches EventView::Output(bytes) ==> reads_utf8(bytes),
        e@ matches EventView::Output(bytes) ==> (valid_utf8(bytes) ==> step_views(r@) == seq![
            StepView::Say(decode_utf8(bytes)),
        ]),
{
    let ghost expected = stats_expand(*host, s@, e@);
    let out: Vec<Step> = match (s, e) {
        (StatsStep::Weather, Event::Answer(found)) => spawn(
            found,
            Slot::Weather,
            Step::Stats(StatsStep::Calendar { weather: found }),
        ),
        (StatsStep::Calendar { weather }, Event::Answer(found)) => spawn(
            found,
            Slot::Calendar,
            read_first_line(
                host.config.get().frequency_path.as_str(),
                Goal::Frequency(Tools { weather, calendar: found }),
            ),
        ),
        (
            StatsStep::Measure { tools, frequency, temperature, .. },
            Event::Uptime { whole_seconds, subseconds },
        ) => report(tools, frequency, temperature, whole_seconds, subseconds.as_str()),
        (StatsStep::Collect(_), Event::Output(bytes)) => {
            vec![Step::Say(stack_lossy(bytes.as_slice()))]
        },
        _ => Vec::new(),
    };
    proof {
        assert(step_views(out@) =~= expected);
    }
    out
}

} // verus!
