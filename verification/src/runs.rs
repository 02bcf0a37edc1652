//! Whole runs of the scripts: what follows from a listing, a file or a reading in full.

use vstd::prelude::*;

use crate::action::{EventView, Slot};
use crate::first_line::{first_line, goal_steps, law_first_line_agrees, WHOLE};
use crate::host::Host;
use crate::outside::decoded;
use crate::packages::{devel_steps, pool_file, pool_steps};
use crate::path::joined_path;
use crate::refresh::{basic_steps, full_steps};
use crate::script::{advance, after, expand};
use crate::scripts::refresh_start;
use crate::search::first_word;
use crate::stats::{reading, report_steps};
use crate::step::{
    GoalView, PasswordStepView, PoolFileView, PurposeView, RefreshStepView, RepoStepView, Routine,
    Stage, StatsStepView, StepView, TargetView, Tools,
};
use crate::text::{lemma_position, position, trimmed, Text};
use crate::vault::{current_file, decrypt_steps, fail};

verus! {

/// A run goes on from where an earlier part of it has come to.
pub proof fn law_runs_compose(h: Host, todo: Seq<StepView>, a: Seq<EventView>, b: Seq<EventView>)
    ensures
        after(h, todo, a + b) == after(h, after(h, todo, a), b),
    decreases b.len(),
{
    if b.len() == 0 {
        assert(a + b =~= a);
    } else {
        law_runs_compose(h, todo, a, b.drop_last());
        assert((a + b).drop_last() =~= a + b.drop_last());
    }
}

proof fn lemma_one(h: Host, todo: Seq<StepView>, e: EventView)
    ensures
        after(h, todo, seq![e]) == advance(h, todo, e),
{
    assert(seq![e].drop_last() =~= Seq::<EventView>::empty());
    assert(after(h, todo, seq![e].drop_last()) == todo);
}

proof fn lemma_replaced(h: Host, s: StepView, rest: Seq<StepView>, e: EventView)
    requires
        !(e is Failed),
        !(s is Guard),
    ensures
        after(h, seq![s] + rest, seq![e]) == expand(h, s, e) + rest,
{
    lemma_one(h, seq![s] + rest, e);
    assert((seq![s] + rest).skip(1) =~= rest);
    assert((seq![s] + rest)[0] == s);
}

// ---------------------------------------------------------------------------
// Listings
// ---------------------------------------------------------------------------

/// The answers that list these names.
pub open spec fn listing(names: Seq<Seq<u8>>) -> Seq<EventView> {
    names.map_values(|name: Seq<u8>| EventView::Entry(name))
}

proof fn lemma_devel_scan(
    h: Host,
    t: TargetView,
    rest: Seq<StepView>,
    names: Seq<Seq<u8>>,
)
    ensures
        after(
            h,
            seq![StepView::Repo(RepoStepView::ScanDevel { target: t, seen: seq![] })] + rest,
            listing(names),
        ) == seq![StepView::Repo(RepoStepView::ScanDevel { target: t, seen: names })] + rest,
    decreases names.len(),
{
    let start = seq![StepView::Repo(RepoStepView::ScanDevel { target: t, seen: seq![] })] + rest;
    if names.len() == 0 {
        assert(names =~= seq![]);
    } else {
        let init = names.drop_last();
        lemma_devel_scan(h, t, rest, init);
        assert(listing(names) =~= listing(init) + seq![EventView::Entry(names.last())]);
        law_runs_compose(h, start, listing(init), seq![EventView::Entry(names.last())]);
        lemma_replaced(
            h,
            StepView::Repo(RepoStepView::ScanDevel { target: t, seen: init }),
            rest,
            EventView::Entry(names.last()),
        );
        assert(init.push(names.last()) =~= names);
    }
}

/// All that is in the directory of new packages is dealt with, whatever it lists.
pub proof fn law_new_packages(h: Host, t: TargetView, rest: Seq<StepView>, names: Seq<Seq<u8>>)
    ensures
        after(
            h,
            seq![StepView::Repo(RepoStepView::OpenDevel(t))] + rest,
            seq![EventView::Done] + listing(names) + seq![EventView::End],
        ) == devel_steps(h, t, names) + rest,
{
    let start = seq![StepView::Repo(RepoStepView::OpenDevel(t))] + rest;
    law_runs_compose(
        h,
        start,
        seq![EventView::Done] + listing(names),
        seq![EventView::End],
    );
    law_runs_compose(h, start, seq![EventView::Done], listing(names));
    lemma_replaced(h, StepView::Repo(RepoStepView::OpenDevel(t)), rest, EventView::Done);
    lemma_devel_scan(h, t, rest, names);
    lemma_replaced(
        h,
        StepView::Repo(RepoStepView::ScanDevel { target: t, seen: names }),
        rest,
        EventView::End,
    );
}

/// The answers that list these files, each with the time at which it was modified. Nothing is asked
/// of a file whose name is not text.
pub open spec fn dated_listing(files: Seq<(Seq<u8>, u64)>) -> Seq<EventView>
    decreases files.len(),
{
    if files.len() == 0 {
        seq![]
    } else {
        let (name, mtime) = files.last();
        dated_listing(files.drop_last()) + (if decoded(name) is Some {
            seq![EventView::Entry(name), EventView::Seconds(mtime)]
        } else {
            seq![EventView::Entry(name)]
        })
    }
}

/// The packages that such a listing gives: all files whose name is text.
pub open spec fn listed(h: Host, t: TargetView, files: Seq<(Seq<u8>, u64)>) -> Seq<PoolFileView>
    decreases files.len(),
{
    if files.len() == 0 {
        seq![]
    } else {
        let (name, mtime) = files.last();
        let earlier = listed(h, t, files.drop_last());
        match decoded(name) {
            Some(file) => earlier.push(pool_file(h, t, file, mtime)),
            None => earlier,
        }
    }
}

proof fn lemma_pool_scan(
    h: Host,
    t: TargetView,
    rest: Seq<StepView>,
    files: Seq<(Seq<u8>, u64)>,
)
    ensures
        after(
            h,
            seq![StepView::Repo(RepoStepView::ScanPool { target: t, found: seq![] })] + rest,
            dated_listing(files),
        ) == seq![
            StepView::Repo(RepoStepView::ScanPool { target: t, found: listed(h, t, files) }),
        ] + rest,
    decreases files.len(),
{
    let start = seq![StepView::Repo(RepoStepView::ScanPool { target: t, found: seq![] })] + rest;
    if files.len() > 0 {
        let init = files.drop_last();
        let (name, mtime) = files.last();
        let found = listed(h, t, init);
        let scan = StepView::Repo(RepoStepView::ScanPool { target: t, found });
        lemma_pool_scan(h, t, rest, init);
        lemma_replaced(h, scan, rest, EventView::Entry(name));
        match decoded(name) {
            Some(file) => {
                let e = seq![EventView::Entry(name), EventView::Seconds(mtime)];
                let stat = StepView::Repo(RepoStepView::StatPool { target: t, file, found });
                law_runs_compose(h, start, dated_listing(init), e);
                assert(e =~= seq![EventView::Entry(name)] + seq![EventView::Seconds(mtime)]);
                law_runs_compose(
                    h,
                    seq![scan] + rest,
                    seq![EventView::Entry(name)],
                    seq![EventView::Seconds(mtime)],
                );
                lemma_replaced(h, stat, rest, EventView::Seconds(mtime));
            },
            None => {
                law_runs_compose(h, start, dated_listing(init), seq![EventView::Entry(name)]);
            },
        }
    }
}

/// All packages that a directory lists are dealt with together.
pub proof fn law_packages(
    h: Host,
    t: TargetView,
    rest: Seq<StepView>,
    files: Seq<(Seq<u8>, u64)>,
)
    ensures
        after(
            h,
            seq![StepView::Repo(RepoStepView::OpenPool(t))] + rest,
            seq![EventView::Done] + dated_listing(files) + seq![EventView::End],
        ) == pool_steps(h, t, listed(h, t, files)) + rest,
{
    let start = seq![StepView::Repo(RepoStepView::OpenPool(t))] + rest;
    law_runs_compose(
        h,
        start,
        seq![EventView::Done] + dated_listing(files),
        seq![EventView::End],
    );
    law_runs_compose(h, start, seq![EventView::Done], dated_listing(files));
    lemma_replaced(h, StepView::Repo(RepoStepView::OpenPool(t)), rest, EventView::Done);
    lemma_pool_scan(h, t, rest, files);
    lemma_replaced(
        h,
        StepView::Repo(RepoStepView::ScanPool { target: t, found: listed(h, t, files) }),
        rest,
        EventView::End,
    );
}

/// A directory of packages that does not exist is passed over.
pub proof fn law_missing_directory(h: Host, t: TargetView, rest: Seq<StepView>)
    ensures
        after(
            h,
            seq![StepView::Repo(RepoStepView::Enter(t))] + rest,
            seq![EventView::Answer(false)],
        ) == rest,
{
    lemma_replaced(h, StepView::Repo(RepoStepView::Enter(t)), rest, EventView::Answer(false));
    assert(Seq::<StepView>::empty() + rest =~= rest);
}

/// Where there are no new packages, the packages that are there are dealt with at once.
pub proof fn law_no_new_packages(
    h: Host,
    t: TargetView,
    rest: Seq<StepView>,
    files: Seq<(Seq<u8>, u64)>,
)
    ensures
        after(
            h,
            seq![StepView::Repo(RepoStepView::Enter(t))] + rest,
            seq![EventView::Answer(true), EventView::Answer(false), EventView::Done] + (seq![
                EventView::Done,
            ] + dated_listing(files) + seq![EventView::End]),
        ) == pool_steps(h, t, listed(h, t, files)) + rest,
{
    let enter = StepView::Repo(RepoStepView::Enter(t));
    let devel = StepView::Repo(RepoStepView::Devel(t));
    let said = StepView::Say("distro_deb directory "@ + t.distro);
    let pool = StepView::Repo(RepoStepView::OpenPool(t));
    let start = seq![enter] + rest;
    let a = seq![EventView::Answer(true)];
    let b = seq![EventView::Answer(false)];
    let c = seq![EventView::Done];
    let head = seq![EventView::Answer(true), EventView::Answer(false), EventView::Done];
    let tail = seq![EventView::Done] + dated_listing(files) + seq![EventView::End];
    assert(head =~= a + b + c);
    law_runs_compose(h, start, head, tail);
    law_runs_compose(h, start, a + b, c);
    law_runs_compose(h, start, a, b);
    lemma_replaced(h, enter, rest, EventView::Answer(true));
    lemma_replaced(h, devel, rest, EventView::Answer(false));
    assert(after(h, start, a + b) =~= seq![said] + (seq![pool] + rest));
    lemma_replaced(h, said, seq![pool] + rest, EventView::Done);
    assert(after(h, start, head) =~= seq![pool] + rest);
    law_packages(h, t, rest, files);
}

proof fn lemma_password_scan(
    h: Host,
    plain: Text,
    purpose: PurposeView,
    rest: Seq<StepView>,
    names: Seq<Seq<u8>>,
)
    ensures
        after(
            h,
            seq![StepView::Password(PasswordStepView::Scan { plain, purpose, seen: seq![] })]
                + rest,
            listing(names),
        ) == seq![StepView::Password(PasswordStepView::Scan { plain, purpose, seen: names })]
            + rest,
    decreases names.len(),
{
    let start = seq![StepView::Password(PasswordStepView::Scan { plain, purpose, seen: seq![] })]
        + rest;
    if names.len() == 0 {
        assert(names =~= seq![]);
    } else {
        let init = names.drop_last();
        lemma_password_scan(h, plain, purpose, rest, init);
        assert(listing(names) =~= listing(init) + seq![EventView::Entry(names.last())]);
        law_runs_compose(h, start, listing(init), seq![EventView::Entry(names.last())]);
        lemma_replaced(
            h,
            StepView::Password(PasswordStepView::Scan { plain, purpose, seen: init }),
            rest,
            EventView::Entry(names.last()),
        );
        assert(init.push(names.last()) =~= names);
    }
}

/// Where no file was given, the last of the password files that the directory lists is decrypted;
/// without one the script fails.
pub proof fn law_last_file_is_decrypted(
    h: Host,
    plain: Text,
    purpose: PurposeView,
    rest: Seq<StepView>,
    names: Seq<Seq<u8>>,
)
    ensures
        after(
            h,
            seq![StepView::Password(PasswordStepView::OpenList { plain, purpose })] + rest,
            seq![EventView::Done] + listing(names) + seq![EventView::End],
        ) == (match current_file(names) {
            Some(file) => decrypt_steps(
                joined_path(h.config.inner().password_directory@, file),
                plain,
                purpose,
            ),
            None => fail("no password file found"@),
        }) + rest,
{
    let start = seq![StepView::Password(PasswordStepView::OpenList { plain, purpose })] + rest;
    law_runs_compose(
        h,
        start,
        seq![EventView::Done] + listing(names),
        seq![EventView::End],
    );
    law_runs_compose(h, start, seq![EventView::Done], listing(names));
    lemma_replaced(
        h,
        StepView::Password(PasswordStepView::OpenList { plain, purpose }),
        rest,
        EventView::Done,
    );
    lemma_password_scan(h, plain, purpose, rest, names);
    lemma_replaced(
        h,
        StepView::Password(PasswordStepView::Scan { plain, purpose, seen: names }),
        rest,
        EventView::End,
    );
}

// ---------------------------------------------------------------------------
// Files
// ---------------------------------------------------------------------------

/// A file whose first line is read: it does not exist; it is long and cannot be opened; or it has
/// this text. The length is what the host gives, and need not be that of the text.
pub enum FileState {
    Missing,
    Unopened { length: u64 },
    Readable { length: u64, text: Text },
}

/// Only of a long file it is no failure that it cannot be opened.
pub open spec fn can_be_read(f: FileState) -> bool {
    f matches FileState::Unopened { length } ==> length >= WHOLE
}

/// A text up to the end of its first line.
pub open spec fn up_to_line_end(text: Text) -> Text {
    if position(text, '\n') < text.len() {
        text.take(position(text, '\n') + 1)
    } else {
        text
    }
}

/// The answers that such a file gives: a short one is read whole, a long one up to the end of its
/// first line.
pub open spec fn file_answers(f: FileState) -> Seq<EventView> {
    match f {
        FileState::Missing => seq![EventView::Answer(false)],
        FileState::Unopened { length } => seq![
            EventView::Answer(true),
            EventView::Length(length),
            EventView::NotOpened,
        ],
        FileState::Readable { length, text } => seq![
            EventView::Answer(true),
            EventView::Length(length),
            EventView::Text(
                if length < WHOLE {
                    text
                } else {
                    up_to_line_end(text)
                },
            ),
        ],
    }
}

/// The first line of such a file: empty where it cannot be read.
pub open spec fn line_of(f: FileState) -> Text {
    match f {
        FileState::Readable { text, .. } => first_line(text),
        _ => seq![],
    }
}

/// A text up to the end of its first line has the same first line.
proof fn lemma_line_end(text: Text)
    ensures
        trimmed(up_to_line_end(text)) == first_line(text),
{
    lemma_position(text, '\n');
    let p = position(text, '\n');
    let line = text.take(p);
    assert forall|i: int| 0 <= i < line.len() implies line[i] != '\n' by {}
    assert(!line.contains('\n'));
    if p < text.len() {
        law_first_line_agrees(line, text.skip(p + 1));
        assert(text =~= line + seq!['\n'] + text.skip(p + 1));
        assert(up_to_line_end(text) =~= line.push('\n'));
    } else {
        law_first_line_agrees(line, seq![]);
        assert(text =~= line);
    }
}

/// The first line of a file is what comes of reading it, whether it is short, long or missing.
pub proof fn law_file_is_read(
    h: Host,
    path: Text,
    goal: GoalView,
    rest: Seq<StepView>,
    f: FileState,
)
    requires
        can_be_read(f),
    ensures
        after(
            h,
            seq![StepView::FirstLine { stage: Stage::Probe, path, goal }] + rest,
            file_answers(f),
        ) == goal_steps(h, goal, line_of(f)) + rest,
{
    let probe = StepView::FirstLine { stage: Stage::Probe, path, goal };
    let measure = StepView::FirstLine { stage: Stage::Length, path, goal };
    let short = StepView::FirstLine { stage: Stage::Short, path, goal };
    let long = StepView::FirstLine { stage: Stage::Long, path, goal };
    let events = file_answers(f);
    let start = seq![probe] + rest;
    lemma_replaced(h, probe, rest, events[0]);
    if events.len() == 1 {
        assert(events =~= seq![events[0]]);
    } else {
        assert(events =~= seq![events[0]] + seq![events[1]] + seq![events[2]]);
        law_runs_compose(h, start, seq![events[0]] + seq![events[1]], seq![events[2]]);
        law_runs_compose(h, start, seq![events[0]], seq![events[1]]);
        lemma_replaced(h, measure, rest, events[1]);
        lemma_replaced(h, short, rest, events[2]);
        lemma_replaced(h, long, rest, events[2]);
        match f {
            FileState::Readable { text, .. } => {
                lemma_line_end(text);
            },
            _ => {},
        }
    }
}

/// A refresh of the host does the full routine for the name of the host, the user and the time that
/// it was told.
pub proof fn law_full_refresh(h: Host, f: FileState, user: Text, date: Text)
    requires
        can_be_read(f),
    ensures
        after(
            h,
            seq![refresh_start(Routine::Full)],
            file_answers(f) + seq![
                EventView::Done,
                EventView::Text(user),
                EventView::Text(date),
            ],
        ) == full_steps(h, line_of(f), user, date),
{
    let hostname = line_of(f);
    let start = seq![refresh_start(Routine::Full)];
    let said = StepView::Say("hostname "@ + hostname);
    let who = StepView::Refresh(RefreshStepView::User { hostname });
    let when = StepView::Refresh(RefreshStepView::Full { hostname, user });
    let none = Seq::<StepView>::empty();
    let a = seq![EventView::Done];
    let b = seq![EventView::Text(user)];
    let c = seq![EventView::Text(date)];
    let tail = seq![EventView::Done, EventView::Text(user), EventView::Text(date)];
    assert(start =~= start + none);
    assert(tail =~= a + b + c);
    law_runs_compose(h, start, file_answers(f), tail);
    law_file_is_read(h, "/etc/hostname"@, GoalView::Hostname(Routine::Full), none, f);
    let named = seq![said] + seq![who];
    assert(after(h, start, file_answers(f)) =~= named);
    law_runs_compose(h, named, a + b, c);
    law_runs_compose(h, named, a, b);
    lemma_replaced(h, said, seq![who], EventView::Done);
    assert(after(h, named, a) =~= seq![who] + none);
    lemma_replaced(h, who, none, EventView::Text(user));
    assert(after(h, named, a + b) =~= seq![when] + none);
    lemma_replaced(h, when, none, EventView::Text(date));
    assert(full_steps(h, hostname, user, date) + none =~= full_steps(h, hostname, user, date));
}

/// The same for the basic routine, which needs no user.
pub proof fn law_basic_refresh(h: Host, f: FileState, date: Text)
    requires
        can_be_read(f),
    ensures
        after(
            h,
            seq![refresh_start(Routine::Basic)],
            file_answers(f) + seq![EventView::Done, EventView::Text(date)],
        ) == basic_steps(h, line_of(f), date),
{
    let hostname = line_of(f);
    let start = seq![refresh_start(Routine::Basic)];
    let said = StepView::Say("hostname "@ + hostname);
    let when = StepView::Refresh(RefreshStepView::Basic { hostname });
    let none = Seq::<StepView>::empty();
    let a = seq![EventView::Done];
    let b = seq![EventView::Text(date)];
    let tail = seq![EventView::Done, EventView::Text(date)];
    assert(start =~= start + none);
    assert(tail =~= a + b);
    law_runs_compose(h, start, file_answers(f), tail);
    law_file_is_read(h, "/etc/hostname"@, GoalView::Hostname(Routine::Basic), none, f);
    let named = seq![said] + seq![when];
    assert(after(h, start, file_answers(f)) =~= named);
    law_runs_compose(h, named, a, b);
    lemma_replaced(h, said, seq![when], EventView::Done);
    assert(after(h, named, a) =~= seq![when] + none);
    lemma_replaced(h, when, none, EventView::Text(date));
    assert(basic_steps(h, hostname, date) + none =~= basic_steps(h, hostname, date));
}

// ---------------------------------------------------------------------------
// The report
// ---------------------------------------------------------------------------

/// The answers to the question whether a report can be started, and to its start.
pub open spec fn starts(found: bool) -> Seq<EventView> {
    if found {
        seq![EventView::Answer(true), EventView::Done]
    } else {
        seq![EventView::Answer(false)]
    }
}

proof fn lemma_weather(h: Host, found: bool)
    ensures
        after(h, seq![StepView::Stats(StatsStepView::Weather)], starts(found)) == seq![
            StepView::Stats(StatsStepView::Calendar { weather: found }),
        ],
{
    let none = Seq::<StepView>::empty();
    let first = StepView::Stats(StatsStepView::Weather);
    let next = StepView::Stats(StatsStepView::Calendar { weather: found });
    let spawn = StepView::Stats(StatsStepView::Spawn(Slot::Weather));
    assert(seq![first] =~= seq![first] + none);
    lemma_replaced(h, first, none, EventView::Answer(found));
    if found {
        assert(starts(found) =~= seq![EventView::Answer(true)] + seq![EventView::Done]);
        law_runs_compose(
            h,
            seq![first],
            seq![EventView::Answer(true)],
            seq![EventView::Done],
        );
        assert(after(h, seq![first], seq![EventView::Answer(true)]) =~= seq![spawn] + seq![next]);
        lemma_replaced(h, spawn, seq![next], EventView::Done);
        assert(after(h, seq![first], starts(found)) =~= seq![next]);
    } else {
        assert(after(h, seq![first], starts(found)) =~= seq![next]);
    }
}

proof fn lemma_calendar(h: Host, weather: bool, found: bool)
    ensures
        after(
            h,
            seq![StepView::Stats(StatsStepView::Calendar { weather })],
            starts(found),
        ) == seq![
            StepView::FirstLine {
                stage: Stage::Probe,
                path: h.config.inner().frequency_path@,
                goal: GoalView::Frequency(Tools { weather, calendar: found }),
            },
        ],
{
    let none = Seq::<StepView>::empty();
    let first = StepView::Stats(StatsStepView::Calendar { weather });
    let next = StepView::FirstLine {
        stage: Stage::Probe,
        path: h.config.inner().frequency_path@,
        goal: GoalView::Frequency(Tools { weather, calendar: found }),
    };
    let spawn = StepView::Stats(StatsStepView::Spawn(Slot::Calendar));
    assert(seq![first] =~= seq![first] + none);
    lemma_replaced(h, first, none, EventView::Answer(found));
    if found {
        assert(starts(found) =~= seq![EventView::Answer(true)] + seq![EventView::Done]);
        law_runs_compose(
            h,
            seq![first],
            seq![EventView::Answer(true)],
            seq![EventView::Done],
        );
        assert(after(h, seq![first], seq![EventView::Answer(true)]) =~= seq![spawn] + seq![next]);
        lemma_replaced(h, spawn, seq![next], EventView::Done);
        assert(after(h, seq![first], starts(found)) =~= seq![next]);
    } else {
        assert(after(h, seq![first], starts(found)) =~= seq![next]);
    }
}

/// What the report says is what was read: the frequency, the temperature and the time since the
/// host was started, and the reports that were started.
pub proof fn law_report(
    h: Host,
    tools: Tools,
    frequency: FileState,
    temperature: FileState,
    uptime: FileState,
    seconds: i64,
    fraction: Text,
)
    requires
        can_be_read(frequency),
        can_be_read(temperature),
        can_be_read(uptime),
    ensures
        after(
            h,
            seq![StepView::Stats(StatsStepView::Weather)],
            starts(tools.weather) + starts(tools.calendar) + file_answers(frequency)
                + file_answers(temperature) + file_answers(uptime) + seq![
                EventView::Uptime { whole_seconds: seconds, subseconds: fraction },
            ],
        ) == report_steps(
            tools,
            reading(line_of(frequency)),
            reading(line_of(temperature)),
            seconds as int,
            fraction,
        ),
{
    let none = Seq::<StepView>::empty();
    let start = seq![StepView::Stats(StatsStepView::Weather)];
    let f = reading(line_of(frequency)) as i64;
    let t = reading(line_of(temperature)) as i64;
    let e1 = starts(tools.weather);
    let e2 = starts(tools.calendar);
    let e3 = file_answers(frequency);
    let e4 = file_answers(temperature);
    let e5 = file_answers(uptime);
    let e6 = seq![EventView::Uptime { whole_seconds: seconds, subseconds: fraction }];
    law_runs_compose(h, start, e1 + e2 + e3 + e4 + e5, e6);
    law_runs_compose(h, start, e1 + e2 + e3 + e4, e5);
    law_runs_compose(h, start, e1 + e2 + e3, e4);
    law_runs_compose(h, start, e1 + e2, e3);
    law_runs_compose(h, start, e1, e2);
    lemma_weather(h, tools.weather);
    lemma_calendar(h, tools.weather, tools.calendar);
    let s2 = after(h, start, e1 + e2);
    let p1 = h.config.inner().frequency_path@;
    let p2 = h.config.inner().temperature_path@;
    let p3 = h.config.inner().uptime_path@;
    let g1 = GoalView::Frequency(tools);
    let g2 = GoalView::Temperature { tools, frequency: f };
    let g3 = GoalView::Uptime { tools, frequency: f, temperature: t };
    let read1 = StepView::FirstLine { stage: Stage::Probe, path: p1, goal: g1 };
    let read2 = StepView::FirstLine { stage: Stage::Probe, path: p2, goal: g2 };
    let read3 = StepView::FirstLine { stage: Stage::Probe, path: p3, goal: g3 };
    let last = StepView::Stats(
        StatsStepView::Measure {
            word: first_word(line_of(uptime)),
            tools,
            frequency: f,
            temperature: t,
        },
    );
    assert(s2 =~= seq![read1] + none);
    law_file_is_read(h, p1, g1, none, frequency);
    assert(after(h, start, e1 + e2 + e3) =~= seq![read2] + none);
    law_file_is_read(h, p2, g2, none, temperature);
    assert(after(h, start, e1 + e2 + e3 + e4) =~= seq![read3] + none);
    law_file_is_read(h, p3, g3, none, uptime);
    assert(after(h, start, e1 + e2 + e3 + e4 + e5) =~= seq![last] + none);
    lemma_replaced(
        h,
        last,
        none,
        EventView::Uptime { whole_seconds: seconds, subseconds: fraction },
    );
    let report = report_steps(tools, f as int, t as int, seconds as int, fraction);
    assert(report + none =~= report);
}

} // verus!
