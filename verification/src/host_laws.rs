//! What the scripts for repositories and for the report do from their beginning to their end, and
//! what the settings are.

use vstd::prelude::*;

use crate::action::{ActionView, CommandView, EventView, Slot};
use crate::config::{completes, env_file_path, ConfigInner, ConfigSource};
use crate::first_line::goal_steps;
use crate::git::{
    all_repo_paths, branch_steps, git_directory_steps, main_branch, process_lines,
};
use crate::host::Host;
use crate::number::{decimal, decimal2};
use crate::outside::{path_shown, stack_lossy_text};
use crate::path::joined_path;
use crate::refresh_laws::{law_file_questions, questions};
use crate::runs::{can_be_read, file_answers, line_of, starts, FileState};
use crate::script::{after, ask, expand};
use crate::search::first_word;
use crate::stats::{
    clock_text, days, hours, minutes, reading, remainder, report_steps, uptime_text, weeks,
};
use crate::step::{GoalView, Stage, StatsStepView, StepView, Tools};
use crate::text::{joined, texts, Text};
use crate::text_laws::law_occurs;
use crate::trace::{goes, lemma_goes_on, lemma_start, lemma_then, provided};

verus! {

// ---------------------------------------------------------------------------
// Repositories
// ---------------------------------------------------------------------------

/// `git` in a repository.
pub open spec fn in_repository(dir: Text, args: Seq<Text>) -> CommandView {
    CommandView { program: "git"@, args, dir: Some(dir) }
}

/// Whether one text stands in another, with some text before it and some after it.
pub open spec fn stands_in(listing: Text, pat: Text) -> bool {
    exists|a: Text, b: Text| listing == #[trigger] (a + pat + b)
}

/// The branch to bring up to date is `main` where the listing holds ` main`; else `master` where it
/// holds ` master`, whatever other branches there are; else there is none.
pub proof fn law_main_branch(listing: Text)
    ensures
        stands_in(listing, " main"@) <==> main_branch(listing) == Some("main"@),
        !stands_in(listing, " main"@) && stands_in(listing, " master"@) <==> main_branch(listing)
            == Some("master"@),
        !stands_in(listing, " main"@) && !stands_in(listing, " master"@) <==> main_branch(
            listing,
        ) is None,
{
    law_occurs(listing, " main"@);
    law_occurs(listing, " master"@);
    reveal_strlit("main");
    reveal_strlit("master");
    assert("main"@.len() != "master"@.len());
}

/// What a repository is asked for to bring this branch up to date.
pub open spec fn branch_actions(dir: Text, branch: Text) -> Seq<ActionView> {
    seq![
        ActionView::Status(in_repository(dir, seq!["checkout"@, branch])),
        ActionView::Status(in_repository(dir, seq!["pull"@])),
        ActionView::Status(in_repository(dir, seq!["pull"@, "--tags"@])),
        ActionView::Status(in_repository(dir, seq!["push"@])),
        ActionView::Status(in_repository(dir, seq!["push"@, "--tags"@])),
    ]
}

/// What a repository is asked for at the beginning: what is not committed is put aside, and its
/// branches are listed.
pub open spec fn first_actions(dir: Text) -> Seq<ActionView> {
    seq![
        ActionView::Pipe(in_repository(dir, seq!["stash"@])),
        ActionView::Output(in_repository(dir, seq!["branch"@])),
    ]
}

/// What a repository is asked for at the end: it is packed.
pub open spec fn last_actions(dir: Text) -> Seq<ActionView> {
    seq![ActionView::Pipe(in_repository(dir, seq!["gc"@]))]
}

/// That a program succeeded.
pub open spec fn success() -> EventView {
    EventView::Exit(Some(0i32))
}

proof fn lemma_branch(
    h: Host,
    dir: Text,
    output: Seq<u8>,
    branch: Text,
    c: Seq<Option<i32>>,
)
    requires
        main_branch(stack_lossy_text(output)) == Some(branch),
        c.len() == 5,
    ensures
        goes(
            h,
            git_directory_steps(dir),
            seq![success(), EventView::Output(output)] + c.map_values(
                |code: Option<i32>| EventView::Exit(code),
            ) + seq![success()],
            seq![],
            first_actions(dir) + branch_actions(dir, branch) + last_actions(dir),
        ),
{
    let todo = git_directory_steps(dir);
    let none = Seq::<StepView>::empty();
    let (s0, s1, s2) = (todo[0], todo[1], todo[2]);
    let b = branch_steps(dir, branch);
    let e0 = Seq::<EventView>::empty();
    let t0 = Seq::<ActionView>::empty();
    lemma_start(h, todo);
    assert(todo =~= seq![s0] + seq![s1, s2]);
    lemma_then(h, todo, e0, s0, seq![s1, s2], t0, success());
    let e1 = e0.push(success());
    let t1 = t0.push(ActionView::Pipe(in_repository(dir, seq!["stash"@])));
    assert(after(h, todo, e1) =~= seq![s1] + seq![s2]);
    lemma_then(h, todo, e1, s1, seq![s2], t1, EventView::Output(output));
    let e2 = e1.push(EventView::Output(output));
    let t2 = t1.push(ActionView::Output(in_repository(dir, seq!["branch"@])));
    let acts = branch_actions(dir, branch);
    assert(after(h, todo, e2) =~= seq![b[0]] + seq![b[1], b[2], b[3], b[4], s2]);
    lemma_then(h, todo, e2, b[0], seq![b[1], b[2], b[3], b[4], s2], t2, EventView::Exit(c[0]));
    let e3 = e2.push(EventView::Exit(c[0]));
    let t3 = t2.push(acts[0]);
    assert(after(h, todo, e3) =~= seq![b[1]] + seq![b[2], b[3], b[4], s2]);
    lemma_then(h, todo, e3, b[1], seq![b[2], b[3], b[4], s2], t3, EventView::Exit(c[1]));
    let e4 = e3.push(EventView::Exit(c[1]));
    let t4 = t3.push(acts[1]);
    assert(after(h, todo, e4) =~= seq![b[2]] + seq![b[3], b[4], s2]);
    lemma_then(h, todo, e4, b[2], seq![b[3], b[4], s2], t4, EventView::Exit(c[2]));
    let e5 = e4.push(EventView::Exit(c[2]));
    let t5 = t4.push(acts[2]);
    assert(after(h, todo, e5) =~= seq![b[3]] + seq![b[4], s2]);
    lemma_then(h, todo, e5, b[3], seq![b[4], s2], t5, EventView::Exit(c[3]));
    let e6 = e5.push(EventView::Exit(c[3]));
    let t6 = t5.push(acts[3]);
    assert(after(h, todo, e6) =~= seq![b[4]] + seq![s2]);
    lemma_then(h, todo, e6, b[4], seq![s2], t6, EventView::Exit(c[4]));
    let e7 = e6.push(EventView::Exit(c[4]));
    let t7 = t6.push(acts[4]);
    assert(after(h, todo, e7) =~= seq![s2] + none);
    lemma_then(h, todo, e7, s2, none, t7, success());
    let e8 = e7.push(success());
    assert(after(h, todo, e8) =~= none);
    assert(e8 =~= seq![success(), EventView::Output(output)] + c.map_values(
        |code: Option<i32>| EventView::Exit(code),
    ) + seq![success()]);
    assert(t7.push(last_actions(dir)[0]) =~= first_actions(dir) + acts + last_actions(dir));
}

/// A repository is brought up to date on `main` where it has that branch, else on `master` where it
/// has that one, and on no other; how the commands on the branch end does not matter. Where it has
/// neither, no branch is touched. In any case it is packed at the end.
pub proof fn law_repository(h: Host, dir: Text, output: Seq<u8>, codes: Seq<Option<i32>>)
    requires
        codes.len() == 5,
    ensures
        ({
            let listing = stack_lossy_text(output);
            let begun = seq![success(), EventView::Output(output)];
            let all = begun + codes.map_values(|code: Option<i32>| EventView::Exit(code)) + seq![
                success(),
            ];
            &&& stands_in(listing, " main"@) ==> goes(
                h,
                git_directory_steps(dir),
                all,
                seq![],
                first_actions(dir) + branch_actions(dir, "main"@) + last_actions(dir),
            )
            &&& !stands_in(listing, " main"@) && stands_in(listing, " master"@) ==> goes(
                h,
                git_directory_steps(dir),
                all,
                seq![],
                first_actions(dir) + branch_actions(dir, "master"@) + last_actions(dir),
            )
            &&& !stands_in(listing, " main"@) && !stands_in(listing, " master"@) ==> goes(
                h,
                git_directory_steps(dir),
                begun + seq![success()],
                seq![],
                first_actions(dir) + last_actions(dir),
            )
        }),
{
    let listing = stack_lossy_text(output);
    law_main_branch(listing);
    match main_branch(listing) {
        Some(branch) => {
            lemma_branch(h, dir, output, branch, codes);
        },
        None => {
            let todo = git_directory_steps(dir);
            let none = Seq::<StepView>::empty();
            let (s0, s1, s2) = (todo[0], todo[1], todo[2]);
            let e0 = Seq::<EventView>::empty();
            let t0 = Seq::<ActionView>::empty();
            lemma_start(h, todo);
            assert(todo =~= seq![s0] + seq![s1, s2]);
            lemma_then(h, todo, e0, s0, seq![s1, s2], t0, success());
            let e1 = e0.push(success());
            let t1 = t0.push(first_actions(dir)[0]);
            assert(after(h, todo, e1) =~= seq![s1] + seq![s2]);
            lemma_then(h, todo, e1, s1, seq![s2], t1, EventView::Output(output));
            let e2 = e1.push(EventView::Output(output));
            let t2 = t1.push(first_actions(dir)[1]);
            assert(after(h, todo, e2) =~= seq![s2] + none);
            lemma_then(h, todo, e2, s2, none, t2, success());
            assert(after(h, todo, e2.push(success())) =~= none);
            assert(e2.push(success()) =~= seq![success(), EventView::Output(output)] + seq![
                success(),
            ]);
            assert(t2.push(last_actions(dir)[0]) =~= first_actions(dir) + last_actions(dir));
        },
    }
}

/// A repository that cannot be packed, or in which nothing can be put aside, is told of, and is an
/// error.
pub proof fn law_repository_failures(h: Host, dir: Text, code: i32)
    requires
        code != 0,
    ensures
        ({
            let stash = "git stash"@ + " failed with "@ + decimal(code as int);
            let gc = "git gc"@ + " failed with "@ + decimal(code as int);
            let e = EventView::Exit(Some(code));
            &&& expand(h, git_directory_steps(dir)[0], e) == seq![
                StepView::Say(stash),
                StepView::Halt(Some(stash)),
            ]
            &&& expand(h, git_directory_steps(dir)[2], e) == seq![
                StepView::Say(gc),
                StepView::Halt(Some(gc)),
            ]
            &&& git_directory_steps(dir).len() == 3
        }),
{
    let stash = "git stash"@ + " failed with "@ + decimal(code as int);
    let gc = "git gc"@ + " failed with "@ + decimal(code as int);
    let e = EventView::Exit(Some(code));
    assert(expand(h, git_directory_steps(dir)[0], e) =~= seq![
        StepView::Say(stash),
        StepView::Halt(Some(stash)),
    ]);
    assert(expand(h, git_directory_steps(dir)[2], e) =~= seq![
        StepView::Say(gc),
        StepView::Halt(Some(gc)),
    ]);
}

/// Each repository of the workspace, then each build repository, is brought up to date where it is,
/// and said to be.
pub proof fn law_all_repositories(h: Host, i: int)
    ensures
        ({
            let c = h.config.inner();
            let n = c.workspace_repos@.len();
            let m = c.setup_files_repos@.len();
            let paths = all_repo_paths(h);
            let said = process_lines(paths);
            &&& paths.len() == n + m
            &&& said.len() == n + m
            &&& 0 <= i < n ==> paths[i] == joined_path(c.workspace_path@, c.workspace_repos@[i]@)
            &&& 0 <= i < m ==> paths[n + i] == joined_path(
                c.setup_files_path@,
                c.setup_files_repos@[i]@,
            )
            &&& 0 <= i < n + m ==> said[i] == "Process "@ + path_shown(paths[i])
        }),
{
}

// ---------------------------------------------------------------------------
// The report
// ---------------------------------------------------------------------------

proof fn lemma_parts(w: int, d: int, hh: int, mm: int, ss: int)
    requires
        0 <= w,
        0 <= d < 7,
        0 <= hh < 24,
        0 <= mm < 60,
        0 <= ss < 60,
    ensures
        ({
            let x = 604_800 * w + 86_400 * d + 3_600 * hh + 60 * mm + ss;
            &&& weeks(x) == w
            &&& days(x) == d
            &&& hours(x) == hh
            &&& minutes(x) == mm
            &&& remainder(x, 60) == ss
        }),
{
    let x = 604_800 * w + 86_400 * d + 3_600 * hh + 60 * mm + ss;
    assert(x / 60 == 10_080 * w + 1_440 * d + 60 * hh + mm);
    assert(x / 3_600 == 168 * w + 24 * d + hh);
    assert(x / 86_400 == 7 * w + d);
    assert(x / 604_800 == w);
    assert(x % 60 == ss);
    assert((10_080 * w + 1_440 * d + 60 * hh + mm) % 60 == mm);
    assert((168 * w + 24 * d + hh) % 24 == hh);
    assert((7 * w + d) % 7 == d);
}

proof fn lemma_join_one(a: Text, sep: Text)
    ensures
        joined(seq![a], sep) == a,
{
}

proof fn lemma_join_more(a: Text, rest: Seq<Text>, sep: Text)
    requires
        rest.len() > 0,
    ensures
        joined(seq![a] + rest, sep) == a + sep + joined(rest, sep),
{
    assert((seq![a] + rest).drop_first() =~= rest);
    assert((seq![a] + rest)[0] == a);
}

/// A span of time is written as its weeks and its days, as far as there are any, and as hours,
/// minutes and seconds of two digits each, with the fraction of a second behind them.
pub proof fn law_uptime_text(w: int, d: int, hh: int, mm: int, ss: int, fraction: Text)
    requires
        0 <= w,
        0 <= d < 7,
        0 <= hh < 24,
        0 <= mm < 60,
        0 <= ss < 60,
    ensures
        uptime_text(604_800 * w + 86_400 * d + 3_600 * hh + 60 * mm + ss, fraction) == (if w > 0 {
            decimal(w) + " weeks"@ + " "@
        } else {
            seq![]
        }) + ((if d > 0 {
            decimal(d) + " days"@ + " "@
        } else {
            seq![]
        }) + (decimal2(hh) + ":"@ + decimal2(mm) + ":"@ + decimal2(ss) + fraction.skip(1))),
{
    let x = 604_800 * w + 86_400 * d + 3_600 * hh + 60 * mm + ss;
    lemma_parts(w, d, hh, mm, ss);
    let last = decimal2(hh) + ":"@ + decimal2(mm) + ":"@ + decimal2(ss) + fraction.skip(1);
    assert(clock_text(x, fraction) == last);
    lemma_uptime_joined(x, fraction, decimal(w) + " weeks"@, decimal(d) + " days"@, last);
}

proof fn lemma_uptime_joined(x: int, fraction: Text, a: Text, b: Text, last: Text)
    requires
        a == decimal(weeks(x)) + " weeks"@,
        b == decimal(days(x)) + " days"@,
        last == clock_text(x, fraction),
    ensures
        uptime_text(x, fraction) == (if weeks(x) > 0 {
            a + " "@
        } else {
            seq![]
        }) + ((if days(x) > 0 {
            b + " "@
        } else {
            seq![]
        }) + last),
{
    let none = Seq::<Text>::empty();
    let w = if weeks(x) > 0 {
        seq![a]
    } else {
        none
    };
    let d = if days(x) > 0 {
        seq![b]
    } else {
        none
    };
    let tail = d + seq![last];
    assert(uptime_text(x, fraction) == joined(w + d + seq![last], " "@));
    assert(w + d + seq![last] =~= w + tail);
    lemma_join_one(last, " "@);
    if days(x) > 0 {
        lemma_join_more(b, seq![last], " "@);
    } else {
        assert(tail =~= seq![last]);
        assert(Seq::<char>::empty() + last =~= last);
    }
    if weeks(x) > 0 {
        lemma_join_more(a, tail, " "@);
    } else {
        assert(w + tail =~= tail);
        assert(Seq::<char>::empty() + joined(tail, " "@) =~= joined(tail, " "@));
    }
}

/// The answers to the lines of the report, and to what one of the programs wrote.
pub open spec fn shown_answers(tools: Tools, weather: Seq<u8>, agenda: Seq<u8>) -> Seq<EventView> {
    seq![EventView::Done, EventView::Done] + (if tools.weather {
        seq![EventView::Done, EventView::Output(weather), EventView::Done]
    } else {
        seq![]
    }) + (if tools.calendar {
        seq![EventView::Done, EventView::Output(agenda), EventView::Done]
    } else {
        seq![]
    })
}

/// What the report shows: two lines about the host; the weather, where its program was started; and
/// the agenda, where its program was started.
pub open spec fn shown(
    tools: Tools,
    frequency: int,
    temperature: int,
    seconds: int,
    fraction: Text,
    weather: Seq<u8>,
    agenda: Seq<u8>,
) -> Seq<ActionView> {
    seq![
        ActionView::Say(
            "Uptime "@ + decimal(seconds) + " seconds or "@ + uptime_text(seconds, fraction),
        ),
        ActionView::Say(
            "Temperature "@ + decimal(temperature) + " C  CpuFreq "@ + decimal(frequency)
                + " MHz"@,
        ),
    ] + provided(
        tools.weather,
        seq![
            ActionView::Say("\nWeather:"@),
            ActionView::Collect(Slot::Weather),
            ActionView::Say(stack_lossy_text(weather)),
        ],
    ) + provided(
        tools.calendar,
        seq![
            ActionView::Say("\nAgenda:"@),
            ActionView::Collect(Slot::Calendar),
            ActionView::Say(stack_lossy_text(agenda)),
        ],
    )
}

proof fn lemma_collected(h: Host, title: Text, slot: Slot, bytes: Seq<u8>, rest: Seq<StepView>)
    ensures
        goes(
            h,
            seq![StepView::Say(title), StepView::Stats(StatsStepView::Collect(slot))] + rest,
            seq![EventView::Done, EventView::Output(bytes), EventView::Done],
            rest,
            seq![
                ActionView::Say(title),
                ActionView::Collect(slot),
                ActionView::Say(stack_lossy_text(bytes)),
            ],
        ),
{
    let a = StepView::Say(title);
    let b = StepView::Stats(StatsStepView::Collect(slot));
    let c = StepView::Say(stack_lossy_text(bytes));
    let todo = seq![a, b] + rest;
    let e0 = Seq::<EventView>::empty();
    let t0 = Seq::<ActionView>::empty();
    lemma_start(h, todo);
    assert(todo =~= seq![a] + (seq![b] + rest));
    lemma_then(h, todo, e0, a, seq![b] + rest, t0, EventView::Done);
    let e1 = e0.push(EventView::Done);
    let t1 = t0.push(ActionView::Say(title));
    assert(after(h, todo, e1) =~= seq![b] + rest);
    lemma_then(h, todo, e1, b, rest, t1, EventView::Output(bytes));
    let e2 = e1.push(EventView::Output(bytes));
    let t2 = t1.push(ActionView::Collect(slot));
    assert(after(h, todo, e2) =~= seq![c] + rest);
    lemma_then(h, todo, e2, c, rest, t2, EventView::Done);
    let e3 = e2.push(EventView::Done);
    assert(after(h, todo, e3) =~= rest);
    assert(e3 =~= seq![EventView::Done, EventView::Output(bytes), EventView::Done]);
    assert(t2.push(ActionView::Say(stack_lossy_text(bytes))) =~= seq![
        ActionView::Say(title),
        ActionView::Collect(slot),
        ActionView::Say(stack_lossy_text(bytes)),
    ]);
}

proof fn lemma_shown(
    h: Host,
    tools: Tools,
    frequency: int,
    temperature: int,
    seconds: int,
    fraction: Text,
    weather: Seq<u8>,
    agenda: Seq<u8>,
)
    ensures
        goes(
            h,
            report_steps(tools, frequency, temperature, seconds, fraction),
            shown_answers(tools, weather, agenda),
            seq![],
            shown(tools, frequency, temperature, seconds, fraction, weather, agenda),
        ),
{
    let todo = report_steps(tools, frequency, temperature, seconds, fraction);
    let none = Seq::<StepView>::empty();
    let e0 = Seq::<EventView>::empty();
    let t0 = Seq::<ActionView>::empty();
    let all = shown(tools, frequency, temperature, seconds, fraction, weather, agenda);
    let w = seq![
        StepView::Say("\nWeather:"@),
        StepView::Stats(StatsStepView::Collect(Slot::Weather)),
    ];
    let c = seq![
        StepView::Say("\nAgenda:"@),
        StepView::Stats(StatsStepView::Collect(Slot::Calendar)),
    ];
    let tail = if tools.calendar {
        c
    } else {
        none
    };
    let more = if tools.weather {
        w + tail
    } else {
        tail
    };
    let (a, b) = (todo[0], todo[1]);
    assert(todo =~= seq![a] + (seq![b] + more));
    lemma_start(h, todo);
    lemma_then(h, todo, e0, a, seq![b] + more, t0, EventView::Done);
    let e1 = e0.push(EventView::Done);
    let t1 = t0.push(all[0]);
    assert(after(h, todo, e1) =~= seq![b] + more);
    lemma_then(h, todo, e1, b, more, t1, EventView::Done);
    let e2 = e1.push(EventView::Done);
    let t2 = t1.push(all[1]);
    assert(after(h, todo, e2) =~= more);
    let ew = if tools.weather {
        seq![EventView::Done, EventView::Output(weather), EventView::Done]
    } else {
        seq![]
    };
    let tw = provided(
        tools.weather,
        seq![
            ActionView::Say("\nWeather:"@),
            ActionView::Collect(Slot::Weather),
            ActionView::Say(stack_lossy_text(weather)),
        ],
    );
    let ec = if tools.calendar {
        seq![EventView::Done, EventView::Output(agenda), EventView::Done]
    } else {
        seq![]
    };
    let tc = provided(
        tools.calendar,
        seq![
            ActionView::Say("\nAgenda:"@),
            ActionView::Collect(Slot::Calendar),
            ActionView::Say(stack_lossy_text(agenda)),
        ],
    );
    if tools.weather {
        lemma_collected(h, "\nWeather:"@, Slot::Weather, weather, tail);
    } else {
        lemma_start(h, tail);
    }
    if tools.calendar {
        lemma_collected(h, "\nAgenda:"@, Slot::Calendar, agenda, none);
        assert(c + none =~= c);
    } else {
        lemma_start(h, none);
    }
    lemma_goes_on(h, todo, e2, more, ew, tail, t2, tw);
    lemma_goes_on(h, todo, e2 + ew, tail, ec, none, t2 + tw, tc);
    assert(e2 + ew + ec =~= shown_answers(tools, weather, agenda));
    assert(t2 + tw + tc =~= all);
}

/// What is asked for to start a program that is there.
pub open spec fn starting(
    path: Text,
    args: Seq<Text>,
    slot: Slot,
    found: bool,
) -> Seq<ActionView> {
    seq![ActionView::Exists(path)] + provided(
        found,
        seq![
            ActionView::Spawn { slot, command: CommandView { program: path, args, dir: None } },
        ],
    )
}

proof fn lemma_starting(
    h: Host,
    first: StepView,
    slot: Slot,
    path: Text,
    args: Seq<Text>,
    found: bool,
    next: StepView,
)
    requires
        first == StepView::Stats(StatsStepView::Weather) || first is Stats && first->Stats_0
            is Calendar,
        ask(h, first) == ActionView::Exists(path),
        ask(h, StepView::Stats(StatsStepView::Spawn(slot))) == (ActionView::Spawn {
            slot,
            command: CommandView { program: path, args, dir: None },
        }),
        expand(h, first, EventView::Answer(found)) == (if found {
            seq![StepView::Stats(StatsStepView::Spawn(slot)), next]
        } else {
            seq![next]
        }),
    ensures
        goes(h, seq![first], starts(found), seq![next], starting(path, args, slot, found)),
{
    let none = Seq::<StepView>::empty();
    let todo = seq![first];
    let e0 = Seq::<EventView>::empty();
    let t0 = Seq::<ActionView>::empty();
    lemma_start(h, todo);
    assert(todo =~= seq![first] + none);
    lemma_then(h, todo, e0, first, none, t0, EventView::Answer(found));
    let e1 = e0.push(EventView::Answer(found));
    let t1 = t0.push(ActionView::Exists(path));
    if found {
        let spawn = StepView::Stats(StatsStepView::Spawn(slot));
        assert(after(h, todo, e1) =~= seq![spawn] + seq![next]);
        lemma_then(h, todo, e1, spawn, seq![next], t1, EventView::Done);
        assert(after(h, todo, e1.push(EventView::Done)) =~= seq![next]);
        assert(e1.push(EventView::Done) =~= starts(found));
        assert(t1.push(ask(h, spawn)) =~= starting(path, args, slot, found));
    } else {
        assert(after(h, todo, e1) =~= seq![next]);
        assert(e1 =~= starts(found));
        assert(t1 =~= starting(path, args, slot, found));
    }
}

/// The report asks which of its programs are there and starts those; reads how fast and how warm
/// the processor is and how long the host has been up; and shows it all. Each program that was
/// started is waited for and shown, whether or not the other one is there.
pub proof fn law_whole_report(
    h: Host,
    tools: Tools,
    frequency: FileState,
    temperature: FileState,
    uptime: FileState,
    seconds: i64,
    fraction: Text,
    weather: Seq<u8>,
    agenda: Seq<u8>,
)
    requires
        can_be_read(frequency),
        can_be_read(temperature),
        can_be_read(uptime),
        fraction.len() >= 1,
    ensures
        goes(
            h,
            seq![StepView::Stats(StatsStepView::Weather)],
            starts(tools.weather) + starts(tools.calendar) + file_answers(frequency)
                + file_answers(temperature) + file_answers(uptime) + seq![
                EventView::Uptime { whole_seconds: seconds, subseconds: fraction },
            ] + shown_answers(tools, weather, agenda),
            seq![],
            starting(
                h.config.inner().weather_util_path@,
                seq!["-z"@, "11106"@],
                Slot::Weather,
                tools.weather,
            ) + starting(
                h.config.inner().calendar_app_path@,
                seq![],
                Slot::Calendar,
                tools.calendar,
            ) + questions(h.config.inner().frequency_path@, frequency) + questions(
                h.config.inner().temperature_path@,
                temperature,
            ) + questions(h.config.inner().uptime_path@, uptime) + seq![
                ActionView::Measure(first_word(line_of(uptime))),
            ] + shown(
                tools,
                reading(line_of(frequency)),
                reading(line_of(temperature)),
                seconds as int,
                fraction,
                weather,
                agenda,
            ),
        ),
{
    let none = Seq::<StepView>::empty();
    let start = seq![StepView::Stats(StatsStepView::Weather)];
    let f = reading(line_of(frequency)) as i64;
    let t = reading(line_of(temperature)) as i64;
    lemma_reading_fits(line_of(frequency));
    lemma_reading_fits(line_of(temperature));
    let calendar = StepView::Stats(StatsStepView::Calendar { weather: tools.weather });
    let p1 = h.config.inner().frequency_path@;
    let p2 = h.config.inner().temperature_path@;
    let p3 = h.config.inner().uptime_path@;
    let g1 = GoalView::Frequency(tools);
    let g2 = GoalView::Temperature { tools, frequency: f };
    let g3 = GoalView::Uptime { tools, frequency: f, temperature: t };
    let read1 = StepView::FirstLine { stage: Stage::Probe, path: p1, goal: g1 };
    let read2 = StepView::FirstLine { stage: Stage::Probe, path: p2, goal: g2 };
    let read3 = StepView::FirstLine { stage: Stage::Probe, path: p3, goal: g3 };
    let word = first_word(line_of(uptime));
    let last = StepView::Stats(
        StatsStepView::Measure { word, tools, frequency: f, temperature: t },
    );
    let e1 = starts(tools.weather);
    let e2 = starts(tools.calendar);
    let e3 = file_answers(frequency);
    let e4 = file_answers(temperature);
    let e5 = file_answers(uptime);
    let up = EventView::Uptime { whole_seconds: seconds, subseconds: fraction };
    let e6 = seq![up];
    let e7 = shown_answers(tools, weather, agenda);
    let wp = h.config.inner().weather_util_path@;
    let cp = h.config.inner().calendar_app_path@;
    let t1 = starting(wp, seq!["-z"@, "11106"@], Slot::Weather, tools.weather);
    let t2 = starting(cp, seq![], Slot::Calendar, tools.calendar);
    let t3 = questions(p1, frequency);
    let t4 = questions(p2, temperature);
    let t5 = questions(p3, uptime);
    let t6 = seq![ActionView::Measure(word)];
    let t7 = shown(tools, f as int, t as int, seconds as int, fraction, weather, agenda);
    let report = report_steps(tools, f as int, t as int, seconds as int, fraction);
    assert(expand(h, start[0], EventView::Answer(tools.weather)) =~= (if tools.weather {
        seq![StepView::Stats(StatsStepView::Spawn(Slot::Weather)), calendar]
    } else {
        seq![calendar]
    }));
    lemma_starting(
        h,
        start[0],
        Slot::Weather,
        wp,
        seq!["-z"@, "11106"@],
        tools.weather,
        calendar,
    );
    assert(seq![start[0]] =~= start);
    assert(expand(h, calendar, EventView::Answer(tools.calendar)) =~= (if tools.calendar {
        seq![StepView::Stats(StatsStepView::Spawn(Slot::Calendar)), read1]
    } else {
        seq![read1]
    }));
    lemma_starting(h, calendar, Slot::Calendar, cp, seq![], tools.calendar, read1);
    lemma_goes_on(h, start, e1, seq![calendar], e2, seq![read1], t1, t2);
    law_file_questions(h, p1, g1, none, frequency);
    assert(seq![read1] + none =~= seq![read1]);
    assert(goal_steps(h, g1, line_of(frequency)) + none =~= seq![read2]);
    lemma_goes_on(h, start, e1 + e2, seq![read1], e3, seq![read2], t1 + t2, t3);
    law_file_questions(h, p2, g2, none, temperature);
    assert(seq![read2] + none =~= seq![read2]);
    assert(goal_steps(h, g2, line_of(temperature)) + none =~= seq![read3]);
    lemma_goes_on(h, start, e1 + e2 + e3, seq![read2], e4, seq![read3], t1 + t2 + t3, t4);
    law_file_questions(h, p3, g3, none, uptime);
    assert(seq![read3] + none =~= seq![read3]);
    assert(goal_steps(h, g3, line_of(uptime)) + none =~= seq![last]);
    lemma_goes_on(
        h,
        start,
        e1 + e2 + e3 + e4,
        seq![read3],
        e5,
        seq![last],
        t1 + t2 + t3 + t4,
        t5,
    );
    let sofar = e1 + e2 + e3 + e4 + e5;
    assert(seq![last] =~= seq![last] + none);
    lemma_then(h, start, sofar, last, none, t1 + t2 + t3 + t4 + t5, up);
    assert(sofar.push(up) =~= sofar + e6);
    assert((t1 + t2 + t3 + t4 + t5).push(ActionView::Measure(word)) =~= t1 + t2 + t3 + t4 + t5
        + t6);
    assert(after(h, start, sofar + e6) =~= report);
    lemma_shown(h, tools, f as int, t as int, seconds as int, fraction, weather, agenda);
    lemma_goes_on(
        h,
        start,
        sofar + e6,
        report,
        e7,
        none,
        t1 + t2 + t3 + t4 + t5 + t6,
        t7,
    );
}

proof fn lemma_reading_fits(line: Text)
    ensures
        i64::MIN <= reading(line) <= i64::MAX,
{
}

/// Each program that the report started is collected and shown, and no other, whatever the other
/// program does.
pub proof fn law_started_is_shown(
    tools: Tools,
    frequency: int,
    temperature: int,
    seconds: int,
    fraction: Text,
)
    ensures
        ({
            let steps = report_steps(tools, frequency, temperature, seconds, fraction);
            let weather = StepView::Stats(StatsStepView::Collect(Slot::Weather));
            let agenda = StepView::Stats(StatsStepView::Collect(Slot::Calendar));
            &&& steps.contains(weather) <==> tools.weather
            &&& steps.contains(agenda) <==> tools.calendar
            &&& tools.weather ==> steps.contains(StepView::Say("\nWeather:"@))
            &&& tools.calendar ==> steps.contains(StepView::Say("\nAgenda:"@))
        }),
{
    let steps = report_steps(tools, frequency, temperature, seconds, fraction);
    if tools.weather {
        assert(steps[2] == StepView::Say("\nWeather:"@));
        assert(steps[3] == StepView::Stats(StatsStepView::Collect(Slot::Weather)));
    }
    if tools.calendar {
        let n = steps.len();
        assert(steps[n - 2] == StepView::Say("\nAgenda:"@));
        assert(steps[n - 1] == StepView::Stats(StatsStepView::Collect(Slot::Calendar)));
    }
}

// ---------------------------------------------------------------------------
// Settings
// ---------------------------------------------------------------------------

/// A setting that was set is kept as it was set.
pub proof fn law_set_settings_are_kept(r: ConfigInner, source: ConfigSource, home: Text)
    requires
        completes(r, source, home),
    ensures
        source.workspace_path matches Some(s) ==> r.workspace_path@ == s@,
        source.setup_files_path matches Some(s) ==> r.setup_files_path@ == s@,
        source.send_to_telegram_path matches Some(s) ==> r.send_to_telegram_path@ == s@,
        source.backup_app_path matches Some(s) ==> r.backup_app_path@ == s@,
        source.dropbox_path matches Some(s) ==> r.dropbox_path@ == s@,
        source.weather_util_path matches Some(s) ==> r.weather_util_path@ == s@,
        source.calendar_app_path matches Some(s) ==> r.calendar_app_path@ == s@,
        source.frequency_path matches Some(s) ==> r.frequency_path@ == s@,
        source.temperature_path matches Some(s) ==> r.temperature_path@ == s@,
        source.uptime_path matches Some(s) ==> r.uptime_path@ == s@,
        source.repo_deb_directory matches Some(s) ==> r.repo_deb_directory@ == s@,
        source.repo_directory matches Some(s) ==> r.repo_directory@ == s@,
        source.reprepro_path matches Some(s) ==> r.reprepro_path@ == s@,
        source.secret_path matches Some(s) ==> r.secret_path@ == s@,
        source.jwt_secret_path matches Some(s) ==> r.jwt_secret_path@ == s@,
        source.password_directory matches Some(s) ==> r.password_directory@ == s@,
        source.systemd_services matches Some(v) ==> texts(r.systemd_services@) == texts(v@),
        source.workspace_repos matches Some(v) ==> texts(r.workspace_repos@) == texts(v@),
        source.setup_files_repos matches Some(v) ==> texts(r.setup_files_repos@) == texts(v@),
        source.distros matches Some(v) ==> texts(r.distros@) == texts(v@),
        source.repo_directories matches Some(v) ==> texts(r.repo_directories@) == texts(v@),
        source.architectures matches Some(v) ==> texts(r.architectures@) == texts(v@),
        source.aws_path is Some <==> r.aws_path is Some,
        source.aws_path matches Some(s) ==> r.aws_path->0@ == s@,
        source.repo_bucket is Some <==> r.repo_bucket is Some,
        source.repo_bucket matches Some(s) ==> r.repo_bucket->0@ == s@,
        source.gpg_user is Some <==> r.gpg_user is Some,
        source.gpg_user matches Some(s) ==> r.gpg_user->0@ == s@,
        source.gpg_key is Some <==> r.gpg_key is Some,
        source.gpg_key matches Some(s) ==> r.gpg_key->0@ == s@,
{
}

/// A setting that was not set has its default: programs are in `/usr/bin`, repositories below the
/// home directory, and the host is asked where it tells about itself. All else is empty.
pub proof fn law_unset_settings(r: ConfigInner, source: ConfigSource, home: Text)
    requires
        completes(r, source, home),
        home.len() > 0,
        home.last() != '/',
    ensures
        source.workspace_path is None ==> r.workspace_path@ == home + "/Workspace"@,
        source.setup_files_path is None ==> r.setup_files_path@ == home + "/setup_files/build"@,
        source.send_to_telegram_path is None ==> r.send_to_telegram_path@
            == "/usr/bin/send-to-telegram"@,
        source.backup_app_path is None ==> r.backup_app_path@ == "/usr/bin/backup-app-rust"@,
        source.dropbox_path is None ==> r.dropbox_path@ == "/usr/bin/dropbox"@,
        source.weather_util_path is None ==> r.weather_util_path@ == "/usr/bin/weather-util-rust"@,
        source.calendar_app_path is None ==> r.calendar_app_path@ == "/usr/bin/calendar-app-rust"@,
        source.frequency_path is None ==> r.frequency_path@
            == "/sys/devices/system/cpu/cpu0/cpufreq/scaling_cur_freq"@,
        source.temperature_path is None ==> r.temperature_path@
            == "/sys/devices/virtual/thermal/thermal_zone0/temp"@,
        source.uptime_path is None ==> r.uptime_path@ == "/proc/uptime"@,
        source.systemd_services is None ==> r.systemd_services@.len() == 0,
        source.workspace_repos is None ==> r.workspace_repos@.len() == 0,
        source.setup_files_repos is None ==> r.setup_files_repos@.len() == 0,
        source.distros is None ==> r.distros@.len() == 0,
        source.repo_directories is None ==> r.repo_directories@.len() == 0,
        source.architectures is None ==> r.architectures@.len() == 0,
        source.repo_deb_directory is None ==> r.repo_deb_directory@.len() == 0,
        source.repo_directory is None ==> r.repo_directory@.len() == 0,
        source.reprepro_path is None ==> r.reprepro_path@.len() == 0,
        source.secret_path is None ==> r.secret_path@.len() == 0,
        source.jwt_secret_path is None ==> r.jwt_secret_path@.len() == 0,
        source.password_directory is None ==> r.password_directory@.len() == 0,
{
    reveal_strlit("/");
    reveal_strlit("/usr/bin");
    reveal_strlit("Workspace");
    reveal_strlit("/Workspace");
    reveal_strlit("setup_files");
    reveal_strlit("build");
    reveal_strlit("/setup_files/build");
    reveal_strlit("send-to-telegram");
    reveal_strlit("/usr/bin/send-to-telegram");
    reveal_strlit("backup-app-rust");
    reveal_strlit("/usr/bin/backup-app-rust");
    reveal_strlit("dropbox");
    reveal_strlit("/usr/bin/dropbox");
    reveal_strlit("weather-util-rust");
    reveal_strlit("/usr/bin/weather-util-rust");
    reveal_strlit("calendar-app-rust");
    reveal_strlit("/usr/bin/calendar-app-rust");
    assert(joined_path(home, "Workspace"@) =~= home + "/Workspace"@);
    let sub = joined_path(home, "setup_files"@);
    assert(sub.last() == 's');
    assert(joined_path(sub, "build"@) =~= home + "/setup_files/build"@);
    assert(joined_path("/usr/bin"@, "send-to-telegram"@) =~= "/usr/bin/send-to-telegram"@);
    assert(joined_path("/usr/bin"@, "backup-app-rust"@) =~= "/usr/bin/backup-app-rust"@);
    assert(joined_path("/usr/bin"@, "dropbox"@) =~= "/usr/bin/dropbox"@);
    assert(joined_path("/usr/bin"@, "weather-util-rust"@) =~= "/usr/bin/weather-util-rust"@);
    assert(joined_path("/usr/bin"@, "calendar-app-rust"@) =~= "/usr/bin/calendar-app-rust"@);
    assert(texts(r.systemd_services@).len() == r.systemd_services@.len());
    assert(texts(r.workspace_repos@).len() == r.workspace_repos@.len());
    assert(texts(r.setup_files_repos@).len() == r.setup_files_repos@.len());
    assert(texts(r.distros@).len() == r.distros@.len());
    assert(texts(r.repo_directories@).len() == r.repo_directories@.len());
    assert(texts(r.architectures@).len() == r.architectures@.len());
}

/// The settings are read from `config.env` in the working directory where that exists, else from
/// the file of that name in the directory of this project for configuration.
pub proof fn law_env_file(config_dir: Text)
    requires
        config_dir.len() > 0,
        config_dir.last() != '/',
    ensures
        env_file_path(true, config_dir) == "config.env"@,
        env_file_path(false, config_dir) == config_dir + "/ddboline_scripts_rs/config.env"@,
{
    reveal_strlit("/");
    reveal_strlit("ddboline_scripts_rs");
    reveal_strlit("config.env");
    reveal_strlit("/ddboline_scripts_rs/config.env");
    let sub = joined_path(config_dir, "ddboline_scripts_rs"@);
    assert(sub.last() == 's');
    assert(joined_path(sub, "config.env"@) =~= config_dir + "/ddboline_scripts_rs/config.env"@);
}

} // verus!
