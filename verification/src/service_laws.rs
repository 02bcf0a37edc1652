//! What the scripts for the services do from their beginning to their end.

use vstd::prelude::*;
use vstd::utf8::encode_utf8;

use crate::action::{ActionView, CommandView, EventView};
use crate::cleanup::asked;
use crate::host::Host;
use crate::number::decimal;
use crate::outside::{path_shown, stack_lossy_text};
use crate::script::{after, ask, expand, next_action, possible};
use crate::search::{
    fields, find_from, gap, law_find_from, lemma_gap, lemma_word, occurs_at, word,
};
use crate::services::{
    actives, clear_secrets_steps, descriptions, is_word, law_known_lines_are_listed,
    law_systemctl_line_reads_back, restart_all, restart_steps, restarted, secret_steps,
    service_table, spaces, states, status_of, table, tells_apart, unit_of, units, widest, width,
    StatusView,
};
use crate::step::{say_all, StepView};
use crate::text::{is_ascii_space, split, texts, Text};
use crate::text_laws::{is_middle, law_before, law_trimmed_is_middle};
use crate::trace::{
    all_flat, all_succeeded, course, doings, goes, is_closed, is_flat, lemma_closed_adds,
    lemma_course, lemma_course_adds, lemma_course_guarded, lemma_course_plain, lemma_start,
    lemma_then, provided, to_run, told,
};

verus! {

// ---------------------------------------------------------------------------
// One line
// ---------------------------------------------------------------------------

/// Fields are separated by spaces, tabs, line ends, form feeds and carriage returns.
pub proof fn law_ascii_space(c: char)
    ensures
        is_ascii_space(c) <==> (c == ' ' || c == '\t' || c == '\n' || c == '\u{c}' || c == '\r'),
{
}

/// The fields of a line are its words, however many separators are between them.
pub proof fn law_fields(seps: Text, w: Text, c: char, rest: Text)
    requires
        forall|i: int| 0 <= i < seps.len() ==> is_ascii_space(#[trigger] seps[i]),
        is_word(w),
        is_ascii_space(c),
    ensures
        fields(seps) == Seq::<Text>::empty(),
        fields(seps + w) == seq![w],
        fields(seps + w + seq![c] + rest) == seq![w] + fields(rest),
{
    lemma_gap(seps);
    if gap(seps) < seps.len() {
        assert(is_ascii_space(seps[gap(seps)]));
    }
    assert(fields(seps) =~= seq![]);
    lemma_field(seps, w, seq![]);
    assert(seps + w + Seq::<char>::empty() =~= seps + w);
    assert(fields(Seq::<char>::empty()) =~= seq![]) by {
        lemma_gap(Seq::<char>::empty());
    }
    assert(seq![w] + Seq::<Text>::empty() =~= seq![w]);
    let tail = seq![c] + rest;
    assert(seps + w + seq![c] + rest =~= seps + w + tail);
    lemma_field(seps, w, tail);
    assert(tail[0] == c);
    assert(tail.drop_first() =~= rest);
    lemma_gap(rest);
    assert(gap(tail) == 1 + gap(rest));
    assert(tail.skip(gap(tail)) =~= rest.skip(gap(rest)));
    assert(fields(tail) =~= fields(rest));
}

proof fn lemma_field(seps: Text, w: Text, tail: Text)
    requires
        forall|i: int| 0 <= i < seps.len() ==> is_ascii_space(#[trigger] seps[i]),
        is_word(w),
        tail.len() > 0 ==> is_ascii_space(tail[0]),
    ensures
        fields(seps + w + tail) == seq![w] + fields(tail),
{
    let s = seps + w + tail;
    lemma_gap(s);
    let g = gap(s);
    if g < seps.len() {
        assert(s[g] == seps[g]);
    }
    assert(!is_ascii_space(w[0]));
    if g > seps.len() {
        assert(s[seps.len() as int] == w[0]);
    }
    assert(g == seps.len());
    let t = s.skip(g);
    assert(t =~= w + tail);
    lemma_word(t);
    let k = word(t);
    if k < w.len() {
        assert(t[k] == w[k]);
    }
    if k > w.len() {
        assert(t[w.len() as int] == tail[0]);
    }
    assert(k == w.len());
    assert(t.take(k) =~= w);
    assert(t.skip(k) =~= tail);
}

/// A line that speaks of a service in full gives its state: the service without `.service`, the
/// three words behind it, and all that follows as its description.
pub proof fn law_status_line(
    services: Seq<Text>,
    unit: Text,
    load: Text,
    active: Text,
    sub: Text,
    description: Text,
)
    requires
        services.contains(unit),
        tells_apart(
            StatusView { unit: unit + ".service"@, load, active, sub, description },
        ),
    ensures
        status_of(
            services,
            unit + ".service"@ + " "@ + load + " "@ + active + " "@ + sub + " "@ + description,
        ) == Some(StatusView { unit, load, active, sub, description }),
{
    law_systemctl_line_reads_back(services, StatusView { unit, load, active, sub, description });
}

/// Whether a word stands in a line at `at`, and nowhere from `from` up to there.
pub open spec fn stands_first(line: Text, w: Text, from: int, at: int) -> bool {
    &&& from <= at
    &&& at + w.len() <= line.len()
    &&& line.subrange(at, at + w.len()) == w
    &&& forall|q: int| from <= q < at ==> #[trigger] line.subrange(q, q + w.len()) != w
}

/// Whether these are the places of the first five words of a line, each looked for from the place
/// of the one before.
pub open spec fn are_places(line: Text, p: Seq<int>) -> bool {
    &&& p.len() == 6
    &&& p[0] == 0
    &&& forall|k: int|
        0 <= k < 5 ==> stands_first(line, #[trigger] fields(line)[k], p[k], p[k + 1])
}

proof fn lemma_first(line: Text, w: Text, from: int)
    requires
        0 <= from,
        find_from(line, w, from) is Some,
    ensures
        stands_first(line, w, from, find_from(line, w, from)->0),
{
    law_find_from(line, w, from);
    let at = find_from(line, w, from)->0;
    assert forall|q: int| from <= q < at implies #[trigger] line.subrange(q, q + w.len()) != w by {
        assert(!occurs_at(line, w, q));
    }
}

/// The state that a line gives, however it is laid out: its words, and from the place of the fifth
/// word on, without white space at either end, its description.
pub proof fn law_state_in_full(services: Seq<Text>, line: Text)
    requires
        status_of(services, line) is Some,
    ensures
        ({
            let s = status_of(services, line)->0;
            let f = fields(line);
            &&& s.unit + ".service"@ == f[0]
            &&& services.contains(s.unit)
            &&& s.load == f[1]
            &&& s.active == f[2]
            &&& s.sub == f[3]
        }),
        exists|p: Seq<int>| #[trigger]
            are_places(line, p) && is_middle(
                line.skip(p[5]),
                status_of(services, line)->0.description,
            ),
{
    let f = fields(line);
    let tail = ".service"@;
    let name = f[0];
    let unit = name.take(name.len() - tail.len());
    assert(name =~= unit + name.subrange(name.len() - tail.len(), name.len() as int));
    let a = find_from(line, f[0], 0)->0;
    lemma_first(line, f[0], 0);
    let b = find_from(line, f[1], a)->0;
    lemma_first(line, f[1], a);
    let c = find_from(line, f[2], b)->0;
    lemma_first(line, f[2], b);
    let d = find_from(line, f[3], c)->0;
    lemma_first(line, f[3], c);
    let e = find_from(line, f[4], d)->0;
    lemma_first(line, f[4], d);
    let p = seq![0, a, b, c, d, e];
    assert(are_places(line, p));
    law_trimmed_is_middle(line.skip(e));
}

/// A line that does not begin with the name of one of the services and `.service` gives nothing,
/// nor does one with fewer than five words.
pub proof fn law_other_lines(services: Seq<Text>, line: Text)
    ensures
        fields(line).len() < 5 ==> status_of(services, line) is None,
        (forall|i: int|
            0 <= i < services.len() ==> (#[trigger] services[i]) + ".service"@ != fields(line)[0])
            ==> status_of(services, line) is None,
        fields(line).len() >= 5 && (exists|i: int|
            0 <= i < services.len() && (#[trigger] services[i]) + ".service"@ == fields(line)[0])
            ==> status_of(services, line) is Some,
{
    law_known_lines_are_listed(services, line);
    let name = fields(line)[0];
    let tail = ".service"@;
    let unit = name.take(name.len() - tail.len());
    if unit_of(services, name) is Some {
        let i = choose|i: int| 0 <= i < services.len() && services[i] == unit;
        assert(name =~= unit + name.subrange(name.len() - tail.len(), name.len() as int));
        assert(services[i] + tail == name);
    }
    if exists|i: int| 0 <= i < services.len() && (#[trigger] services[i]) + tail == name {
        let i = choose|i: int| 0 <= i < services.len() && (#[trigger] services[i]) + tail == name;
        assert(name.subrange(name.len() - tail.len(), name.len() as int) =~= tail);
        assert(unit =~= services[i]);
        assert(services.contains(unit));
    }
}

// ---------------------------------------------------------------------------
// The table
// ---------------------------------------------------------------------------

proof fn lemma_filter_map_adds(a: Seq<Text>, b: Seq<Text>, f: spec_fn(Text) -> Option<StatusView>)
    ensures
        (a + b).filter_map(f) == a.filter_map(f) + b.filter_map(f),
    decreases b.len(),
{
    if b.len() == 0 {
        assert(a + b =~= a);
        assert(a.filter_map(f) + b.filter_map(f) =~= a.filter_map(f));
    } else {
        lemma_filter_map_adds(a, b.drop_last(), f);
        assert((a + b).drop_last() =~= a + b.drop_last());
        assert((a + b).last() == b.last());
        assert((a + b).filter_map(f) =~= a.filter_map(f) + b.filter_map(f));
    }
}

/// The states that are listed are those that the lines give, line by line and in order.
pub proof fn law_states(services: Seq<Text>, line: Text, rest: Text)
    requires
        !line.contains('\n'),
    ensures
        ({
            let first = match status_of(services, line) {
                Some(s) => seq![s],
                None => seq![],
            };
            &&& states(services, line) == first
            &&& states(services, line + seq!['\n'] + rest) == first + states(services, rest)
        }),
{
    let f = |l: Text| status_of(services, l);
    let s = line + seq!['\n'] + rest;
    law_before(line, '\n', rest);
    assert(split(line, '\n') =~= seq![line]);
    assert(s.skip(line.len() as int + 1) =~= rest);
    assert(split(s, '\n') =~= seq![line] + split(rest, '\n'));
    lemma_filter_map_adds(seq![line], split(rest, '\n'), f);
    Seq::lemma_filter_map_singleton(line, f);
    assert(seq![line].filter_map(f) =~= match status_of(services, line) {
        Some(x) => seq![x],
        None => Seq::<StatusView>::empty(),
    });
}

/// That many spaces.
pub open spec fn blanks(n: int) -> Text {
    Seq::new(
        if n > 0 {
            n as nat
        } else {
            0
        },
        |i: int| ' ',
    )
}

/// Whether `n` is the number of bytes of the longest of these texts, or zero without any.
pub open spec fn is_longest(v: Seq<Text>, n: int) -> bool {
    &&& v.len() == 0 ==> n == 0
    &&& forall|i: int| 0 <= i < v.len() ==> encode_utf8(#[trigger] v[i]).len() <= n
    &&& v.len() > 0 ==> exists|i: int| 0 <= i < v.len() && encode_utf8(#[trigger] v[i]).len() == n
}

proof fn lemma_longest(v: Seq<Text>)
    ensures
        is_longest(v, widest(v)),
        widest(v) >= 0,
    decreases v.len(),
{
    if v.len() > 0 {
        let init = v.drop_last();
        lemma_longest(init);
        assert forall|i: int| 0 <= i < v.len() implies encode_utf8(#[trigger] v[i]).len() <= widest(
            v,
        ) by {
            if i < init.len() {
                assert(init[i] == v[i]);
            }
        }
        if width(v.last()) > widest(init) || init.len() == 0 {
            assert(encode_utf8(v[v.len() - 1]).len() == widest(v));
        } else {
            let i = choose|i: int|
                0 <= i < init.len() && encode_utf8(#[trigger] init[i]).len() == widest(init);
            assert(encode_utf8(v[i]).len() == widest(v));
        }
    }
}

/// The table has one row for each state, in order: the service, its description and whether it is
/// active, each followed by as many spaces as make its column one wider than its longest entry, and
/// by one more.
pub proof fn law_table(all: Seq<StatusView>, u: int, d: int, a: int)
    requires
        is_longest(all.map_values(|s: StatusView| s.unit), u),
        is_longest(all.map_values(|s: StatusView| s.description), d),
        is_longest(all.map_values(|s: StatusView| s.active), a),
    ensures
        table(all).len() == all.len(),
        forall|i: int|
            0 <= i < all.len() ==> #[trigger] table(all)[i] == all[i].unit + blanks(
                u + 1 - encode_utf8(all[i].unit).len(),
            ) + " "@ + (all[i].description + blanks(
                d + 1 - encode_utf8(all[i].description).len(),
            )) + " "@ + (all[i].active + blanks(a + 1 - encode_utf8(all[i].active).len())) + " "@,
{
    let us = all.map_values(|s: StatusView| s.unit);
    let ds = all.map_values(|s: StatusView| s.description);
    let xs = all.map_values(|s: StatusView| s.active);
    lemma_same_longest(us, u);
    lemma_same_longest(ds, d);
    lemma_same_longest(xs, a);
    assert(units(all) =~= us);
    assert(descriptions(all) =~= ds);
    assert(actives(all) =~= xs);
    assert forall|n: int| #[trigger] spaces(n) == blanks(n) by {
        assert(spaces(n) =~= blanks(n));
    }
}

proof fn lemma_same_longest(v: Seq<Text>, n: int)
    requires
        is_longest(v, n),
    ensures
        widest(v) == n,
{
    lemma_longest(v);
    if v.len() > 0 {
        let i = choose|i: int| 0 <= i < v.len() && encode_utf8(#[trigger] v[i]).len() == n;
        let j = choose|i: int| 0 <= i < v.len() && encode_utf8(#[trigger] v[i]).len() == widest(v);
        assert(encode_utf8(v[i]).len() <= widest(v));
        assert(encode_utf8(v[j]).len() <= n);
    }
}

proof fn lemma_said(
    h: Host,
    todo: Seq<StepView>,
    events: Seq<EventView>,
    trace: Seq<ActionView>,
    lines: Seq<Text>,
)
    requires
        goes(h, todo, events, say_all(lines), trace),
    ensures
        goes(
            h,
            todo,
            events + Seq::new(lines.len(), |i: int| EventView::Done),
            seq![],
            trace + lines.map_values(|line: Text| ActionView::Say(line)),
        ),
    decreases lines.len(),
{
    let dones = Seq::new(lines.len(), |i: int| EventView::Done);
    let says = lines.map_values(|line: Text| ActionView::Say(line));
    if lines.len() == 0 {
        assert(events + dones =~= events);
        assert(trace + says =~= trace);
        assert(say_all(lines) =~= seq![]);
    } else {
        let more = lines.drop_first();
        let s = StepView::Say(lines[0]);
        assert(say_all(lines) =~= seq![s] + say_all(more));
        lemma_then(h, todo, events, s, say_all(more), trace, EventView::Done);
        assert(after(h, todo, events.push(EventView::Done)) =~= say_all(more));
        lemma_said(
            h,
            todo,
            events.push(EventView::Done),
            trace.push(ActionView::Say(lines[0])),
            more,
        );
        assert(events.push(EventView::Done) + Seq::new(more.len(), |i: int| EventView::Done)
            =~= events + dones);
        assert(trace.push(ActionView::Say(lines[0])) + more.map_values(
            |line: Text| ActionView::Say(line),
        ) =~= trace + says);
    }
}

/// To list the services is to ask `systemctl`, without arguments, and to say the table of what it
/// says of the services of the settings.
pub proof fn law_services_are_listed(h: Host, output: Seq<u8>)
    ensures
        ({
            let services = texts(h.config.inner().systemd_services@);
            let rows = table(states(services, stack_lossy_text(output)));
            goes(
                h,
                seq![StepView::Services],
                seq![EventView::Output(output)] + Seq::new(rows.len(), |i: int| EventView::Done),
                seq![],
                seq![
                    ActionView::Output(
                        CommandView { program: "systemctl"@, args: seq![], dir: None },
                    ),
                ] + rows.map_values(|line: Text| ActionView::Say(line)),
            )
        }),
{
    let services = texts(h.config.inner().systemd_services@);
    let rows = table(states(services, stack_lossy_text(output)));
    let none = Seq::<StepView>::empty();
    let todo = seq![StepView::Services];
    let e0 = Seq::<EventView>::empty();
    let t0 = Seq::<ActionView>::empty();
    let act = ActionView::Output(CommandView { program: "systemctl"@, args: seq![], dir: None });
    lemma_start(h, todo);
    assert(todo =~= seq![StepView::Services] + none);
    lemma_then(h, todo, e0, StepView::Services, none, t0, EventView::Output(output));
    assert(service_table(h, output) == rows);
    assert(say_all(rows) + none =~= say_all(rows));
    assert(e0.push(EventView::Output(output)) =~= seq![EventView::Output(output)]);
    assert(t0.push(act) =~= seq![act]);
    lemma_said(h, todo, seq![EventView::Output(output)], seq![act], rows);
}

// ---------------------------------------------------------------------------
// Restarting
// ---------------------------------------------------------------------------

/// To remove a secret that is there.
pub open spec fn removes(path: Text, there: spec_fn(Text) -> bool) -> Seq<ActionView> {
    seq![ActionView::Exists(path)] + provided(
        there(path),
        seq![ActionView::Say("remove "@ + path_shown(path)), ActionView::Remove(path)],
    )
}

/// To restart a service.
pub open spec fn restarts_one(service: Text) -> Seq<ActionView> {
    seq![
        ActionView::Say("restart "@ + service),
        to_run("sudo"@, seq!["systemctl"@, "restart"@, service]),
    ]
}

/// To restart all these services in turn, but for the web server.
pub open spec fn restarts_each(services: Seq<Text>) -> Seq<ActionView>
    decreases services.len(),
{
    if services.len() == 0 {
        seq![]
    } else {
        restarts_each(services.drop_last()) + provided(
            services.last() != "nginx"@,
            restarts_one(services.last()),
        )
    }
}

/// All that a restart asks for on a host with these files, in order.
pub open spec fn restart_doings(h: Host, there: spec_fn(Text) -> bool) -> Seq<ActionView> {
    removes(h.config.inner().secret_path@, there) + removes(
        h.config.inner().jwt_secret_path@,
        there,
    ) + restarts_one("auth-server-rust"@) + seq![ActionView::Sleep(10)] + restarts_each(
        texts(h.config.inner().systemd_services@),
    )
}

proof fn lemma_secret(h: Host, path: Text, there: spec_fn(Text) -> bool)
    ensures
        course(h, secret_steps(path), there) == removes(path, there),
        is_closed(secret_steps(path)),
        all_flat(secret_steps(path)),
{
    let steps = secret_steps(path);
    let body = steps.skip(1);
    assert(steps =~= seq![StepView::Guard { path, span: body.len() as usize }] + body);
    lemma_course_guarded(h, path, body, there);
    assert(course(h, steps, there) =~= removes(path, there));
}

proof fn lemma_restart_course(h: Host, service: Text, missing: Text, there: spec_fn(Text) -> bool)
    ensures
        course(h, restart_steps(service, missing), there) == restarts_one(service),
        is_closed(restart_steps(service, missing)),
        all_flat(restart_steps(service, missing)),
{
    lemma_course_plain(h, restart_steps(service, missing), there);
    assert(course(h, restart_steps(service, missing), there) =~= restarts_one(service));
}

proof fn lemma_append(h: Host, a: Seq<StepView>, b: Seq<StepView>, there: spec_fn(Text) -> bool)
    requires
        is_closed(a),
        is_closed(b),
        all_flat(a),
        all_flat(b),
    ensures
        course(h, a + b, there) == course(h, a, there) + course(h, b, there),
        all_flat(a + b),
        is_closed(a + b),
{
    lemma_course_adds(h, a, b, there);
    lemma_closed_adds(a, b);
    assert forall|i: int| 0 <= i < (a + b).len() implies is_flat(#[trigger] (a + b)[i]) by {
        if i < a.len() {
            assert((a + b)[i] == a[i]);
        } else {
            assert((a + b)[i] == b[i - a.len()]);
        }
    }
}

proof fn lemma_restart_all_course(h: Host, services: Seq<Text>, there: spec_fn(Text) -> bool)
    ensures
        course(h, restart_all(restarted(services)), there) == restarts_each(services),
        is_closed(restart_all(restarted(services))),
        all_flat(restart_all(restarted(services))),
    decreases services.len(),
{
    reveal(Seq::filter);
    if services.len() == 0 {
        lemma_course_plain(h, restart_all(restarted(services)), there);
        assert(course(h, restart_all(restarted(services)), there) =~= seq![]);
    } else {
        let init = services.drop_last();
        let s = services.last();
        lemma_restart_all_course(h, init, there);
        let a = restart_all(restarted(init));
        if s != "nginx"@ {
            let b = restart_steps(s, "No status code 10"@);
            assert(restarted(services) =~= restarted(init).push(s));
            assert(restarted(services).drop_last() =~= restarted(init));
            assert(restart_all(restarted(services)) =~= a + b);
            lemma_restart_course(h, s, "No status code 10"@, there);
            lemma_append(h, a, b, there);
        } else {
            assert(restarted(services) =~= restarted(init));
            assert(restarts_each(services) =~= restarts_each(init));
        }
    }
}

/// Every restart of the services that succeeds does the same, by which files there are: the secrets
/// are removed; the authentication server is restarted; and ten seconds later all services but the
/// web server are, in the order of the settings. Only services that could not be restarted add
/// lines to what is said.
pub proof fn law_restart(
    h: Host,
    there: spec_fn(Text) -> bool,
    events: Seq<EventView>,
)
    requires
        texts(h.config.inner().systemd_services@).contains("auth-server-rust"@),
        possible(h, clear_secrets_steps(h), events),
        told(h, clear_secrets_steps(h), events, there),
        next_action(h, after(h, clear_secrets_steps(h), events)) == ActionView::Finish(None),
    ensures
        doings(asked(h, clear_secrets_steps(h), events)) == doings(restart_doings(h, there)),
        all_succeeded(events) ==> asked(h, clear_secrets_steps(h), events) == restart_doings(
            h,
            there,
        ),
{
    let all = texts(h.config.inner().systemd_services@);
    let services = restarted(all);
    lemma_auth_restarted(all);
    let p1 = secret_steps(h.config.inner().secret_path@);
    let p2 = secret_steps(h.config.inner().jwt_secret_path@);
    let p3 = restart_steps("auth-server-rust"@, "No status code 9"@);
    let p4 = seq![StepView::Sleep(10)];
    let p5 = restart_all(services);
    lemma_secret(h, h.config.inner().secret_path@, there);
    lemma_secret(h, h.config.inner().jwt_secret_path@, there);
    lemma_restart_course(h, "auth-server-rust"@, "No status code 9"@, there);
    lemma_course_plain(h, p4, there);
    assert(course(h, p4, there) =~= seq![ActionView::Sleep(10)]);
    lemma_restart_all_course(h, all, there);
    lemma_append(h, p1, p2, there);
    lemma_append(h, p1 + p2, p3, there);
    lemma_append(h, p1 + p2 + p3, p4, there);
    lemma_append(h, p1 + p2 + p3 + p4, p5, there);
    assert(clear_secrets_steps(h) == p1 + p2 + p3 + p4 + p5);
    lemma_course(h, clear_secrets_steps(h), there, events);
}

proof fn lemma_auth_restarted(all: Seq<Text>)
    requires
        all.contains("auth-server-rust"@),
    ensures
        restarted(all).contains("auth-server-rust"@),
    decreases all.len(),
{
    reveal(Seq::filter);
    reveal_strlit("nginx");
    reveal_strlit("auth-server-rust");
    assert("nginx"@.len() != "auth-server-rust"@.len());
    let init = all.drop_last();
    let r = restarted(all);
    if all.last() == "auth-server-rust"@ {
        assert(r[r.len() - 1] == all.last());
    } else {
        let i = choose|i: int| 0 <= i < all.len() && all[i] == "auth-server-rust"@;
        assert(init[i] == "auth-server-rust"@);
        lemma_auth_restarted(init);
        let k = choose|k: int|
            0 <= k < restarted(init).len() && restarted(init)[k] == "auth-server-rust"@;
        assert(r[k] == "auth-server-rust"@);
    }
}

/// What comes of a restart of this service that fails.
pub open spec fn logs_failure(h: Host, s: StepView, service: Text, missing: Text) -> bool {
    &&& ask(h, s) == to_run("sudo"@, seq!["systemctl"@, "restart"@, service])
    &&& forall|code: i32|
        code != 0 ==> #[trigger] expand(h, s, EventView::Exit(Some(code))) == seq![
            StepView::Log(
                "systemctl restart "@ + service + " failed with code "@ + decimal(code as int),
            ),
        ]
    &&& expand(h, s, EventView::Exit(None)) == seq![StepView::Halt(Some(missing))]
}

proof fn lemma_restart_failure(h: Host, service: Text, missing: Text)
    ensures
        logs_failure(h, restart_steps(service, missing)[1], service, missing),
{
    let s = restart_steps(service, missing)[1];
    assert forall|code: i32| code != 0 implies #[trigger] expand(h, s, EventView::Exit(Some(code)))
        == seq![
        StepView::Log(
            "systemctl restart "@ + service + " failed with code "@ + decimal(code as int),
        ),
    ] by {
        assert(expand(h, s, EventView::Exit(Some(code))) =~= seq![
            StepView::Log(
                "systemctl restart "@ + service + " failed with code "@ + decimal(code as int),
            ),
        ]);
    }
}

proof fn lemma_restart_failures(h: Host, services: Seq<Text>, i: int)
    requires
        0 <= i < restart_all(services).len(),
        restart_all(services)[i] is Run,
    ensures
        exists|k: int|
            0 <= k < services.len() && logs_failure(
                h,
                restart_all(services)[i],
                #[trigger] services[k],
                "No status code 10"@,
            ),
    decreases services.len(),
{
    if services.len() > 0 {
        let init = services.drop_last();
        let a = restart_all(init);
        let b = restart_steps(services.last(), "No status code 10"@);
        if i < a.len() {
            assert(restart_all(services)[i] == a[i]);
            lemma_restart_failures(h, init, i);
            let k = choose|k: int|
                0 <= k < init.len() && logs_failure(
                    h,
                    a[i],
                    #[trigger] init[k],
                    "No status code 10"@,
                );
            assert(services[k] == init[k]);
        } else {
            assert(restart_all(services)[i] == b[i - a.len()]);
            lemma_restart_failure(h, services.last(), "No status code 10"@);
            assert(services[services.len() - 1] == services.last());
        }
    }
}

/// A service that could not be restarted is logged, and the restart goes on; one whose restart
/// ended without an exit code ends it in failure. No other program is run.
pub proof fn law_restart_failures(h: Host, i: int)
    requires
        0 <= i < clear_secrets_steps(h).len(),
        clear_secrets_steps(h)[i] is Run,
    ensures
        logs_failure(h, clear_secrets_steps(h)[i], "auth-server-rust"@, "No status code 9"@)
            || exists|k: int|
            0 <= k < h.config.inner().systemd_services@.len() && logs_failure(
                h,
                clear_secrets_steps(h)[i],
                #[trigger] h.config.inner().systemd_services@[k]@,
                "No status code 10"@,
            ),
{
    let all = texts(h.config.inner().systemd_services@);
    let services = restarted(all);
    let steps = clear_secrets_steps(h);
    let p1 = secret_steps(h.config.inner().secret_path@);
    let p2 = secret_steps(h.config.inner().jwt_secret_path@);
    let p3 = restart_steps("auth-server-rust"@, "No status code 9"@);
    assert(services.contains("auth-server-rust"@));
    if i < 3 {
        assert(steps[i] == p1[i]);
    } else if i < 6 {
        assert(steps[i] == p2[i - 3]);
    } else if i < 8 {
        assert(steps[i] == p3[i - 6]);
        lemma_restart_failure(h, "auth-server-rust"@, "No status code 9"@);
    } else if i > 8 {
        let more = restart_all(services);
        assert(steps[i] == more[i - 9]);
        lemma_restart_failures(h, services, i - 9);
        let k = choose|k: int|
            0 <= k < services.len() && logs_failure(
                h,
                more[i - 9],
                #[trigger] services[k],
                "No status code 10"@,
            );
        all.lemma_filter_contains_rev(|s: Text| s != "nginx"@, services[k]);
        let m = choose|m: int| 0 <= m < all.len() && all[m] == services[k];
        assert(h.config.inner().systemd_services@[m]@ == services[k]);
    }
}

} // verus!
