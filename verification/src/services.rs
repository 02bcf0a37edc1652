//! The services of the host: which of them run, and how they are restarted.

use vstd::prelude::*;
use vstd::string::*;
use vstd::utf8::{
    decode_utf8, encode_utf8, is_ascii_chars, is_ascii_chars_encode_utf8, valid_utf8,
};

use crate::action::{Command, CommandView};
use crate::host::Host;
use crate::order::lemma_encode_adds;
use crate::outside::{path_shown, reads_utf8, show_path, stack_lossy, stack_lossy_text};
use crate::program::{args3, command, failure, new_failure, run, run_step};
use crate::search::{
    ends_with, field_starts, fields, fields_of, find, find_from, gap, law_field_starts,
    law_find_from, lemma_find_bound, lemma_gap, lemma_word, occurs, occurs_at, word,
};
use crate::step::{
    chain, say_all, say_lines, step_views, Notice, Step, StepView, Verdict,
};
use crate::text::{
    cat, cat3, cat5, chars_of, contains_text, is_ascii_space, is_white_space, split, split_text,
    text_eq, texts, trim_between, trim_end, trim_start, trimmed, Text,
};

verus! {

// ---------------------------------------------------------------------------
// One line
// ---------------------------------------------------------------------------

/// What a line of `systemctl` says of a service.
#[derive(Debug, PartialEq, Eq)]
pub struct SystemctlStatus {
    pub unit: String,
    pub load: String,
    pub active: String,
    pub sub: String,
    pub description: String,
}

/// What a `SystemctlStatus` holds.
#[verifier::ext_equal]
pub struct StatusView {
    pub unit: Text,
    pub load: Text,
    pub active: Text,
    pub sub: Text,
    pub description: Text,
}

impl View for SystemctlStatus {
    type V = StatusView;

    open spec fn view(&self) -> StatusView {
        StatusView {
            unit: self.unit@,
            load: self.load@,
            active: self.active@,
            sub: self.sub@,
            description: self.description@,
        }
    }
}

/// What a list of states holds.
pub open spec fn statuses(v: Seq<SystemctlStatus>) -> Seq<StatusView> {
    v.map_values(|s: SystemctlStatus| s@)
}

/// The service that `systemctl` calls `name`, if it is one of `services`.
pub open spec fn unit_of(services: Seq<Text>, name: Text) -> Option<Text> {
    let unit = name.take(name.len() - ".service"@.len());
    if ends_with(name, ".service"@) && services.contains(unit) {
        Some(unit)
    } else {
        None
    }
}

/// Where `field` first stands in `line` at or after `from`.
pub open spec fn find_next(line: Text, field: Text, from: Option<int>) -> Option<int> {
    match from {
        Some(i) => find_from(line, field, i),
        None => None,
    }
}

/// Where the description begins: where the fifth field first stands after the fourth, which
/// stands after the third, and so on.
pub open spec fn description_start(line: Text) -> Option<int> {
    let f = fields(line);
    let a = find_from(line, f[0], 0);
    let b = find_next(line, f[1], a);
    let c = find_next(line, f[2], b);
    let d = find_next(line, f[3], c);
    find_next(line, f[4], d)
}

/// What a line of `systemctl` says of the service `unit`, if there is one and the line has at least
/// five fields.
pub open spec fn status_with(unit: Option<Text>, line: Text) -> Option<StatusView> {
    let f = fields(line);
    if f.len() < 5 {
        None
    } else {
        match (unit, description_start(line)) {
            (Some(unit), Some(start)) => Some(
                StatusView {
                    unit,
                    load: f[1],
                    active: f[2],
                    sub: f[3],
                    description: trimmed(line.skip(start)),
                },
            ),
            _ => None,
        }
    }
}

/// What a line of `systemctl` says, if it speaks of one of `services` in at least five fields.
pub open spec fn status_of(services: Seq<Text>, line: Text) -> Option<StatusView> {
    status_with(unit_of(services, fields(line)[0]), line)
}

/// The five parts of a state with a space between them.
pub open spec fn status_text(s: StatusView) -> Text {
    s.unit + " "@ + s.load + " "@ + s.active + " "@ + s.sub + " "@ + s.description
}

proof fn lemma_unit(s: Text, name: Text)
    ensures
        (s + ".service"@ == name) <==> (ends_with(name, ".service"@) && name.take(
            name.len() - ".service"@.len(),
        ) == s),
{
    let tail = ".service"@;
    if s + tail == name {
        assert(name.subrange(name.len() - tail.len(), name.len() as int) =~= tail);
        assert(name.take(name.len() - tail.len()) =~= s);
    }
    if ends_with(name, tail) && name.take(name.len() - tail.len()) == s {
        assert(name =~= name.take(name.len() - tail.len()) + name.subrange(
            name.len() - tail.len(),
            name.len() as int,
        ));
    }
}

fn find_unit(services: &Vec<String>, name: &str) -> (r: Option<String>)
    ensures
        match r {
            Some(s) => unit_of(texts(services@), name@) == Some(s@),
            None => unit_of(texts(services@), name@) is None,
        },
{
    let mut i: usize = 0;
    while i < services.len()
        invariant
            0 <= i <= services@.len(),
            forall|j: int| 0 <= j < i ==> services@[j]@ + ".service"@ != name@,
        decreases services@.len() - i,
    {
        let full: String = cat(services[i].as_str(), ".service");
        if text_eq(full.as_str(), name) {
            proof {
                lemma_unit(services@[i as int]@, name@);
                assert(texts(services@)[i as int] == services@[i as int]@);
            }
            return Some(services[i].clone());
        }
        i += 1;
    }
    proof {
        let unit = name@.take(name@.len() - ".service"@.len());
        if ends_with(name@, ".service"@) && texts(services@).contains(unit) {
            let j = choose|j: int| 0 <= j < texts(services@).len() && texts(services@)[j] == unit;
            lemma_unit(services@[j]@, name@);
        }
    }
    None
}

fn find_after(line: &Vec<char>, field: &str, from: Option<usize>) -> (r: Option<usize>)
    requires
        from matches Some(i) ==> i <= line@.len(),
    ensures
        match (r, from) {
            (Some(i), Some(a)) => find_from(line@, field@, a as int) == Some(i as int) && i
                <= line@.len(),
            (None, Some(a)) => find_from(line@, field@, a as int) is None,
            (_, None) => r is None,
        },
{
    match from {
        Some(i) => {
            let f: Vec<char> = chars_of(field);
            find(line, &f, i)
        },
        None => None,
    }
}

impl SystemctlStatus {
    /// What a line of `systemctl` says, if it speaks of one of `services`.
    pub fn from_systemctl_line(line: &str, services: &Vec<String>) -> (r: Option<SystemctlStatus>)
        ensures
            match r {
                Some(s) => status_of(texts(services@), line@) == Some(s@),
                None => status_of(texts(services@), line@) is None,
            },
    {
        let f: Vec<String> = fields_of(line);
        proof {
            assert(texts(f@).len() == f@.len());
        }
        if f.len() < 5 {
            return None;
        }
        let v: Vec<char> = chars_of(line);
        let a: Option<usize> = find_after(&v, f[0].as_str(), Some(0));
        let b: Option<usize> = find_after(&v, f[1].as_str(), a);
        let c: Option<usize> = find_after(&v, f[2].as_str(), b);
        let d: Option<usize> = find_after(&v, f[3].as_str(), c);
        let e: Option<usize> = find_after(&v, f[4].as_str(), d);
        match (find_unit(services, f[0].as_str()), e) {
            (Some(unit), Some(start)) => {
                let description: String = trim_between(&v, start, v.len());
                proof {
                    assert(v@.subrange(start as int, v@.len() as int) =~= line@.skip(start as int));
                }
                Some(
                    SystemctlStatus {
                        unit,
                        load: f[1].clone(),
                        active: f[2].clone(),
                        sub: f[3].clone(),
                        description,
                    },
                )
            },
            _ => None,
        }
    }

    /// The five parts with a space between them.
    pub fn text(&self) -> (r: String)
        ensures
            r@ == status_text(self@),
    {
        let head: String = cat5(
            self.unit.as_str(),
            " ",
            self.load.as_str(),
            " ",
            self.active.as_str(),
        );
        cat5(head.as_str(), " ", self.sub.as_str(), " ", self.description.as_str())
    }
}

/// A line that speaks of one of the services in at least five fields is never left out.
pub proof fn law_known_lines_are_listed(services: Seq<Text>, line: Text)
    ensures
        status_of(services, line) is Some <==> fields(line).len() >= 5 && unit_of(
            services,
            fields(line)[0],
        ) is Some,
{
    let f = fields(line);
    if f.len() >= 5 {
        assert(line.skip(0) =~= line);
        law_field_starts(line, 0);
        let st = field_starts(line, 0);
        assert(occurs_at(line, f[0], st[0]));
        assert(occurs_at(line, f[1], st[1]));
        assert(occurs_at(line, f[2], st[2]));
        assert(occurs_at(line, f[3], st[3]));
        assert(occurs_at(line, f[4], st[4]));
        assert(st[0] < st[1] && st[1] < st[2] && st[2] < st[3] && st[3] < st[4]);
        lemma_find_bound(line, f[0], 0, st[0]);
        let a = find_from(line, f[0], 0)->0;
        lemma_find_bound(line, f[1], a, st[1]);
        let b = find_from(line, f[1], a)->0;
        lemma_find_bound(line, f[2], b, st[2]);
        let c = find_from(line, f[2], b)->0;
        lemma_find_bound(line, f[3], c, st[3]);
        let d = find_from(line, f[3], c)->0;
        lemma_find_bound(line, f[4], d, st[4]);
    }
}

/// The service of a state is one of the services that were asked for, and `systemctl` calls it by
/// its name and `.service`.
pub proof fn law_unit_name(services: Seq<Text>, line: Text)
    requires
        status_of(services, line) is Some,
    ensures
        services.contains(status_of(services, line)->0.unit),
        status_of(services, line)->0.unit + ".service"@ == fields(line)[0],
{
    lemma_unit(status_of(services, line)->0.unit, fields(line)[0]);
}

/// Whether `s` is a word: not empty, and without a field separator.
pub open spec fn is_word(s: Text) -> bool {
    s.len() > 0 && forall|i: int| 0 <= i < s.len() ==> !is_ascii_space(#[trigger] s[i])
}

/// The first word of a text that begins with one.
pub open spec fn leading_word(s: Text) -> Text {
    s.take(word(s))
}

/// Whether a state can be told from its text: four words, and a description without white space at
/// either end whose first word occurs in none of them.
pub open spec fn tells_apart(s: StatusView) -> bool {
    &&& is_word(s.unit)
    &&& is_word(s.load)
    &&& is_word(s.active)
    &&& is_word(s.sub)
    &&& s.description.len() > 0
    &&& trimmed(s.description) == s.description
    &&& !occurs(s.unit, leading_word(s.description))
    &&& !occurs(s.load, leading_word(s.description))
    &&& !occurs(s.active, leading_word(s.description))
    &&& !occurs(s.sub, leading_word(s.description))
}

proof fn lemma_leading_field(w: Text, rest: Text)
    requires
        is_word(w),
    ensures
        fields(w + seq![' '] + rest) == seq![w] + fields(rest),
{
    let s = w + seq![' '] + rest;
    let tail = seq![' '] + rest;
    assert(!is_ascii_space(s[0])) by {
        assert(s[0] == w[0]);
    }
    assert(gap(s) == 0);
    assert(s.skip(0) =~= s);
    lemma_word(s);
    let k = word(s);
    if k < w.len() {
        assert(s[k] == w[k]);
    }
    assert(s[w.len() as int] == ' ');
    assert(k == w.len());
    assert(s.take(k) =~= w);
    assert(s.skip(k) =~= tail);
    assert(tail.drop_first() =~= rest);
    lemma_gap(rest);
    assert(gap(tail) == 1 + gap(rest));
    assert(tail.skip(gap(tail)) =~= rest.skip(gap(rest)));
    assert(fields(tail) =~= fields(rest));
}

proof fn lemma_trimmed_begins(d: Text)
    requires
        d.len() > 0,
        trimmed(d) == d,
    ensures
        !is_white_space(d[0]),
{
    if is_white_space(d[0]) {
        lemma_trim_start_shrinks(d.drop_first());
        lemma_trim_end_shrinks(trim_start(d));
    }
}

proof fn lemma_trim_start_shrinks(s: Text)
    ensures
        trim_start(s).len() <= s.len(),
    decreases s.len(),
{
    if s.len() > 0 && is_white_space(s[0]) {
        lemma_trim_start_shrinks(s.drop_first());
    }
}

proof fn lemma_trim_end_shrinks(s: Text)
    ensures
        trim_end(s).len() <= s.len(),
    decreases s.len(),
{
    if s.len() > 0 && is_white_space(s.last()) {
        lemma_trim_end_shrinks(s.drop_last());
    }
}

/// A word does not stand in a line where the line has a word that does not hold it.
proof fn lemma_not_within(line: Text, x: Text, w: Text, y: Text, head: Text, e: int)
    requires
        line == x + w + seq![' '] + y,
        is_word(head),
        !occurs(w, head),
        x.len() <= e < x.len() + w.len() + 1,
    ensures
        !occurs_at(line, head, e),
{
    if occurs_at(line, head, e) {
        let part = line.subrange(e, e + head.len());
        let sep = x.len() + w.len();
        assert(line[sep as int] == ' ');
        if e + head.len() > sep {
            assert(part[sep - e] == ' ');
            assert(is_ascii_space(head[sep - e]));
        } else {
            assert(w.subrange(e - x.len(), e - x.len() + head.len()) =~= part);
            assert(occurs_at(w, head, e - x.len()));
        }
    }
}

/// The fields of the text of a state.
#[verifier::spinoff_prover]
proof fn lemma_text_fields(s: StatusView)
    requires
        tells_apart(s),
    ensures
        fields(status_text(s)).len() >= 5,
        fields(status_text(s))[0] == s.unit,
        fields(status_text(s))[1] == s.load,
        fields(status_text(s))[2] == s.active,
        fields(status_text(s))[3] == s.sub,
        fields(status_text(s))[4] == leading_word(s.description),
        is_word(leading_word(s.description)),
{
    reveal_strlit(" ");
    let sp = seq![' '];
    assert(" "@ =~= sp);
    let d = s.description;
    let r3 = s.sub + sp + d;
    let r2 = s.active + sp + r3;
    let r1 = s.load + sp + r2;
    assert(status_text(s) =~= s.unit + sp + r1);
    lemma_trimmed_begins(d);
    assert(!is_ascii_space(d[0]));
    assert(gap(d) == 0);
    assert(d.skip(0) =~= d);
    lemma_word(d);
    let head = leading_word(d);
    assert forall|i: int| 0 <= i < head.len() implies !is_ascii_space(#[trigger] head[i]) by {
        assert(head[i] == d[i]);
    }
    lemma_leading_field(s.sub, d);
    lemma_leading_field(s.active, r3);
    lemma_leading_field(s.load, r2);
    lemma_leading_field(s.unit, r1);
    assert(fields(d)[0] == head);
}

/// Where the load, the active state, the sub state and the description of a state stand in its
/// text.
spec fn places(s: StatusView) -> (int, int, int, int) {
    let p1 = s.unit.len() as int + 1;
    let p2 = p1 + s.load.len() + 1;
    let p3 = p2 + s.active.len() + 1;
    (p1, p2, p3, p3 + s.sub.len() + 1)
}

/// Each part of a state stands in its text in its place.
#[verifier::spinoff_prover]
proof fn lemma_text_places(s: StatusView)
    requires
        s.description.len() > 0,
    ensures
        occurs_at(status_text(s), s.unit, 0),
        occurs_at(status_text(s), s.load, places(s).0),
        occurs_at(status_text(s), s.active, places(s).1),
        occurs_at(status_text(s), s.sub, places(s).2),
        occurs_at(status_text(s), leading_word(s.description), places(s).3),
        status_text(s).skip(places(s).3) == s.description,
{
    reveal_strlit(" ");
    let line = status_text(s);
    let (p1, p2, p3, p4) = places(s);
    lemma_word(s.description);
    let head = leading_word(s.description);
    assert(" "@.len() == 1);
    assert(line.subrange(0, s.unit.len() as int) =~= s.unit);
    assert(line.subrange(p1, p1 + s.load.len()) =~= s.load);
    assert(line.subrange(p2, p2 + s.active.len()) =~= s.active);
    assert(line.subrange(p3, p3 + s.sub.len()) =~= s.sub);
    assert(line.skip(p4) =~= s.description);
    assert(line.subrange(p4, p4 + head.len()) =~= head);
}

/// The first word of a description does not stand in the text of the state before it.
#[verifier::spinoff_prover]
proof fn lemma_text_no_earlier(s: StatusView, e: int)
    requires
        tells_apart(s),
        is_word(leading_word(s.description)),
        0 <= e < places(s).3,
    ensures
        !occurs_at(status_text(s), leading_word(s.description), e),
{
    reveal_strlit(" ");
    let sp = seq![' '];
    assert(" "@ =~= sp);
    let line = status_text(s);
    let head = leading_word(s.description);
    let (p1, p2, p3, p4) = places(s);
    let r3 = s.sub + sp + s.description;
    let r2 = s.active + sp + r3;
    let r1 = s.load + sp + r2;
    if e < p1 {
        assert(line =~= Seq::<char>::empty() + s.unit + sp + r1);
        lemma_not_within(line, seq![], s.unit, r1, head, e);
    } else if e < p2 {
        let x = s.unit + sp;
        assert(line =~= x + s.load + sp + r2);
        lemma_not_within(line, x, s.load, r2, head, e);
    } else if e < p3 {
        let x = s.unit + sp + s.load + sp;
        assert(line =~= x + s.active + sp + r3);
        lemma_not_within(line, x, s.active, r3, head, e);
    } else {
        let x = s.unit + sp + s.load + sp + s.active + sp;
        assert(line =~= x + s.sub + sp + s.description);
        lemma_not_within(line, x, s.sub, s.description, head, e);
    }
}

/// Fields that stand one after the other lead to the last one, if it stands nowhere before.
proof fn lemma_chain(line: Text, f: Seq<Text>, p: (int, int, int, int))
    requires
        f.len() >= 5,
        0 <= p.0 <= p.1 <= p.2 <= p.3,
        occurs_at(line, f[0], 0),
        occurs_at(line, f[1], p.0),
        occurs_at(line, f[2], p.1),
        occurs_at(line, f[3], p.2),
        occurs_at(line, f[4], p.3),
        forall|e: int| 0 <= e < p.3 ==> !#[trigger] occurs_at(line, f[4], e),
    ensures
        ({
            let a = find_from(line, f[0], 0);
            let b = find_next(line, f[1], a);
            let c = find_next(line, f[2], b);
            let d = find_next(line, f[3], c);
            find_next(line, f[4], d) == Some(p.3)
        }),
{
    lemma_find_bound(line, f[0], 0, 0);
    let a = find_from(line, f[0], 0)->0;
    lemma_find_bound(line, f[1], a, p.0);
    let b = find_from(line, f[1], a)->0;
    lemma_find_bound(line, f[2], b, p.1);
    let c = find_from(line, f[2], b)->0;
    lemma_find_bound(line, f[3], c, p.2);
    let d = find_from(line, f[3], c)->0;
    lemma_find_bound(line, f[4], d, p.3);
    law_find_from(line, f[4], d);
}

/// The description of a state is found in its text.
#[verifier::spinoff_prover]
proof fn lemma_text_start(s: StatusView)
    requires
        tells_apart(s),
    ensures
        description_start(status_text(s)) == Some(places(s).3),
{
    lemma_text_fields(s);
    lemma_text_places(s);
    assert forall|e: int| 0 <= e < places(s).3 implies !#[trigger] occurs_at(
        status_text(s),
        fields(status_text(s))[4],
        e,
    ) by {
        lemma_text_no_earlier(s, e);
    }
    lemma_chain(status_text(s), fields(status_text(s)), places(s));
}

/// A line that says a state in full, and in which the state can be told apart, is read as that
/// state.
#[verifier::spinoff_prover]
pub proof fn law_text_reads_back(s: StatusView)
    requires
        tells_apart(s),
    ensures
        fields(status_text(s)).len() >= 5,
        fields(status_text(s))[0] == s.unit,
        status_with(Some(s.unit), status_text(s)) == Some(s),
{
    lemma_text_fields(s);
    lemma_text_places(s);
    lemma_text_start(s);
}

/// The state that `systemctl` gives of a service under its full name is read back as the state of
/// that service.
pub proof fn law_systemctl_line_reads_back(services: Seq<Text>, s: StatusView)
    requires
        services.contains(s.unit),
        tells_apart(StatusView { unit: s.unit + ".service"@, ..s }),
    ensures
        status_of(services, status_text(StatusView { unit: s.unit + ".service"@, ..s })) == Some(s),
{
    let named = StatusView { unit: s.unit + ".service"@, ..s };
    law_text_reads_back(named);
    lemma_unit(s.unit, named.unit);
}

// ---------------------------------------------------------------------------
// The table
// ---------------------------------------------------------------------------

/// How wide a text is: the number of bytes that encode it.
pub open spec fn width(s: Text) -> int {
    encode_utf8(s).len() as int
}

/// The width of the widest text.
pub open spec fn widest(v: Seq<Text>) -> int
    decreases v.len(),
{
    if v.len() == 0 {
        0
    } else {
        let rest = widest(v.drop_last());
        if width(v.last()) > rest {
            width(v.last())
        } else {
            rest
        }
    }
}

/// That many spaces.
pub open spec fn spaces(n: int) -> Text {
    Seq::new(if n > 0 { n as nat } else { 0 }, |i: int| ' ')
}

/// `s` with as many spaces behind it as make it `size` wide.
pub open spec fn fixed_size(s: Text, size: int) -> Text {
    s + spaces(size - width(s))
}

pub open spec fn units(v: Seq<StatusView>) -> Seq<Text> {
    v.map_values(|s: StatusView| s.unit)
}

pub open spec fn actives(v: Seq<StatusView>) -> Seq<Text> {
    v.map_values(|s: StatusView| s.active)
}

pub open spec fn descriptions(v: Seq<StatusView>) -> Seq<Text> {
    v.map_values(|s: StatusView| s.description)
}

/// The row of a state in the table of `all` states.
pub open spec fn row(all: Seq<StatusView>, s: StatusView) -> Text {
    fixed_size(s.unit, widest(units(all)) + 1) + " "@ + fixed_size(
        s.description,
        widest(descriptions(all)) + 1,
    ) + " "@ + fixed_size(s.active, widest(actives(all)) + 1) + " "@
}

/// The table of all states.
pub open spec fn table(all: Seq<StatusView>) -> Seq<Text> {
    all.map_values(|s: StatusView| row(all, s))
}

/// The states that the lines of `output` give.
pub open spec fn states(services: Seq<Text>, output: Text) -> Seq<StatusView> {
    split(output, '\n').filter_map(|line: Text| status_of(services, line))
}

/// The table of the services in what `systemctl` wrote.
pub open spec fn service_table(h: Host, output: Seq<u8>) -> Seq<Text> {
    table(states(texts(h.config.inner().systemd_services@), stack_lossy_text(output)))
}

fn pad(s: &str, size: usize) -> (r: String)
    requires
        width(s@) <= size,
    ensures
        r@ == fixed_size(s@, size + 1),
{
    let mut out: String = s.to_string();
    let mut n: usize = s.as_bytes().len();
    proof {
        assert(s@ =~= s@ + spaces(0));
    }
    while n < size
        invariant
            width(s@) <= n <= size,
            out@ == s@ + spaces(n - width(s@)),
        decreases size - n,
    {
        out.push(' ');
        proof {
            assert(out@ =~= s@ + spaces(n + 1 - width(s@)));
        }
        n += 1;
    }
    out.push(' ');
    proof {
        assert(out@ =~= s@ + spaces(n + 1 - width(s@)));
    }
    out
}

proof fn lemma_widest(v: Seq<Text>, i: int)
    requires
        0 <= i < v.len(),
    ensures
        width(v[i]) <= widest(v),
    decreases v.len(),
{
    if i < v.len() - 1 {
        lemma_widest(v.drop_last(), i);
    }
}

/// The widths of the columns for the services, the descriptions and the states.
fn columns(all: &Vec<SystemctlStatus>) -> (r: (usize, usize, usize))
    ensures
        r.0 == widest(units(statuses(all@))),
        r.1 == widest(descriptions(statuses(all@))),
        r.2 == widest(actives(statuses(all@))),
{
    let mut unit: usize = 0;
    let mut description: usize = 0;
    let mut active: usize = 0;
    let ghost us = units(statuses(all@));
    let ghost ds = descriptions(statuses(all@));
    let ghost xs = actives(statuses(all@));
    let mut i: usize = 0;
    while i < all.len()
        invariant
            0 <= i <= all@.len(),
            us == units(statuses(all@)),
            ds == descriptions(statuses(all@)),
            xs == actives(statuses(all@)),
            unit == widest(us.take(i as int)),
            description == widest(ds.take(i as int)),
            active == widest(xs.take(i as int)),
        decreases all@.len() - i,
    {
        proof {
            assert(us.take(i + 1).drop_last() =~= us.take(i as int));
            assert(ds.take(i + 1).drop_last() =~= ds.take(i as int));
            assert(xs.take(i + 1).drop_last() =~= xs.take(i as int));
        }
        let u: usize = all[i].unit.as_str().as_bytes().len();
        let d: usize = all[i].description.as_str().as_bytes().len();
        let x: usize = all[i].active.as_str().as_bytes().len();
        if u > unit {
            unit = u;
        }
        if d > description {
            description = d;
        }
        if x > active {
            active = x;
        }
        i += 1;
    }
    proof {
        assert(us.take(i as int) =~= us);
        assert(ds.take(i as int) =~= ds);
        assert(xs.take(i as int) =~= xs);
    }
    (unit, description, active)
}

/// The table of all states.
pub fn layout(all: &Vec<SystemctlStatus>) -> (r: Vec<String>)
    ensures
        texts(r@) == table(statuses(all@)),
{
    let (unit, description, active) = columns(all);
    let ghost view = statuses(all@);
    let mut out: Vec<String> = Vec::new();
    let mut i: usize = 0;
    while i < all.len()
        invariant
            0 <= i <= all@.len(),
            view == statuses(all@),
            unit == widest(units(view)),
            description == widest(descriptions(view)),
            active == widest(actives(view)),
            out@.len() == i,
            forall|j: int| 0 <= j < i ==> (#[trigger] out@[j])@ == row(view, all@[j]@),
        decreases all@.len() - i,
    {
        proof {
            lemma_widest(units(view), i as int);
            lemma_widest(descriptions(view), i as int);
            lemma_widest(actives(view), i as int);
        }
        let u: String = pad(all[i].unit.as_str(), unit);
        let d: String = pad(all[i].description.as_str(), description);
        let x: String = pad(all[i].active.as_str(), active);
        let line: String = cat5(u.as_str(), " ", d.as_str(), " ", x.as_str());
        out.push(cat(line.as_str(), " "));
        i += 1;
    }
    proof {
        assert(texts(out@) =~= table(view));
    }
    out
}

/// The states that the lines of `output` give.
pub fn read_states(services: &Vec<String>, output: &str) -> (r: Vec<SystemctlStatus>)
    ensures
        statuses(r@) == states(texts(services@), output@),
{
    let lines: Vec<String> = split_text(output, '\n');
    let ghost all = split(output@, '\n');
    let ghost f = |line: Text| status_of(texts(services@), line);
    let mut out: Vec<SystemctlStatus> = Vec::new();
    let mut i: usize = 0;
    proof {
        assert(statuses(out@) =~= all.take(0).filter_map(f));
    }
    while i < lines.len()
        invariant
            0 <= i <= lines@.len(),
            all == texts(lines@),
            f == (|line: Text| status_of(texts(services@), line)),
            statuses(out@) == all.take(i as int).filter_map(f),
        decreases lines@.len() - i,
    {
        let ghost sofar = statuses(out@);
        proof {
            assert(all.take(i + 1).drop_last() =~= all.take(i as int));
            assert(all.take(i + 1).last() == lines@[i as int]@);
        }
        match SystemctlStatus::from_systemctl_line(lines[i].as_str(), services) {
            Some(s) => {
                out.push(s);
                proof {
                    assert(statuses(out@) =~= sofar + seq![s@]);
                }
            },
            None => {},
        }
        i += 1;
    }
    proof {
        assert(all.take(i as int) =~= all);
    }
    out
}

/// The command that lists the services.
pub open spec fn services_command() -> CommandView {
    command("systemctl"@, seq![])
}

/// The command that lists the services.
pub fn list_services() -> (r: Command)
    ensures
        r@ == services_command(),
{
    let none: Vec<String> = Vec::new();
    proof {
        assert(texts(none@) =~= Seq::<Text>::empty());
    }
    Command::new("systemctl", none)
}

/// The steps that show the services in what `systemctl` wrote.
pub fn show_services(host: &Host, output: &Vec<u8>) -> (r: Vec<Step>)
    ensures
        step_views(r@) == say_all(service_table(*host, output@)),
        reads_utf8(output@),
        valid_utf8(output@) ==> step_views(r@) == say_all(
            table(
                states(texts(host.config.inner().systemd_services@), decode_utf8(output@)),
            ),
        ),
{
    let text: String = stack_lossy(output.as_slice());
    let all: Vec<SystemctlStatus> = read_states(
        &host.config.get().systemd_services,
        text.as_str(),
    );
    let lines: Vec<String> = layout(&all);
    proof {
        assert(texts(lines@).skip(0) =~= texts(lines@));
    }
    say_lines(&lines, 0)
}

proof fn lemma_width_adds(a: Text, b: Text)
    ensures
        width(a + b) == width(a) + width(b),
{
    lemma_encode_adds(a, b);
}

proof fn lemma_width_of_spaces(n: int)
    requires
        n >= 0,
    ensures
        width(spaces(n)) == n,
{
    assert(is_ascii_chars(spaces(n)));
    is_ascii_chars_encode_utf8(spaces(n));
}

/// A text that is no wider than asked for is made exactly as wide.
pub proof fn law_fixed_size(s: Text, size: int)
    requires
        width(s) <= size,
    ensures
        width(fixed_size(s, size)) == size,
{
    lemma_width_adds(s, spaces(size - width(s)));
    lemma_width_of_spaces(size - width(s));
}

/// All rows of a table are equally wide.
pub proof fn law_rows_align(all: Seq<StatusView>, i: int)
    requires
        0 <= i < all.len(),
    ensures
        width(table(all)[i]) == widest(units(all)) + widest(descriptions(all)) + widest(
            actives(all),
        ) + 3 + 3 * width(" "@),
{
    let s = all[i];
    lemma_widest(units(all), i);
    lemma_widest(descriptions(all), i);
    lemma_widest(actives(all), i);
    let u = fixed_size(s.unit, widest(units(all)) + 1);
    let d = fixed_size(s.description, widest(descriptions(all)) + 1);
    let x = fixed_size(s.active, widest(actives(all)) + 1);
    law_fixed_size(s.unit, widest(units(all)) + 1);
    law_fixed_size(s.description, widest(descriptions(all)) + 1);
    law_fixed_size(s.active, widest(actives(all)) + 1);
    lemma_width_adds(u, " "@);
    lemma_width_adds(u + " "@, d);
    lemma_width_adds(u + " "@ + d, " "@);
    lemma_width_adds(u + " "@ + d + " "@, x);
    lemma_width_adds(u + " "@ + d + " "@ + x, " "@);
}

// ---------------------------------------------------------------------------
// Restarting
// ---------------------------------------------------------------------------

/// The services that are restarted: all but the web server.
pub open spec fn restarted(services: Seq<Text>) -> Seq<Text> {
    services.filter(|s: Text| s != "nginx"@)
}

/// The steps that remove a secret, if it is there.
pub open spec fn secret_steps(path: Text) -> Seq<StepView> {
    seq![
        StepView::Guard { path, span: 2 },
        StepView::Say("remove "@ + path_shown(path)),
        StepView::Remove(path),
    ]
}

/// The steps that restart a service. Its failure is logged, and nothing more.
pub open spec fn restart_steps(service: Text, missing: Text) -> Seq<StepView> {
    seq![
        StepView::Say("restart "@ + service),
        run_step(
            command("sudo"@, seq!["systemctl"@, "restart"@, service]),
            failure(
                missing,
                "systemctl restart "@ + service + " failed with code "@,
                Notice::Log,
                Verdict::Continue,
            ),
        ),
    ]
}

/// The steps that restart these services in turn.
pub open spec fn restart_all(services: Seq<Text>) -> Seq<StepView>
    decreases services.len(),
{
    if services.len() == 0 {
        seq![]
    } else {
        restart_all(services.drop_last()) + restart_steps(services.last(), "No status code 10"@)
    }
}

/// The steps that remove the secrets and restart the authentication server, then, after a while,
/// all services. Nothing of it is done where there is no authentication server.
pub open spec fn clear_secrets_steps(h: Host) -> Seq<StepView> {
    let services = restarted(texts(h.config.inner().systemd_services@));
    if services.contains("auth-server-rust"@) {
        secret_steps(h.config.inner().secret_path@) + secret_steps(
            h.config.inner().jwt_secret_path@,
        ) + restart_steps("auth-server-rust"@, "No status code 9"@) + seq![StepView::Sleep(10)]
            + restart_all(services)
    } else {
        seq![StepView::SayErr("auth server not found"@)]
    }
}

fn to_restart(services: &Vec<String>) -> (r: Vec<String>)
    ensures
        texts(r@) == restarted(texts(services@)),
{
    let ghost all = texts(services@);
    let ghost p = |s: Text| s != "nginx"@;
    let mut out: Vec<String> = Vec::new();
    let mut i: usize = 0;
    proof {
        reveal(Seq::filter);
        assert(texts(out@) =~= all.take(0).filter(p));
    }
    while i < services.len()
        invariant
            0 <= i <= services@.len(),
            all == texts(services@),
            p == (|s: Text| s != "nginx"@),
            texts(out@) == all.take(i as int).filter(p),
        decreases services@.len() - i,
    {
        let ghost sofar = texts(out@);
        proof {
            reveal(Seq::filter);
            assert(all.take(i + 1).drop_last() =~= all.take(i as int));
            assert(all.take(i + 1).last() == services@[i as int]@);
        }
        if !text_eq(services[i].as_str(), "nginx") {
            out.push(services[i].clone());
            proof {
                assert(texts(out@) =~= sofar.push(services@[i as int]@));
            }
        }
        i += 1;
    }
    proof {
        assert(all.take(i as int) =~= all);
    }
    out
}

fn remove_secret(path: &str) -> (r: Vec<Step>)
    ensures
        step_views(r@) == secret_steps(path@),
{
    let shown: String = show_path(path);
    let out: Vec<Step> = vec![
        Step::Guard { path: path.to_string(), span: 2 },
        Step::Say(cat("remove ", shown.as_str())),
        Step::Remove(path.to_string()),
    ];
    proof {
        assert(step_views(out@) =~= secret_steps(path@));
    }
    out
}

fn restart(service: &str, missing: &str) -> (r: Vec<Step>)
    ensures
        step_views(r@) == restart_steps(service@, missing@),
{
    let prefix: String = cat3("systemctl restart ", service, " failed with code ");
    let out: Vec<Step> = vec![
        Step::Say(cat("restart ", service)),
        run(
            Command::new("sudo", args3("systemctl", "restart", service)),
            new_failure(missing, prefix.as_str(), Notice::Log, Verdict::Continue),
        ),
    ];
    proof {
        assert(step_views(out@) =~= restart_steps(service@, missing@));
    }
    out
}

fn restart_each(services: &Vec<String>) -> (r: Vec<Step>)
    ensures
        step_views(r@) == restart_all(texts(services@)),
{
    let ghost all = texts(services@);
    let mut out: Vec<Step> = Vec::new();
    let mut i: usize = 0;
    proof {
        assert(step_views(out@) =~= restart_all(all.take(0)));
    }
    while i < services.len()
        invariant
            0 <= i <= services@.len(),
            all == texts(services@),
            step_views(out@) == restart_all(all.take(i as int)),
        decreases services@.len() - i,
    {
        proof {
            assert(all.take(i + 1).drop_last() =~= all.take(i as int));
            assert(all.take(i + 1).last() == services@[i as int]@);
        }
        out = chain(out, restart(services[i].as_str(), "No status code 10"));
        i += 1;
    }
    proof {
        assert(all.take(i as int) =~= all);
    }
    out
}

/// The steps that remove the secrets and restart the services.
pub fn plan_restart(host: &Host) -> (r: Vec<Step>)
    ensures
        step_views(r@) == clear_secrets_steps(*host),
{
    let services: Vec<String> = to_restart(&host.config.get().systemd_services);
    if contains_text(&services, "auth-server-rust") {
        let out: Vec<Step> = chain(
            remove_secret(host.config.get().secret_path.as_str()),
            remove_secret(host.config.get().jwt_secret_path.as_str()),
        );
        let out: Vec<Step> = chain(out, restart("auth-server-rust", "No status code 9"));
        let pause: Vec<Step> = vec![Step::Sleep(10)];
        proof {
            assert(step_views(pause@) =~= seq![StepView::Sleep(10)]);
        }
        let out: Vec<Step> = chain(out, pause);
        chain(out, restart_each(&services))
    } else {
        let out: Vec<Step> = vec![Step::SayErr("auth server not found".to_string())];
        proof {
            assert(step_views(out@) =~= clear_secrets_steps(*host));
        }
        out
    }
}

/// The command that a step runs restarts this service.
pub open spec fn restarts(s: StepView, service: Text) -> bool {
    s matches StepView::Run { command: c, .. } && c == command(
        "sudo"@,
        seq!["systemctl"@, "restart"@, service],
    )
}

proof fn lemma_restart_all(services: Seq<Text>, i: int)
    requires
        0 <= i < restart_all(services).len(),
        restart_all(services)[i] is Run,
    ensures
        exists|k: int| 0 <= k < services.len() && restarts(restart_all(services)[i], services[k]),
    decreases services.len(),
{
    let first = restart_all(services.drop_last());
    if i < first.len() {
        lemma_restart_all(services.drop_last(), i);
        let k = choose|k: int|
            0 <= k < services.drop_last().len() && restarts(first[i], services.drop_last()[k]);
        assert(restarts(restart_all(services)[i], services[k]));
    } else {
        assert(restarts(restart_all(services)[i], services[services.len() - 1]));
    }
}

proof fn lemma_restarted(services: Seq<Text>)
    ensures
        forall|k: int| 0 <= k < restarted(services).len() ==> restarted(services)[k] != "nginx"@,
        forall|k: int|
            0 <= k < services.len() && services[k] != "nginx"@ ==> restarted(services).contains(
                #[trigger] services[k],
            ),
    decreases services.len(),
{
    reveal(Seq::filter);
    if services.len() > 0 {
        let rest = services.drop_last();
        lemma_restarted(rest);
        let r = restarted(services);
        assert forall|k: int| 0 <= k < services.len() && services[k] != "nginx"@ implies r.contains(
            #[trigger] services[k],
        ) by {
            if k < services.len() - 1 {
                assert(rest[k] == services[k]);
                let j = choose|j: int|
                    0 <= j < restarted(rest).len() && restarted(rest)[j] == services[k];
                assert(r[j] == services[k]);
            } else {
                assert(r.last() == services[k]);
            }
        }
    }
}

/// The web server is never restarted.
pub proof fn law_web_server_stays(h: Host, i: int)
    requires
        0 <= i < clear_secrets_steps(h).len(),
    ensures
        !restarts(clear_secrets_steps(h)[i], "nginx"@),
{
    let steps = clear_secrets_steps(h);
    let services = restarted(texts(h.config.inner().systemd_services@));
    if services.contains("auth-server-rust"@) && steps[i] is Run {
        reveal_strlit("nginx");
        reveal_strlit("auth-server-rust");
        assert("nginx"@.len() != "auth-server-rust"@.len());
        lemma_restarted(texts(h.config.inner().systemd_services@));
        let tail = restart_all(services);
        if i >= 9 {
            assert(steps[i] == tail[i - 9]);
            lemma_restart_all(services, i - 9);
            let k = choose|k: int| 0 <= k < services.len() && restarts(tail[i - 9], services[k]);
            assert(seq!["systemctl"@, "restart"@, services[k]][2] == services[k]);
            assert(seq!["systemctl"@, "restart"@, "nginx"@][2] == "nginx"@);
        } else {
            assert(i == 7);
            assert(seq!["systemctl"@, "restart"@, "auth-server-rust"@][2] == "auth-server-rust"@);
            assert(seq!["systemctl"@, "restart"@, "nginx"@][2] == "nginx"@);
        }
    }
}

proof fn lemma_all_restarted(services: Seq<Text>, k: int)
    requires
        0 <= k < services.len(),
    ensures
        exists|i: int|
            0 <= i < restart_all(services).len() && restarts(
                #[trigger] restart_all(services)[i],
                services[k],
            ),
    decreases services.len(),
{
    let first = restart_all(services.drop_last());
    if k < services.len() - 1 {
        lemma_all_restarted(services.drop_last(), k);
        let i = choose|i: int| 0 <= i < first.len() && restarts(#[trigger] first[i], services[k]);
        assert(restarts(restart_all(services)[i], services[k]));
    } else {
        assert(restarts(restart_all(services)[first.len() as int + 1], services[k]));
    }
}

/// Where there is an authentication server, it is restarted before any other service, after the
/// secrets were removed; and every service but the web server is restarted after it.
pub proof fn law_all_services_restart(h: Host, service: Text)
    requires
        texts(h.config.inner().systemd_services@).contains("auth-server-rust"@),
        texts(h.config.inner().systemd_services@).contains(service),
        service != "nginx"@,
    ensures
        restarts(clear_secrets_steps(h)[7], "auth-server-rust"@),
        forall|i: int| 0 <= i < 7 ==> !(#[trigger] clear_secrets_steps(h)[i] is Run),
        exists|i: int|
            7 < i < clear_secrets_steps(h).len() && restarts(
                #[trigger] clear_secrets_steps(h)[i],
                service,
            ),
{
    let all = texts(h.config.inner().systemd_services@);
    let services = restarted(all);
    let steps = clear_secrets_steps(h);
    lemma_restarted(all);
    reveal_strlit("nginx");
    reveal_strlit("auth-server-rust");
    assert("nginx"@.len() != "auth-server-rust"@.len());
    let a = choose|a: int| 0 <= a < all.len() && all[a] == "auth-server-rust"@;
    assert(services.contains(all[a]));
    let k = choose|k: int| 0 <= k < all.len() && all[k] == service;
    assert(services.contains(all[k]));
    let j = choose|j: int| 0 <= j < services.len() && services[j] == service;
    lemma_all_restarted(services, j);
    let tail = restart_all(services);
    let i = choose|i: int| 0 <= i < tail.len() && restarts(#[trigger] tail[i], services[j]);
    assert(steps[9 + i] == tail[i]);
}

/// Without an authentication server nothing is removed and nothing restarted.
pub proof fn law_no_auth_server(h: Host)
    requires
        !texts(h.config.inner().systemd_services@).contains("auth-server-rust"@),
    ensures
        clear_secrets_steps(h) == seq![StepView::SayErr("auth server not found"@)],
{
    let all = texts(h.config.inner().systemd_services@);
    lemma_restarted_from(all);
}

proof fn lemma_restarted_from(services: Seq<Text>)
    ensures
        forall|k: int|
            0 <= k < restarted(services).len() ==> services.contains(
                #[trigger] restarted(services)[k],
            ),
    decreases services.len(),
{
    reveal(Seq::filter);
    if services.len() > 0 {
        let rest = services.drop_last();
        lemma_restarted_from(rest);
        let r = restarted(services);
        assert forall|k: int| 0 <= k < r.len() implies services.contains(#[trigger] r[k]) by {
            if k < restarted(rest).len() {
                assert(restarted(rest)[k] == r[k]);
                assert(rest.contains(restarted(rest)[k]));
                let j = choose|j: int| 0 <= j < rest.len() && rest[j] == r[k];
                assert(services[j] == r[k]);
            } else {
                assert(services.last() == r[k]);
            }
        }
    }
}

} // verus!
