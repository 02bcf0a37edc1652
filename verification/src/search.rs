//! Looking for a text inside another, and the fields of a line.

use vstd::prelude::*;

use crate::text::{
    ascii_space, chars_of, is_ascii_space, is_white_space, opt_text, text_between, texts,
    trim_start, white_space, Text,
};

verus! {

/// Whether `pat` stands in `s` at index `i`.
pub open spec fn occurs_at(s: Text, pat: Text, i: int) -> bool {
    0 <= i && i + pat.len() <= s.len() && s.subrange(i, i + pat.len()) == pat
}

/// The first index at or after `from` at which `pat` stands in `s`.
pub open spec fn find_from(s: Text, pat: Text, from: int) -> Option<int>
    decreases s.len() + 1 - from,
{
    if from + pat.len() > s.len() {
        None
    } else if occurs_at(s, pat, from) {
        Some(from)
    } else {
        find_from(s, pat, from + 1)
    }
}

/// Whether `pat` stands somewhere in `s`.
pub open spec fn occurs(s: Text, pat: Text) -> bool {
    exists|i: int| #[trigger] occurs_at(s, pat, i)
}

pub open spec fn starts_with(s: Text, pat: Text) -> bool {
    occurs_at(s, pat, 0)
}

pub open spec fn ends_with(s: Text, pat: Text) -> bool {
    occurs_at(s, pat, s.len() - pat.len())
}

/// What `find_from` gives is an occurrence, and there is none between `from` and it.
pub proof fn law_find_from(s: Text, pat: Text, from: int)
    requires
        0 <= from,
    ensures
        find_from(s, pat, from) matches Some(i) ==> from <= i && occurs_at(s, pat, i) && forall|
            j: int,
        |
            from <= j < i ==> !occurs_at(s, pat, j),
        find_from(s, pat, from) is None ==> forall|j: int| from <= j ==> !occurs_at(s, pat, j),
    decreases s.len() + 1 - from,
{
    if from + pat.len() <= s.len() && !occurs_at(s, pat, from) {
        law_find_from(s, pat, from + 1);
    }
}

/// A text is found from `from` on exactly where it stands at or after `from`, and not later than
/// any place where it does.
pub proof fn lemma_find_bound(s: Text, pat: Text, from: int, at: int)
    requires
        0 <= from <= at,
        occurs_at(s, pat, at),
    ensures
        find_from(s, pat, from) matches Some(i) && from <= i <= at,
{
    law_find_from(s, pat, from);
}

fn stands_at(s: &Vec<char>, pat: &Vec<char>, i: usize) -> (r: bool)
    requires
        i + pat@.len() <= s@.len(),
    ensures
        r == occurs_at(s@, pat@, i as int),
{
    let mut j: usize = 0;
    let n: usize = s.len();
    while j < pat.len()
        invariant
            0 <= j <= pat@.len(),
            i + pat@.len() <= s@.len(),
            n == s@.len(),
            forall|k: int| 0 <= k < j ==> s@[i + k] == pat@[k],
        decreases pat@.len() - j,
    {
        if s[i + j] != pat[j] {
            proof {
                assert(s@.subrange(i as int, i + pat@.len())[j as int] != pat@[j as int]);
            }
            return false;
        }
        j += 1;
    }
    proof {
        assert(s@.subrange(i as int, i + pat@.len()) =~= pat@);
    }
    true
}

/// The first index at or after `from` at which `pat` stands in `s`.
pub fn find(s: &Vec<char>, pat: &Vec<char>, from: usize) -> (r: Option<usize>)
    requires
        from <= s@.len(),
    ensures
        match r {
            Some(i) => find_from(s@, pat@, from as int) == Some(i as int) && i <= s@.len(),
            None => find_from(s@, pat@, from as int) is None,
        },
{
    let mut i: usize = from;
    while i <= s.len() && pat.len() <= s.len() - i
        invariant
            from <= i <= s@.len() + 1,
            i <= s@.len() || pat@.len() == 0,
            find_from(s@, pat@, i as int) == find_from(s@, pat@, from as int),
        decreases s@.len() + 1 - i,
    {
        if stands_at(s, pat, i) {
            return Some(i);
        }
        proof {
            if pat@.len() == 0 {
                assert(s@.subrange(i as int, i as int) =~= pat@);
            }
        }
        i += 1;
    }
    None
}

/// Whether `pat` stands somewhere in `s`.
pub fn contains(s: &str, pat: &str) -> (r: bool)
    ensures
        r == occurs(s@, pat@),
{
    let v: Vec<char> = chars_of(s);
    let p: Vec<char> = chars_of(pat);
    proof {
        law_find_from(v@, p@, 0);
    }
    match find(&v, &p, 0) {
        Some(_i) => true,
        None => false,
    }
}

/// Whether `s` begins with `pat`.
pub fn begins(s: &str, pat: &str) -> (r: bool)
    ensures
        r == starts_with(s@, pat@),
{
    let v: Vec<char> = chars_of(s);
    let p: Vec<char> = chars_of(pat);
    p.len() <= v.len() && stands_at(&v, &p, 0)
}

/// Whether `s` ends in `pat`.
pub fn ends(s: &str, pat: &str) -> (r: bool)
    ensures
        r == ends_with(s@, pat@),
{
    let v: Vec<char> = chars_of(s);
    let p: Vec<char> = chars_of(pat);
    p.len() <= v.len() && stands_at(&v, &p, v.len() - p.len())
}

// ---------------------------------------------------------------------------
// Fields
// ---------------------------------------------------------------------------

/// How many field separators `s` begins with.
pub open spec fn gap(s: Text) -> int
    decreases s.len(),
{
    if s.len() > 0 && is_ascii_space(s[0]) {
        1 + gap(s.drop_first())
    } else {
        0
    }
}

/// How many characters other than field separators `s` begins with.
pub open spec fn word(s: Text) -> int
    decreases s.len(),
{
    if s.len() > 0 && !is_ascii_space(s[0]) {
        1 + word(s.drop_first())
    } else {
        0
    }
}

pub proof fn lemma_gap(s: Text)
    ensures
        0 <= gap(s) <= s.len(),
        gap(s) < s.len() ==> !is_ascii_space(s[gap(s)]),
        forall|i: int| 0 <= i < gap(s) ==> is_ascii_space(s[i]),
    decreases s.len(),
{
    if s.len() > 0 && is_ascii_space(s[0]) {
        let t = s.drop_first();
        lemma_gap(t);
        assert forall|i: int| 0 <= i < gap(s) implies is_ascii_space(s[i]) by {
            if i > 0 {
                assert(s[i] == t[i - 1]);
            }
        }
    }
}

pub proof fn lemma_word(s: Text)
    ensures
        0 <= word(s) <= s.len(),
        word(s) < s.len() ==> is_ascii_space(s[word(s)]),
        forall|i: int| 0 <= i < word(s) ==> !is_ascii_space(s[i]),
        s.len() > 0 && !is_ascii_space(s[0]) ==> word(s) > 0,
    decreases s.len(),
{
    if s.len() > 0 && !is_ascii_space(s[0]) {
        let t = s.drop_first();
        lemma_word(t);
        assert forall|i: int| 0 <= i < word(s) implies !is_ascii_space(s[i]) by {
            if i > 0 {
                assert(s[i] == t[i - 1]);
            }
        }
    }
}

/// The fields of `s`: its longest pieces without a field separator.
pub open spec fn fields(s: Text) -> Seq<Text>
    decreases s.len(),
    via fields_decreases
{
    let t = s.skip(gap(s));
    if t.len() == 0 {
        seq![]
    } else {
        seq![t.take(word(t))] + fields(t.skip(word(t)))
    }
}

#[via_fn]
proof fn fields_decreases(s: Text) {
    lemma_gap(s);
    lemma_word(s.skip(gap(s)));
}

/// Where the fields of `s` begin, counted from `base`.
pub open spec fn field_starts(s: Text, base: int) -> Seq<int>
    decreases s.len(),
    via field_starts_decreases
{
    let t = s.skip(gap(s));
    if t.len() == 0 {
        seq![]
    } else {
        seq![base + gap(s)] + field_starts(t.skip(word(t)), base + gap(s) + word(t))
    }
}

#[via_fn]
proof fn field_starts_decreases(s: Text, base: int) {
    lemma_gap(s);
    lemma_word(s.skip(gap(s)));
}

/// Each field stands in the line where it begins, and each begins after the one before it.
pub proof fn law_field_starts(line: Text, base: int)
    requires
        0 <= base <= line.len(),
    ensures
        field_starts(line.skip(base), base).len() == fields(line.skip(base)).len(),
        forall|i: int|
            0 <= i < fields(line.skip(base)).len() ==> #[trigger] occurs_at(
                line,
                fields(line.skip(base))[i],
                field_starts(line.skip(base), base)[i],
            ),
        forall|i: int|
            0 <= i < fields(line.skip(base)).len() ==> base <= #[trigger] field_starts(
                line.skip(base),
                base,
            )[i],
        forall|i: int, j: int|
            0 <= i < j < fields(line.skip(base)).len() ==> #[trigger] field_starts(
                line.skip(base),
                base,
            )[i] < #[trigger] field_starts(line.skip(base), base)[j],
    decreases line.len() - base,
{
    let s = line.skip(base);
    lemma_gap(s);
    let t = s.skip(gap(s));
    lemma_word(t);
    if t.len() > 0 {
        let at = base + gap(s);
        let next = at + word(t);
        assert(t =~= line.skip(at));
        assert(t.skip(word(t)) =~= line.skip(next));
        law_field_starts(line, next);
        let fs = fields(s);
        let st = field_starts(s, base);
        let fs2 = fields(line.skip(next));
        let st2 = field_starts(line.skip(next), next);
        assert(fs =~= seq![t.take(word(t))] + fs2);
        assert(st =~= seq![at] + st2);
        assert(line.subrange(at, at + word(t)) =~= t.take(word(t)));
        assert forall|i: int| 0 <= i < fs.len() implies #[trigger] occurs_at(
            line,
            fs[i],
            st[i],
        ) by {
            if i > 0 {
                assert(occurs_at(line, fs2[i - 1], st2[i - 1]));
            }
        }
        assert forall|i: int| 0 <= i < fs.len() implies base <= #[trigger] st[i] by {
            if i > 0 {
                assert(next <= st2[i - 1]);
            }
        }
        assert forall|i: int, j: int| 0 <= i < j < fs.len() implies #[trigger] st[i]
            < #[trigger] st[j] by {
            if i > 0 {
                assert(st2[i - 1] < st2[j - 1]);
            } else {
                assert(next <= st2[j - 1]);
            }
        }
    }
}

/// The fields of `s`.
pub fn fields_of(s: &str) -> (r: Vec<String>)
    ensures
        texts(r@) == fields(s@),
{
    let v: Vec<char> = chars_of(s);
    let mut out: Vec<String> = Vec::new();
    let mut from: usize = 0;
    proof {
        assert(v@.skip(0) =~= s@);
        assert(texts(out@) + fields(s@) =~= fields(s@));
    }
    while from < v.len()
        invariant
            v@ == s@,
            0 <= from <= v@.len(),
            texts(out@) + fields(v@.skip(from as int)) == fields(s@),
        decreases v@.len() - from,
    {
        let ghost rest = v@.skip(from as int);
        let ghost seen = texts(out@);
        let mut a: usize = from;
        while a < v.len() && ascii_space(v[a])
            invariant
                from <= a <= v@.len(),
                rest == v@.skip(from as int),
                a - from + gap(v@.skip(a as int)) == gap(rest),
            decreases v@.len() - a,
        {
            proof {
                assert(v@.skip(a as int).drop_first() =~= v@.skip(a + 1));
            }
            a += 1;
        }
        proof {
            assert(a < v@.len() ==> v@.skip(a as int)[0] == v@[a as int]);
            assert(gap(rest) == a - from);
            assert(rest.skip(gap(rest)) =~= v@.skip(a as int));
        }
        if a >= v.len() {
            proof {
                assert(fields(rest) =~= Seq::<Text>::empty());
                assert(texts(out@) =~= fields(s@));
            }
            return out;
        }
        let ghost t = v@.skip(a as int);
        let mut b: usize = a;
        while b < v.len() && !ascii_space(v[b])
            invariant
                a <= b <= v@.len(),
                t == v@.skip(a as int),
                b - a + word(v@.skip(b as int)) == word(t),
            decreases v@.len() - b,
        {
            proof {
                assert(v@.skip(b as int).drop_first() =~= v@.skip(b + 1));
            }
            b += 1;
        }
        proof {
            assert(b < v@.len() ==> v@.skip(b as int)[0] == v@[b as int]);
            assert(word(t) == b - a);
            lemma_word(t);
            assert(t.skip(word(t)) =~= v@.skip(b as int));
            assert(v@.subrange(a as int, b as int) =~= t.take(word(t)));
        }
        let piece: String = text_between(&v, a, b);
        out.push(piece);
        proof {
            assert(texts(out@) =~= seen.push(piece@));
            assert(texts(out@) + fields(v@.skip(b as int)) =~= seen + fields(rest));
            assert(b > a);
        }
        from = b;
    }
    proof {
        let rest = v@.skip(from as int);
        assert(rest.len() == 0);
        assert(rest.skip(gap(rest)).len() == 0);
        assert(fields(rest) =~= Seq::<Text>::empty());
        assert(texts(out@) =~= fields(s@));
    }
    out
}

/// The first piece of `s` without white space, if there is one.
pub open spec fn first_word(s: Text) -> Option<Text> {
    let t = trim_start(s);
    if t.len() == 0 {
        None
    } else {
        Some(t.take(solid(t)))
    }
}

/// How many characters other than white space `s` begins with.
pub open spec fn solid(s: Text) -> int
    decreases s.len(),
{
    if s.len() > 0 && !is_white_space(s[0]) {
        1 + solid(s.drop_first())
    } else {
        0
    }
}

/// The first piece of `s` without white space, if there is one.
pub fn first_word_of(s: &str) -> (r: Option<String>)
    ensures
        opt_text(r) == first_word(s@),
{
    let v: Vec<char> = chars_of(s);
    let mut a: usize = 0;
    proof {
        assert(v@.skip(0) =~= s@);
    }
    while a < v.len() && white_space(v[a])
        invariant
            0 <= a <= v@.len(),
            trim_start(v@.skip(a as int)) == trim_start(s@),
        decreases v@.len() - a,
    {
        proof {
            assert(v@.skip(a as int).drop_first() =~= v@.skip(a + 1));
        }
        a += 1;
    }
    let ghost t = v@.skip(a as int);
    proof {
        assert(a < v@.len() ==> t[0] == v@[a as int]);
        assert(trim_start(s@) == t);
    }
    if a >= v.len() {
        return None;
    }
    let mut b: usize = a;
    while b < v.len() && !white_space(v[b])
        invariant
            a <= b <= v@.len(),
            t == v@.skip(a as int),
            b - a + solid(v@.skip(b as int)) == solid(t),
        decreases v@.len() - b,
    {
        proof {
            assert(v@.skip(b as int).drop_first() =~= v@.skip(b + 1));
        }
        b += 1;
    }
    proof {
        assert(b < v@.len() ==> v@.skip(b as int)[0] == v@[b as int]);
        assert(v@.subrange(a as int, b as int) =~= t.take(solid(t)));
    }
    Some(text_between(&v, a, b))
}

} // verus!
