//! Text as a sequence of characters: comparing, trimming, splitting and joining.

use vstd::prelude::*;
use vstd::string::*;

verus! {

/// The contents of a string.
pub type Text = Seq<char>;

/// `std::string::String::push` appends one character to the end of the string.
pub assume_specification[ String::push ](s: &mut String, c: char)
    ensures
        final(s)@ == old(s)@.push(c),
;

/// The characters of `s` in order.
pub fn chars_of(s: &str) -> (r: Vec<char>)
    ensures
        r@ == s@,
{
    let mut v: Vec<char> = Vec::new();
    for c in it: s.chars()
        invariant
            v@ == it.seq().take(it.index()),
            it.seq() == s@,
    {
        v.push(c);
        proof {
            assert(it.seq().take(it.index() + 1) =~= it.seq().take(it.index()).push(c));
        }
    }
    v
}

/// The string that holds the characters from `from` up to `to`.
pub fn text_between(v: &Vec<char>, from: usize, to: usize) -> (r: String)
    requires
        from <= to <= v@.len(),
    ensures
        r@ == v@.subrange(from as int, to as int),
{
    let mut s: String = String::new();
    let mut i: usize = from;
    while i < to
        invariant
            from <= i <= to <= v@.len(),
            s@ == v@.subrange(from as int, i as int),
        decreases to - i,
    {
        s.push(v[i]);
        proof {
            assert(v@.subrange(from as int, i + 1) =~= v@.subrange(from as int, i as int).push(
                v@[i as int],
            ));
        }
        i += 1;
    }
    s
}

/// Whether two strings hold the same characters.
pub fn text_eq(a: &str, b: &str) -> (r: bool)
    ensures
        r == (a@ == b@),
{
    let x: Vec<char> = chars_of(a);
    let y: Vec<char> = chars_of(b);
    if x.len() != y.len() {
        return false;
    }
    let mut i: usize = 0;
    while i < x.len()
        invariant
            x@.len() == y@.len(),
            0 <= i <= x@.len(),
            forall|j: int| 0 <= j < i ==> x@[j] == y@[j],
            x@ == a@,
            y@ == b@,
        decreases x@.len() - i,
    {
        if x[i] != y[i] {
            proof {
                assert(a@[i as int] != b@[i as int]);
            }
            return false;
        }
        i += 1;
    }
    proof {
        assert(a@ =~= b@);
    }
    true
}

/// `a` followed by `b`.
pub fn cat(a: &str, b: &str) -> (r: String)
    ensures
        r@ == a@ + b@,
{
    let mut s: String = a.to_string();
    s.append(b);
    s
}

/// `a` followed by `b` and `c`.
pub fn cat3(a: &str, b: &str, c: &str) -> (r: String)
    ensures
        r@ == a@ + b@ + c@,
{
    let mut s: String = a.to_string();
    s.append(b);
    s.append(c);
    s
}

/// `a` followed by `b`, `c`, `d` and `e`.
pub fn cat5(a: &str, b: &str, c: &str, d: &str, e: &str) -> (r: String)
    ensures
        r@ == a@ + b@ + c@ + d@ + e@,
{
    let mut s: String = a.to_string();
    s.append(b);
    s.append(c);
    s.append(d);
    s.append(e);
    s
}

/// The contents of a list of strings.
pub open spec fn texts(v: Seq<String>) -> Seq<Text> {
    v.map_values(|s: String| s@)
}

/// The contents of a string that may be absent.
pub open spec fn opt_text(o: Option<String>) -> Option<Text> {
    match o {
        Some(s) => Some(s@),
        None => None,
    }
}

/// A copy of a list of strings.
pub fn clone_texts(v: &Vec<String>) -> (r: Vec<String>)
    ensures
        texts(r@) == texts(v@),
{
    let mut out: Vec<String> = Vec::new();
    let mut i: usize = 0;
    while i < v.len()
        invariant
            0 <= i <= v@.len(),
            out@.len() == i,
            forall|j: int| 0 <= j < i ==> out@[j]@ == v@[j]@,
        decreases v@.len() - i,
    {
        out.push(v[i].clone());
        i += 1;
    }
    proof {
        assert(texts(out@) =~= texts(v@));
    }
    out
}

/// A copy of a string that may be absent.
pub fn clone_opt(o: &Option<String>) -> (r: Option<String>)
    ensures
        opt_text(r) == opt_text(*o),
{
    match o {
        Some(s) => Some(s.clone()),
        None => None,
    }
}

/// Whether `s` is one of the strings in `v`.
pub fn contains_text(v: &Vec<String>, s: &str) -> (r: bool)
    ensures
        r == texts(v@).contains(s@),
{
    let mut i: usize = 0;
    while i < v.len()
        invariant
            0 <= i <= v@.len(),
            forall|j: int| 0 <= j < i ==> v@[j]@ != s@,
        decreases v@.len() - i,
    {
        if text_eq(v[i].as_str(), s) {
            proof {
                assert(texts(v@)[i as int] == s@);
            }
            return true;
        }
        i += 1;
    }
    proof {
        assert forall|j: int| 0 <= j < texts(v@).len() implies texts(v@)[j] != s@ by {}
    }
    false
}

// ---------------------------------------------------------------------------
// White space
// ---------------------------------------------------------------------------

/// The characters with the Unicode property `White_Space`.
pub open spec fn is_white_space(c: char) -> bool {
    ||| '\u{9}' <= c <= '\u{d}'
    ||| c == ' '
    ||| c == '\u{85}'
    ||| c == '\u{a0}'
    ||| c == '\u{1680}'
    ||| '\u{2000}' <= c <= '\u{200a}'
    ||| c == '\u{2028}'
    ||| c == '\u{2029}'
    ||| c == '\u{202f}'
    ||| c == '\u{205f}'
    ||| c == '\u{3000}'
}

/// Whether `c` has the Unicode property `White_Space`.
pub fn white_space(c: char) -> (r: bool)
    ensures
        r == is_white_space(c),
{
    ('\u{9}' <= c && c <= '\u{d}') || c == ' ' || c == '\u{85}' || c == '\u{a0}' || c == '\u{1680}'
        || ('\u{2000}' <= c && c <= '\u{200a}') || c == '\u{2028}' || c == '\u{2029}' || c
        == '\u{202f}' || c == '\u{205f}' || c == '\u{3000}'
}

/// The ASCII characters that separate fields: space, tab, line feed, form feed, carriage return.
pub open spec fn is_ascii_space(c: char) -> bool {
    c == ' ' || c == '\t' || c == '\n' || c == '\u{c}' || c == '\r'
}

/// Whether `c` separates fields.
pub fn ascii_space(c: char) -> (r: bool)
    ensures
        r == is_ascii_space(c),
{
    c == ' ' || c == '\t' || c == '\n' || c == '\u{c}' || c == '\r'
}

/// `s` without its leading white space.
pub open spec fn trim_start(s: Text) -> Text
    decreases s.len(),
{
    if s.len() > 0 && is_white_space(s[0]) {
        trim_start(s.drop_first())
    } else {
        s
    }
}

/// `s` without its trailing white space.
pub open spec fn trim_end(s: Text) -> Text
    decreases s.len(),
{
    if s.len() > 0 && is_white_space(s.last()) {
        trim_end(s.drop_last())
    } else {
        s
    }
}

/// `s` without white space at either end.
pub open spec fn trimmed(s: Text) -> Text {
    trim_end(trim_start(s))
}

/// `s` without the newlines it ends in.
pub open spec fn without_newlines(s: Text) -> Text
    decreases s.len(),
{
    if s.len() > 0 && s.last() == '\n' {
        without_newlines(s.drop_last())
    } else {
        s
    }
}

/// The part of `v` from `from` up to `to`, without white space at either end.
pub fn trim_between(v: &Vec<char>, from: usize, to: usize) -> (r: String)
    requires
        from <= to <= v@.len(),
    ensures
        r@ == trimmed(v@.subrange(from as int, to as int)),
{
    let mut a: usize = from;
    proof {
        assert(v@.subrange(a as int, to as int) =~= v@.subrange(from as int, to as int));
    }
    while a < to && white_space(v[a])
        invariant
            from <= a <= to <= v@.len(),
            trim_start(v@.subrange(a as int, to as int)) == trim_start(
                v@.subrange(from as int, to as int),
            ),
        decreases to - a,
    {
        proof {
            assert(v@.subrange(a as int, to as int).drop_first() =~= v@.subrange(
                a + 1,
                to as int,
            ));
        }
        a += 1;
    }
    let ghost rest = v@.subrange(a as int, to as int);
    let mut b: usize = to;
    while b > a && white_space(v[b - 1])
        invariant
            from <= a <= b <= to <= v@.len(),
            rest == v@.subrange(a as int, to as int),
            trim_end(v@.subrange(a as int, b as int)) == trim_end(rest),
        decreases b - a,
    {
        proof {
            assert(v@.subrange(a as int, b as int).drop_last() =~= v@.subrange(a as int, b - 1));
        }
        b -= 1;
    }
    text_between(v, a, b)
}

/// `s` without white space at either end.
pub fn trim(s: &str) -> (r: String)
    ensures
        r@ == trimmed(s@),
{
    let v: Vec<char> = chars_of(s);
    let n: usize = v.len();
    proof {
        assert(v@.subrange(0, n as int) =~= s@);
    }
    trim_between(&v, 0, n)
}

/// `s` without the newlines it ends in.
pub fn trim_newlines(s: &str) -> (r: String)
    ensures
        r@ == without_newlines(s@),
{
    let v: Vec<char> = chars_of(s);
    let mut b: usize = v.len();
    proof {
        assert(v@.subrange(0, b as int) =~= s@);
    }
    while b > 0 && v[b - 1] == '\n'
        invariant
            0 <= b <= v@.len(),
            without_newlines(v@.subrange(0, b as int)) == without_newlines(s@),
        decreases b,
    {
        proof {
            assert(v@.subrange(0, b as int).drop_last() =~= v@.subrange(0, b - 1));
        }
        b -= 1;
    }
    text_between(&v, 0, b)
}

// ---------------------------------------------------------------------------
// Splitting
// ---------------------------------------------------------------------------

/// Where `c` first occurs in `s`, or the length of `s`.
pub open spec fn position(s: Text, c: char) -> int
    decreases s.len(),
{
    if s.len() == 0 || s[0] == c {
        0
    } else {
        1 + position(s.drop_first(), c)
    }
}

/// The part of `s` before the first `c`: all of it where `c` does not occur.
pub open spec fn before(s: Text, c: char) -> Text {
    s.take(position(s, c))
}

pub proof fn lemma_position(s: Text, c: char)
    ensures
        0 <= position(s, c) <= s.len(),
        position(s, c) < s.len() ==> s[position(s, c)] == c,
        forall|i: int| 0 <= i < position(s, c) ==> s[i] != c,
    decreases s.len(),
{
    if s.len() > 0 && s[0] != c {
        let t = s.drop_first();
        lemma_position(t, c);
        assert forall|i: int| 0 <= i < position(s, c) implies s[i] != c by {
            if i > 0 {
                assert(s[i] == t[i - 1]);
            }
        }
    }
}

/// `position` is the only place with nothing equal to `c` before it that ends there or in a `c`.
pub proof fn lemma_position_is(s: Text, c: char, p: int)
    requires
        0 <= p <= s.len(),
        p < s.len() ==> s[p] == c,
        forall|i: int| 0 <= i < p ==> s[i] != c,
    ensures
        position(s, c) == p,
{
    lemma_position(s, c);
    let q = position(s, c);
    if q < p {
        assert(s[q] != c);
    } else if p < q {
        assert(s[p] != c);
    }
}

/// Where `c` first occurs in `v` at or after `from`, or the length of `v`.
pub fn find_char(v: &Vec<char>, c: char, from: usize) -> (p: usize)
    requires
        from <= v@.len(),
    ensures
        from <= p <= v@.len(),
        p == from + position(v@.skip(from as int), c),
{
    let mut p: usize = from;
    while p < v.len() && v[p] != c
        invariant
            from <= p <= v@.len(),
            forall|i: int| from <= i < p ==> v@[i] != c,
        decreases v@.len() - p,
    {
        p += 1;
    }
    proof {
        let t = v@.skip(from as int);
        assert forall|i: int| 0 <= i < p - from implies t[i] != c by {
            assert(t[i] == v@[from + i]);
        }
        lemma_position_is(t, c, p - from);
    }
    p
}

/// The part of `s` before the first `c`.
pub fn text_before(s: &str, c: char) -> (r: String)
    ensures
        r@ == before(s@, c),
{
    let v: Vec<char> = chars_of(s);
    proof {
        assert(v@.skip(0) =~= s@);
    }
    let p: usize = find_char(&v, c, 0);
    text_between(&v, 0, p)
}

/// The pieces of `s` between the occurrences of `c`, empty ones among them.
pub open spec fn split(s: Text, c: char) -> Seq<Text>
    decreases s.len(),
    via split_decreases
{
    if position(s, c) >= s.len() {
        seq![s]
    } else {
        seq![before(s, c)] + split(s.skip(position(s, c) + 1), c)
    }
}

#[via_fn]
proof fn split_decreases(s: Text, c: char) {
    lemma_position(s, c);
}

/// The pieces of `s` between the occurrences of `c`.
pub fn split_text(s: &str, c: char) -> (r: Vec<String>)
    ensures
        texts(r@) == split(s@, c),
{
    let v: Vec<char> = chars_of(s);
    let mut out: Vec<String> = Vec::new();
    let mut from: usize = 0;
    proof {
        assert(v@.skip(0) =~= s@);
        assert(texts(out@) =~= Seq::<Text>::empty());
        assert(texts(out@) + split(v@.skip(0), c) =~= split(s@, c));
    }
    loop
        invariant
            v@ == s@,
            0 <= from <= v@.len(),
            texts(out@) + split(v@.skip(from as int), c) == split(s@, c),
        decreases v@.len() - from,
    {
        let p: usize = find_char(&v, c, from);
        let piece: String = text_between(&v, from, p);
        let ghost rest = v@.skip(from as int);
        let ghost seen = texts(out@);
        proof {
            lemma_position(rest, c);
            assert(v@.subrange(from as int, p as int) =~= before(rest, c));
            assert(p < v@.len() ==> rest.skip(position(rest, c) + 1) =~= v@.skip(p + 1));
        }
        out.push(piece);
        proof {
            assert(texts(out@) =~= seen.push(piece@));
            if p >= v@.len() {
                assert(rest =~= before(rest, c));
                assert(split(rest, c) =~= seq![piece@]);
                assert(texts(out@) =~= seen + split(rest, c));
            } else {
                assert(texts(out@) + split(v@.skip(p + 1), c) =~= seen + split(rest, c));
            }
        }
        if p >= v.len() {
            return out;
        }
        from = p + 1;
    }
}

/// The pieces joined again, with `sep` between them.
pub open spec fn joined(pieces: Seq<Text>, sep: Text) -> Text
    decreases pieces.len(),
{
    if pieces.len() == 0 {
        seq![]
    } else if pieces.len() == 1 {
        pieces[0]
    } else {
        pieces[0] + sep + joined(pieces.drop_first(), sep)
    }
}

/// Joining the pieces of a split with the separator gives the text back.
pub proof fn law_split_join(s: Text, c: char)
    ensures
        joined(split(s, c), seq![c]) == s,
        split(s, c).len() >= 1,
    decreases s.len(),
{
    lemma_position(s, c);
    let p = position(s, c);
    if p < s.len() {
        let rest = s.skip(p + 1);
        law_split_join(rest, c);
        assert(split(s, c).drop_first() =~= split(rest, c));
        assert(joined(split(s, c), seq![c]) =~= s);
    }
}

/// No piece of a split holds the separator.
pub proof fn law_split_pieces(s: Text, c: char, i: int)
    requires
        0 <= i < split(s, c).len(),
    ensures
        !split(s, c)[i].contains(c),
    decreases s.len(),
{
    lemma_position(s, c);
    let p = position(s, c);
    if p < s.len() && i > 0 {
        law_split_pieces(s.skip(p + 1), c, i - 1);
        assert(split(s, c)[i] == split(s.skip(p + 1), c)[i - 1]);
    } else {
        assert(split(s, c)[i] =~= before(s, c));
        assert forall|j: int| 0 <= j < before(s, c).len() implies before(s, c)[j] != c by {}
    }
}

/// The strings of `v` with `sep` between them.
pub fn join_texts(v: &Vec<String>, sep: &str) -> (r: String)
    ensures
        r@ == joined(texts(v@), sep@),
{
    let mut out: String = String::new();
    let mut i: usize = v.len();
    proof {
        assert(texts(v@).skip(i as int) =~= Seq::<Text>::empty());
    }
    while i > 0
        invariant
            0 <= i <= v@.len(),
            out@ == joined(texts(v@).skip(i as int), sep@),
        decreases i,
    {
        i -= 1;
        let ghost rest = texts(v@).skip(i as int);
        proof {
            assert(rest.drop_first() =~= texts(v@).skip(i + 1));
            assert(rest[0] == v@[i as int]@);
        }
        if i + 1 == v.len() {
            out = v[i].clone();
            proof {
                assert(out@ =~= joined(rest, sep@));
            }
        } else {
            out = cat3(v[i].as_str(), sep, out.as_str());
        }
    }
    proof {
        assert(texts(v@).skip(0) =~= texts(v@));
    }
    out
}

} // verus!
