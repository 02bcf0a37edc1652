//! What holds of texts, paths and numbers, told by how they are put together.

use vstd::prelude::*;
use vstd::utf8::{
    encode_utf8, encode_utf8_decode_utf8, is_ascii_chars, is_ascii_chars_encode_utf8,
};

use crate::first_line::first_line;
use crate::number::{
    all_digits, decimal, decimal2, is_digit, law_decimal_parses, parsed, signed, unsigned_part,
};
use crate::order::{bytes_before, lemma_encode_adds, text_before_text};
use crate::outside::lossy_text;
use crate::path::{
    file_stem, has_extension, joined_path, last_dot, last_dot_of, lemma_last_dot,
};
use crate::program::passed_on;
use crate::search::{first_word, occurs, occurs_at, solid};
use crate::stats::reading;
use crate::text::{
    before, is_white_space, joined, lemma_position_is, position, split, trim_end, trim_start,
    trimmed, without_newlines, Text,
};

verus! {

// ---------------------------------------------------------------------------
// Searching and splitting
// ---------------------------------------------------------------------------

/// A text stands in another exactly where the other can be cut into what is before it, the text
/// itself, and what is after it.
pub proof fn law_occurs(s: Text, pat: Text)
    ensures
        occurs(s, pat) <==> exists|a: Text, b: Text| s == #[trigger] (a + pat + b),
{
    if occurs(s, pat) {
        let i = choose|i: int| #[trigger] occurs_at(s, pat, i);
        let a = s.take(i);
        let b = s.skip(i + pat.len());
        assert(s =~= a + s.subrange(i, i + pat.len()) + b);
        assert(s == a + pat + b);
    }
    if exists|a: Text, b: Text| s == #[trigger] (a + pat + b) {
        let (a, b) = choose|a: Text, b: Text| s == #[trigger] (a + pat + b);
        let i: int = a.len() as int;
        assert(s.subrange(i, i + pat.len()) =~= pat);
        assert(occurs_at(s, pat, i));
    }
}

/// What is before a character is all that comes before it first.
pub proof fn law_before(a: Text, c: char, rest: Text)
    requires
        !a.contains(c),
    ensures
        before(a + seq![c] + rest, c) == a,
        before(a, c) == a,
        position(a + seq![c] + rest, c) == a.len(),
        position(a, c) == a.len(),
{
    let s = a + seq![c] + rest;
    assert forall|i: int| 0 <= i < a.len() implies a[i] != c by {
        assert(a.contains(a[i]));
    }
    lemma_position_is(s, c, a.len() as int);
    lemma_position_is(a, c, a.len() as int);
    assert(before(s, c) =~= a);
    assert(before(a, c) =~= a);
}

/// Pieces that were joined by a character that none of them holds come apart again.
pub proof fn law_split_of_joined(pieces: Seq<Text>, c: char)
    requires
        pieces.len() > 0,
        forall|i: int| 0 <= i < pieces.len() ==> !(#[trigger] pieces[i]).contains(c),
    ensures
        split(joined(pieces, seq![c]), c) == pieces,
    decreases pieces.len(),
{
    let first = pieces[0];
    let s = joined(pieces, seq![c]);
    assert(!first.contains(c));
    if pieces.len() == 1 {
        law_before(first, c, seq![]);
        assert(split(s, c) =~= pieces);
    } else {
        let more = pieces.drop_first();
        assert forall|i: int| 0 <= i < more.len() implies !(#[trigger] more[i]).contains(c) by {
            assert(more[i] == pieces[i + 1]);
        }
        law_split_of_joined(more, c);
        let rest = joined(more, seq![c]);
        assert(s == first + seq![c] + rest);
        law_before(first, c, rest);
        assert(s.skip(first.len() as int + 1) =~= rest);
        assert(split(s, c) =~= pieces);
    }
}

// ---------------------------------------------------------------------------
// White space
// ---------------------------------------------------------------------------

/// Whether a text is nothing but white space.
pub open spec fn is_blank(s: Text) -> bool {
    forall|i: int| 0 <= i < s.len() ==> is_white_space(#[trigger] s[i])
}

/// The code points of white space.
pub open spec fn white_space_codes() -> Seq<int> {
    seq![
        0x9,
        0xa,
        0xb,
        0xc,
        0xd,
        0x20,
        0x85,
        0xa0,
        0x1680,
        0x2000,
        0x2001,
        0x2002,
        0x2003,
        0x2004,
        0x2005,
        0x2006,
        0x2007,
        0x2008,
        0x2009,
        0x200a,
        0x2028,
        0x2029,
        0x202f,
        0x205f,
        0x3000,
    ]
}

/// White space are these characters and no others; among the ASCII characters, the space and the
/// control characters from the tab to the carriage return.
pub proof fn law_white_space(c: char)
    ensures
        is_white_space(c) <==> white_space_codes().contains(c as int),
        c <= '\u{7f}' ==> (is_white_space(c) <==> (c == ' ' || c == '\t' || c == '\n' || c
            == '\u{b}' || c == '\u{c}' || c == '\r')),
{
    let codes = white_space_codes();
    let x = c as int;
    if is_white_space(c) {
        if x <= 0xd {
            assert(codes[x - 9] == x);
        } else if x == 0x20 {
            assert(codes[5] == x);
        } else if x == 0x85 {
            assert(codes[6] == x);
        } else if x == 0xa0 {
            assert(codes[7] == x);
        } else if x == 0x1680 {
            assert(codes[8] == x);
        } else if x <= 0x200a {
            assert(codes[x - 0x2000 + 9] == x);
        } else if x == 0x2028 {
            assert(codes[20] == x);
        } else if x == 0x2029 {
            assert(codes[21] == x);
        } else if x == 0x202f {
            assert(codes[22] == x);
        } else if x == 0x205f {
            assert(codes[23] == x);
        } else {
            assert(codes[24] == x);
        }
    }
}

proof fn lemma_trim_head(head: Text, s: Text)
    requires
        is_blank(head),
    ensures
        trim_start(head + s) == trim_start(s),
    decreases head.len(),
{
    if head.len() == 0 {
        assert(head + s =~= s);
    } else {
        let t = head.drop_first();
        assert forall|i: int| 0 <= i < t.len() implies is_white_space(#[trigger] t[i]) by {
            assert(t[i] == head[i + 1]);
        }
        assert(is_white_space(head[0]));
        assert((head + s)[0] == head[0]);
        assert((head + s).drop_first() =~= t + s);
        lemma_trim_head(t, s);
    }
}

proof fn lemma_trim_tail(s: Text, tail: Text)
    requires
        is_blank(tail),
    ensures
        trim_end(s + tail) == trim_end(s),
    decreases tail.len(),
{
    if tail.len() == 0 {
        assert(s + tail =~= s);
    } else {
        let t = tail.drop_last();
        assert forall|i: int| 0 <= i < t.len() implies is_white_space(#[trigger] t[i]) by {
            assert(t[i] == tail[i]);
        }
        assert(is_white_space(tail[tail.len() - 1]));
        assert((s + tail).last() == tail.last());
        assert((s + tail).drop_last() =~= s + t);
        lemma_trim_tail(s, t);
    }
}

/// White space around a text that has none at its ends is taken away, and nothing else.
pub proof fn law_trimmed(head: Text, core: Text, tail: Text)
    requires
        is_blank(head),
        is_blank(tail),
        core.len() > 0 ==> !is_white_space(core[0]) && !is_white_space(core.last()),
    ensures
        trimmed(head + core + tail) == core,
{
    assert(head + core + tail =~= head + (core + tail));
    lemma_trim_head(head, core + tail);
    if core.len() > 0 {
        assert((core + tail)[0] == core[0]);
        assert(trim_start(core + tail) == core + tail);
        lemma_trim_tail(core, tail);
    } else {
        assert(core + tail =~= tail + core);
        lemma_trim_head(tail, core);
    }
}

/// Whether `m` is `s` without the white space at either end of it.
pub open spec fn is_middle(s: Text, m: Text) -> bool {
    &&& m.len() > 0 ==> !is_white_space(m[0]) && !is_white_space(m.last())
    &&& exists|head: Text, tail: Text|
        is_blank(head) && is_blank(tail) && s == #[trigger] (head + m + tail)
}

proof fn lemma_start_is_rest(s: Text) -> (head: Text)
    ensures
        is_blank(head),
        s == head + trim_start(s),
        trim_start(s).len() > 0 ==> !is_white_space(trim_start(s)[0]),
    decreases s.len(),
{
    if s.len() > 0 && is_white_space(s[0]) {
        let h = lemma_start_is_rest(s.drop_first());
        let head = seq![s[0]] + h;
        assert forall|i: int| 0 <= i < head.len() implies is_white_space(#[trigger] head[i]) by {
            if i > 0 {
                assert(head[i] == h[i - 1]);
            }
        }
        let rest = trim_start(s);
        assert(s =~= seq![s[0]] + s.drop_first());
        assert(s.drop_first() == h + rest);
        assert(s =~= head + rest);
        head
    } else {
        assert(s =~= Seq::<char>::empty() + trim_start(s));
        seq![]
    }
}

proof fn lemma_end_is_rest(s: Text) -> (tail: Text)
    ensures
        is_blank(tail),
        s == trim_end(s) + tail,
        trim_end(s).len() > 0 ==> !is_white_space(trim_end(s).last()),
    decreases s.len(),
{
    if s.len() > 0 && is_white_space(s.last()) {
        let t = lemma_end_is_rest(s.drop_last());
        let tail = t.push(s.last());
        assert forall|i: int| 0 <= i < tail.len() implies is_white_space(#[trigger] tail[i]) by {
            if i < t.len() {
                assert(tail[i] == t[i]);
            }
        }
        let rest = trim_end(s);
        assert(s =~= s.drop_last().push(s.last()));
        assert(s.drop_last() == rest + t);
        assert(s =~= rest + tail);
        tail
    } else {
        assert(s =~= trim_end(s) + Seq::<char>::empty());
        seq![]
    }
}

/// What is trimmed is the text without the white space at either end.
pub proof fn law_trimmed_is_middle(s: Text)
    ensures
        is_middle(s, trimmed(s)),
{
    let head = lemma_start_is_rest(s);
    let t = trim_start(s);
    let tail = lemma_end_is_rest(t);
    let m = trimmed(s);
    if m.len() > 0 {
        assert(m[0] == t[0]);
    }
    assert(s =~= head + m + tail);
}

/// The first line of a text is all up to its first line end, trimmed.
pub proof fn law_first_line(head: Text, core: Text, tail: Text, rest: Text)
    requires
        is_blank(head),
        is_blank(tail),
        !head.contains('\n'),
        !core.contains('\n'),
        !tail.contains('\n'),
        core.len() > 0 ==> !is_white_space(core[0]) && !is_white_space(core.last()),
    ensures
        first_line(head + core + tail + seq!['\n'] + rest) == core,
        first_line(head + core + tail) == core,
{
    let line = head + core + tail;
    assert(!line.contains('\n')) by {
        if line.contains('\n') {
            let i = choose|i: int| 0 <= i < line.len() && line[i] == '\n';
            if i < head.len() {
                assert(head[i] == '\n');
            } else if i < head.len() + core.len() {
                assert(core[i - head.len()] == '\n');
            } else {
                assert(tail[i - head.len() - core.len()] == '\n');
            }
        }
    }
    law_before(line, '\n', rest);
    law_trimmed(head, core, tail);
}

/// The first word of a text is its first piece without white space.
pub proof fn law_first_word(head: Text, w: Text, rest: Text)
    requires
        is_blank(head),
        w.len() > 0,
        forall|i: int| 0 <= i < w.len() ==> !is_white_space(#[trigger] w[i]),
        rest.len() > 0 ==> is_white_space(rest[0]),
    ensures
        first_word(head + w + rest) == Some(w),
        first_word(head) is None,
{
    let t = w + rest;
    assert(head + w + rest =~= head + t);
    lemma_trim_head(head, t);
    assert(!is_white_space(w[0]));
    assert(t[0] == w[0]);
    assert(trim_start(t) == t);
    lemma_solid(w, rest);
    assert(t.take(w.len() as int) =~= w);
    lemma_trim_head(head, seq![]);
    assert(head + Seq::<char>::empty() =~= head);
}

proof fn lemma_solid(w: Text, rest: Text)
    requires
        forall|i: int| 0 <= i < w.len() ==> !is_white_space(#[trigger] w[i]),
        rest.len() > 0 ==> is_white_space(rest[0]),
    ensures
        solid(w + rest) == w.len(),
    decreases w.len(),
{
    if w.len() > 0 {
        let t = w.drop_first();
        assert forall|i: int| 0 <= i < t.len() implies !is_white_space(#[trigger] t[i]) by {
            assert(t[i] == w[i + 1]);
        }
        assert(!is_white_space(w[0]));
        assert((w + rest)[0] == w[0]);
        assert((w + rest).drop_first() =~= t + rest);
        lemma_solid(t, rest);
    } else {
        assert(w + rest =~= rest);
    }
}

/// The line ends behind a line are taken away, and nothing else.
pub proof fn law_without_newlines(line: Text, ends: Text)
    requires
        line.len() > 0 ==> line.last() != '\n',
        forall|i: int| 0 <= i < ends.len() ==> #[trigger] ends[i] == '\n',
    ensures
        without_newlines(line + ends) == line,
    decreases ends.len(),
{
    if ends.len() == 0 {
        assert(line + ends =~= line);
    } else {
        let t = ends.drop_last();
        assert forall|i: int| 0 <= i < t.len() implies #[trigger] t[i] == '\n' by {
            assert(t[i] == ends[i]);
        }
        assert(ends[ends.len() - 1] == '\n');
        assert((line + ends).last() == '\n');
        assert((line + ends).drop_last() =~= line + t);
        law_without_newlines(line, t);
    }
}

// ---------------------------------------------------------------------------
// Paths
// ---------------------------------------------------------------------------

/// A path below another is the two with one separator between them; an absolute path stays as it
/// is; and it does not matter which of three parts are joined first.
pub proof fn law_joined_path(a: Text, b: Text, c: Text)
    requires
        b.len() > 0,
        b[0] != '/',
        c.len() > 0 ==> c[0] != '/',
    ensures
        joined_path(a, seq!['/'] + b) == seq!['/'] + b,
        a.len() > 0 && a.last() != '/' ==> joined_path(a, b) == a + seq!['/'] + b,
        joined_path(a + seq!['/'], b) == a + seq!['/'] + b,
        joined_path(seq![], b) == b,
        joined_path(joined_path(a, b), c) == joined_path(a, joined_path(b, c)),
        a.len() > 0 && a.last() != '/' ==> joined_path(a, seq![]) == a + seq!['/'],
        joined_path(a + seq!['/'], seq![]) == a + seq!['/'],
{
    reveal_strlit("/");
    assert("/"@ =~= seq!['/']);
    assert((seq!['/'] + b)[0] == '/');
    assert(joined_path(seq![], b) =~= b);
    assert(a + seq!['/'] + Seq::<char>::empty() =~= a + seq!['/']);
    let bc = joined_path(b, c);
    assert(bc[0] == b[0]);
    let ab = joined_path(a, b);
    assert(ab.last() == b.last());
    assert(joined_path(ab, c) =~= joined_path(a, bc));
}

proof fn lemma_last_dot_of(stem: Text, ext: Text)
    requires
        !ext.contains('.'),
    ensures
        last_dot_of(stem + seq!['.'] + ext) == stem.len(),
    decreases ext.len(),
{
    let s = stem + seq!['.'] + ext;
    if ext.len() == 0 {
        assert(s.last() == '.');
    } else {
        let t = ext.drop_last();
        assert(!t.contains('.')) by {
            if t.contains('.') {
                let i = choose|i: int| 0 <= i < t.len() && t[i] == '.';
                assert(ext[i] == '.');
            }
        }
        assert(s.last() == ext.last());
        assert(ext.contains(ext[ext.len() - 1]));
        assert(s.drop_last() =~= stem + seq!['.'] + t);
        lemma_last_dot_of(stem, t);
    }
}

proof fn lemma_no_dot(s: Text)
    requires
        !s.contains('.'),
    ensures
        last_dot_of(s) == -1,
    decreases s.len(),
{
    if s.len() > 0 {
        let t = s.drop_last();
        assert(!t.contains('.')) by {
            if t.contains('.') {
                let i = choose|i: int| 0 <= i < t.len() && t[i] == '.';
                assert(s[i] == '.');
            }
        }
        assert(s.contains(s[s.len() - 1]));
        lemma_no_dot(t);
    }
}

/// A file name without its extension is all before its last dot. A name without a dot, or whose
/// only dot is its first character, has no extension.
pub proof fn law_file_stem(stem: Text, ext: Text)
    requires
        !ext.contains('.'),
    ensures
        stem.len() > 0 ==> file_stem(stem + seq!['.'] + ext) == stem,
        file_stem(ext) == ext,
        file_stem(seq!['.'] + ext) == seq!['.'] + ext,
{
    lemma_last_dot_of(stem, ext);
    assert((stem + seq!['.'] + ext).take(stem.len() as int) =~= stem);
    lemma_no_dot(ext);
    lemma_last_dot_of(seq![], ext);
    assert(Seq::<char>::empty() + seq!['.'] + ext =~= seq!['.'] + ext);
}

/// The extension of a file name is what follows its last dot.
pub proof fn law_extension(stem: Text, ext: Text, wanted: Text)
    requires
        stem.len() > 0,
        !ext.contains('.'),
        is_ascii_chars(ext),
    ensures
        has_extension(encode_utf8(stem + seq!['.'] + ext), wanted) <==> ext == wanted,
{
    let name = stem + seq!['.'] + ext;
    let bytes = encode_utf8(name);
    let head = encode_utf8(stem);
    let tail = encode_utf8(ext);
    let dot = seq!['.'];
    lemma_encode_adds(stem + dot, ext);
    lemma_encode_adds(stem, dot);
    assert(is_ascii_chars(dot));
    is_ascii_chars_encode_utf8(dot);
    is_ascii_chars_encode_utf8(ext);
    assert(encode_utf8(dot).len() == 1 && dot[0] as u8 == encode_utf8(dot)[0]);
    let n = head.len() as int;
    assert(n > 0) by {
        assert(stem =~= seq![stem[0]] + stem.drop_first());
        lemma_encode_adds(seq![stem[0]], stem.drop_first());
        if encode_utf8(seq![stem[0]]).len() == 0 {
            encode_utf8_decode_utf8(seq![stem[0]]);
            encode_utf8_decode_utf8(Seq::<char>::empty());
            assert(encode_utf8(seq![stem[0]]) =~= encode_utf8(Seq::<char>::empty()));
        }
    }
    assert(bytes[n] == 46);
    lemma_last_dot(bytes);
    let d = last_dot(bytes);
    if d > n {
        let i = d - n - 1;
        assert(bytes[d] == tail[i]);
        assert(ext[i] as u8 == tail[i]);
        assert(ext.contains(ext[i]));
        assert(ext[i] == '.');
    }
    assert(d == n);
    assert(bytes.skip(n + 1) =~= tail);
    if tail == encode_utf8(wanted) {
        encode_utf8_decode_utf8(ext);
        encode_utf8_decode_utf8(wanted);
    }
}

// ---------------------------------------------------------------------------
// Numbers
// ---------------------------------------------------------------------------

/// A number is written by the number of its tens, then its last digit; a negative one with a minus
/// sign in front.
pub proof fn law_decimal(tens: int, ones: int)
    requires
        tens >= 0,
        0 <= ones < 10,
    ensures
        decimal(ones) == seq![(48 + ones) as char],
        tens > 0 ==> decimal(10 * tens + ones) == decimal(tens) + decimal(ones),
        10 * tens + ones > 0 ==> decimal(-(10 * tens + ones)) == seq!['-'] + decimal(
            10 * tens + ones,
        ),
        decimal2(ones) == seq!['0'] + decimal(ones),
        10 * tens + ones >= 10 ==> decimal2(10 * tens + ones) == decimal(10 * tens + ones),
{
    let x = 10 * tens + ones;
    assert(x / 10 == tens && x % 10 == ones) by (nonlinear_arith)
        requires
            x == 10 * tens + ones,
            0 <= ones < 10,
    ;
    assert(decimal(ones) =~= seq![(48 + ones) as char]);
    if tens > 0 {
        assert(decimal(x) =~= decimal(tens) + decimal(ones));
    }
}

/// A reading is given in whole units, rounded towards zero; what is no number counts as zero.
pub proof fn law_reading(x: i64, s: Text)
    ensures
        x >= 0 ==> reading(decimal(x as int)) == x as int / 1000,
        x < 0 ==> reading(decimal(x as int)) == -((-(x as int)) / 1000),
        x >= 0 ==> reading(seq!['+'] + decimal(x as int)) == x as int / 1000,
        (exists|i: int| 0 <= i < s.len() && !('0' <= #[trigger] s[i] <= '9') && s[i] != '-' && s[i]
            != '+') ==> reading(s) == 0,
        s.len() == 0 ==> reading(s) == 0,
{
    law_decimal_parses(x);
    if x >= 0 {
        let d = decimal(x as int);
        let p = seq!['+'] + d;
        assert(p.drop_first() =~= d);
        assert(p[0] == '+');
        law_decimal_begins(x as int);
        assert(unsigned_part(d) == d);
        assert(parsed(p) == parsed(d));
    }
    if exists|i: int|
        0 <= i < s.len() && !('0' <= #[trigger] s[i] <= '9') && s[i] != '-' && s[i] != '+' {
        let i = choose|i: int|
            0 <= i < s.len() && !('0' <= #[trigger] s[i] <= '9') && s[i] != '-' && s[i] != '+';
        let body = unsigned_part(s);
        if signed(s) {
            assert(body[i - 1] == s[i]);
            assert(!is_digit(body[i - 1]));
        } else {
            assert(body[i] == s[i]);
            assert(!is_digit(body[i]));
        }
        assert(!all_digits(body));
    }
}

/// A number that is not negative is written with a digit at its beginning.
pub proof fn law_decimal_begins(x: int)
    requires
        x >= 0,
    ensures
        decimal(x).len() > 0,
        '0' <= decimal(x)[0] <= '9',
    decreases x,
{
    if x >= 10 {
        law_decimal_begins(x / 10);
        assert(decimal(x) == decimal(x / 10).push(((48 + x % 10) as char)));
        assert(decimal(x)[0] == decimal(x / 10)[0]);
    }
}

// ---------------------------------------------------------------------------
// Order
// ---------------------------------------------------------------------------

proof fn lemma_bytes_head(head: Seq<u8>, a: Seq<u8>, b: Seq<u8>)
    ensures
        bytes_before(head + a, head + b) == bytes_before(a, b),
    decreases head.len(),
{
    if head.len() == 0 {
        assert(head + a =~= a);
        assert(head + b =~= b);
    } else {
        lemma_bytes_head(head.drop_first(), a, b);
        assert((head + a).drop_first() =~= head.drop_first() + a);
        assert((head + b).drop_first() =~= head.drop_first() + b);
    }
}

/// A text comes before its continuations; and of two texts that differ first in an ASCII character,
/// the one with the smaller character comes first.
pub proof fn law_text_order(head: Text, c: char, x: Text, d: char, y: Text)
    requires
        c < d <= '\u{7f}',
    ensures
        text_before_text(head, head + seq![c] + x),
        text_before_text(head + seq![c] + x, head + seq![d] + y),
{
    let (hb, cb, xb) = (encode_utf8(head), encode_utf8(seq![c]), encode_utf8(x));
    let (db, yb) = (encode_utf8(seq![d]), encode_utf8(y));
    assert(head + seq![c] + x =~= head + (seq![c] + x));
    assert(head + seq![d] + y =~= head + (seq![d] + y));
    lemma_encode_adds(head, seq![c] + x);
    lemma_encode_adds(head, seq![d] + y);
    lemma_encode_adds(seq![c], x);
    lemma_encode_adds(seq![d], y);
    assert(is_ascii_chars(seq![c]));
    assert(is_ascii_chars(seq![d]));
    is_ascii_chars_encode_utf8(seq![c]);
    is_ascii_chars_encode_utf8(seq![d]);
    assert(seq![c][0] as u8 == cb[0]);
    assert(seq![d][0] as u8 == db[0]);
    lemma_bytes_head(hb, cb + xb, db + yb);
    lemma_bytes_head(hb, seq![], cb + xb);
    assert(hb + Seq::<u8>::empty() =~= hb);
}

/// What a program wrote is passed on line by line, each line without its end. Nothing more is
/// passed on once there is nothing more to read.
pub proof fn law_passed_on(bytes: Seq<u8>, line: Text)
    ensures
        passed_on(None) is None,
        passed_on(Some(bytes)) is None <==> bytes.len() == 0,
        bytes.len() > 0 && !line.contains('\n') && (lossy_text(bytes) == line || lossy_text(bytes)
            == line.push('\n')) ==> passed_on(Some(bytes)) == Some(line),
{
    if !line.contains('\n') {
        assert(line.len() > 0 ==> line.contains(line.last()));
        law_without_newlines(line, seq![]);
        law_without_newlines(line, seq!['\n']);
        assert(line + seq![] =~= line);
        assert(line + seq!['\n'] =~= line.push('\n'));
    }
}

} // verus!
