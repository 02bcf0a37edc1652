//! Passwords and tokens that are drawn by chance.

use vstd::prelude::*;
use vstd::string::*;
use vstd::utf8::{
    decode_utf8, encode_utf8, encode_utf8_decode_utf8, encode_utf8_valid_utf8, is_ascii_chars,
    is_ascii_chars_encode_utf8, valid_utf8,
};

use crate::outside::{
    alphanumeric_byte, alphanumeric_string, buffer_bytes, inline_capacity, is_alphanumeric,
    stack_lossy, table_chars, uniform_index, ByteBuffer, CharTable,
};
use crate::text::{chars_of, texts, Text};

verus! {

// ---------------------------------------------------------------------------
// Alphabets
// ---------------------------------------------------------------------------

/// That many characters in a row, beginning with `first`.
pub open spec fn letters(first: char, count: nat) -> Seq<char> {
    Seq::new(count, |i: int| (first as int + i) as char)
}

fn letter_table(first: u8, count: u8) -> (t: CharTable)
    requires
        first + count <= 128,
    ensures
        table_chars(t) == letters(first as char, count as nat),
{
    let mut t: CharTable = CharTable::new();
    let mut i: u8 = 0;
    proof {
        assert(table_chars(t) =~= letters(first as char, 0));
    }
    while i < count
        invariant
            0 <= i <= count,
            first + count <= 128,
            table_chars(t) == letters(first as char, i as nat),
        decreases count - i,
    {
        t.push((first + i) as char);
        proof {
            assert(table_chars(t) =~= letters(first as char, (i + 1) as nat));
        }
        i += 1;
    }
    t
}

/// The lower case letters.
pub fn get_lower_case() -> (t: CharTable)
    ensures
        table_chars(t) == letters('a', 26),
{
    letter_table(97, 26)
}

/// The upper case letters.
pub fn get_upper_case() -> (t: CharTable)
    ensures
        table_chars(t) == letters('A', 26),
{
    letter_table(65, 26)
}

/// The digits.
pub fn get_digits() -> (t: CharTable)
    ensures
        table_chars(t) == letters('0', 10),
{
    letter_table(48, 10)
}

/// The special characters.
pub fn get_special_chars() -> (t: CharTable)
    ensures
        table_chars(t) == "~@#$%^&*,.()|/?"@,
{
    let v: Vec<char> = chars_of("~@#$%^&*,.()|/?");
    let mut t: CharTable = CharTable::new();
    let mut i: usize = 0;
    while i < v.len()
        invariant
            0 <= i <= v@.len(),
            table_chars(t) == v@.take(i as int),
        decreases v@.len() - i,
    {
        t.push(v[i]);
        proof {
            assert(v@.take(i + 1) =~= v@.take(i as int).push(v@[i as int]));
        }
        i += 1;
    }
    proof {
        assert(v@.take(i as int) =~= v@);
    }
    t
}

// ---------------------------------------------------------------------------
// Chance
// ---------------------------------------------------------------------------

/// Whether `s` is that many ASCII letters and digits.
pub open spec fn is_token(s: Text, n: nat) -> bool {
    s.len() == n && forall|i: int| 0 <= i < s.len() ==> is_alphanumeric(#[trigger] s[i])
}

/// Whether `s` is that many characters of an alphabet.
pub open spec fn is_password(s: Text, n: nat, chars: Seq<char>) -> bool {
    s.len() == n && forall|i: int| 0 <= i < s.len() ==> chars.contains(#[trigger] s[i])
}

/// Bytes that are ASCII letters and digits encode these letters and digits.
proof fn lemma_ascii_text(bytes: Seq<u8>)
    requires
        forall|i: int| 0 <= i < bytes.len() ==> is_alphanumeric(#[trigger] bytes[i] as char),
    ensures
        valid_utf8(bytes),
        is_token(decode_utf8(bytes), bytes.len()),
{
    let chars = Seq::new(bytes.len(), |i: int| bytes[i] as char);
    assert forall|i: int| 0 <= i < chars.len() implies '\0' <= #[trigger] chars[i] <= '\u{7f}' by {
        assert(is_alphanumeric(bytes[i] as char));
    }
    assert(is_ascii_chars(chars));
    is_ascii_chars_encode_utf8(chars);
    assert forall|i: int| 0 <= i < bytes.len() implies encode_utf8(chars)[i] == bytes[i] by {
        assert(chars[i] as u8 == encode_utf8(chars)[i]);
    }
    assert(encode_utf8(chars) =~= bytes);
    encode_utf8_valid_utf8(chars);
    encode_utf8_decode_utf8(chars);
    assert forall|i: int| 0 <= i < chars.len() implies is_alphanumeric(#[trigger] chars[i]) by {
        assert(is_alphanumeric(bytes[i] as char));
    }
}

/// A string of `n` ASCII letters and digits, drawn by chance.
pub fn get_random_string(n: usize) -> (s: String)
    requires
        n <= isize::MAX,
    ensures
        is_token(s@, n as nat),
{
    if n > inline_capacity() {
        alphanumeric_string(n)
    } else {
        let mut buf: ByteBuffer = ByteBuffer::new();
        let mut i: usize = 0;
        while i < n
            invariant
                0 <= i <= n,
                buffer_bytes(buf).len() == i,
                forall|j: int|
                    0 <= j < buffer_bytes(buf).len() ==> is_alphanumeric(
                        #[trigger] buffer_bytes(buf)[j] as char,
                    ),
            decreases n - i,
        {
            buf.push(alphanumeric_byte());
            i += 1;
        }
        proof {
            lemma_ascii_text(buffer_bytes(buf));
        }
        stack_lossy(buf.items())
    }
}

/// The characters of an alphabet at these places.
pub open spec fn picked(chars: Seq<char>, places: Seq<usize>) -> Text {
    places.map_values(|i: usize| chars[i as int])
}

/// The characters of an alphabet at these places.
pub fn pick(chars: &[char], places: &Vec<usize>) -> (s: String)
    requires
        forall|i: int| 0 <= i < places@.len() ==> #[trigger] places@[i] < chars@.len(),
    ensures
        s@ == picked(chars@, places@),
{
    let mut out: String = String::new();
    let mut i: usize = 0;
    proof {
        assert(out@ =~= picked(chars@, places@.take(0)));
    }
    while i < places.len()
        invariant
            0 <= i <= places@.len(),
            forall|j: int| 0 <= j < places@.len() ==> #[trigger] places@[j] < chars@.len(),
            out@ == picked(chars@, places@.take(i as int)),
        decreases places@.len() - i,
    {
        out.push(chars[places[i]]);
        proof {
            assert(out@ =~= picked(chars@, places@.take(i + 1)));
        }
        i += 1;
    }
    proof {
        assert(places@.take(i as int) =~= places@);
    }
    out
}

/// A string of `n` characters of an alphabet, drawn by chance.
pub fn get_random_string_from_chars(n: usize, chars: &[char]) -> (s: String)
    requires
        chars@.len() > 0,
    ensures
        is_password(s@, n as nat, chars@),
{
    let mut places: Vec<usize> = Vec::new();
    let mut i: usize = 0;
    while i < n
        invariant
            0 <= i <= n,
            chars@.len() > 0,
            places@.len() == i,
            forall|j: int| 0 <= j < places@.len() ==> #[trigger] places@[j] < chars@.len(),
        decreases n - i,
    {
        places.push(uniform_index(chars.len()));
        i += 1;
    }
    let s: String = pick(chars, &places);
    proof {
        assert forall|j: int| 0 <= j < s@.len() implies chars@.contains(#[trigger] s@[j]) by {
            assert(places@[j] < chars@.len());
            assert(s@[j] == chars@[places@[j] as int]);
        }
    }
    s
}

/// All upper and lower case letters.
pub open spec fn upper_lower() -> Seq<char> {
    letters('A', 26) + letters('a', 26)
}

/// All letters and digits.
pub open spec fn upper_lower_digits() -> Seq<char> {
    upper_lower() + letters('0', 10)
}

/// All letters, digits and special characters.
pub open spec fn all_chars() -> Seq<char> {
    upper_lower_digits() + "~@#$%^&*,.()|/?"@
}

/// Whether these are five passwords of that length, from larger and larger alphabets.
pub open spec fn are_passwords(v: Seq<Text>, n: nat) -> bool {
    &&& v.len() == 5
    &&& is_password(v[0], n, letters('A', 26))
    &&& is_password(v[1], n, letters('a', 26))
    &&& is_password(v[2], n, upper_lower())
    &&& is_password(v[3], n, upper_lower_digits())
    &&& is_password(v[4], n, all_chars())
}

fn join_chars(a: &[char], b: &[char]) -> (r: Vec<char>)
    ensures
        r@ == a@ + b@,
{
    let mut out: Vec<char> = Vec::new();
    let mut i: usize = 0;
    while i < a.len()
        invariant
            0 <= i <= a@.len(),
            out@ == a@.take(i as int),
        decreases a@.len() - i,
    {
        out.push(a[i]);
        proof {
            assert(a@.take(i + 1) =~= a@.take(i as int).push(a@[i as int]));
        }
        i += 1;
    }
    let mut j: usize = 0;
    proof {
        assert(a@.take(i as int) =~= a@);
        assert(a@ + b@.take(0) =~= a@);
    }
    while j < b.len()
        invariant
            0 <= j <= b@.len(),
            out@ == a@ + b@.take(j as int),
        decreases b@.len() - j,
    {
        out.push(b[j]);
        proof {
            assert(a@ + b@.take(j + 1) =~= (a@ + b@.take(j as int)).push(b@[j as int]));
        }
        j += 1;
    }
    proof {
        assert(b@.take(j as int) =~= b@);
    }
    out
}

/// Five passwords of `n` characters each, drawn by chance from larger and larger alphabets.
pub fn create_passwords(n: usize) -> (r: Vec<String>)
    ensures
        are_passwords(texts(r@), n as nat),
{
    let upper: CharTable = get_upper_case();
    let lower: CharTable = get_lower_case();
    let digits: CharTable = get_digits();
    let special: CharTable = get_special_chars();
    let letter: Vec<char> = join_chars(upper.as_slice(), lower.as_slice());
    let letter_digit: Vec<char> = join_chars(letter.as_slice(), digits.as_slice());
    let all: Vec<char> = join_chars(letter_digit.as_slice(), special.as_slice());
    let out: Vec<String> = vec![
        get_random_string_from_chars(n, upper.as_slice()),
        get_random_string_from_chars(n, lower.as_slice()),
        get_random_string_from_chars(n, letter.as_slice()),
        get_random_string_from_chars(n, letter_digit.as_slice()),
        get_random_string_from_chars(n, all.as_slice()),
    ];
    out
}

} // verus!
