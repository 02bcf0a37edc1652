//! What the scripts have from other crates and from parts of the standard library that come
//! without a contract. Everything in this file that is marked `external_body` is believed, not
//! proved.

use rand::distr::{Alphanumeric, Distribution, SampleString, Uniform};
use smallvec::SmallVec;
use stack_string::{StackString, MAX_INLINE};
use time::OffsetDateTime;
use vstd::prelude::*;
use vstd::utf8::{decode_utf8, encode_utf8, valid_utf8};

use crate::order::text_before_text;
use crate::text::Text;

verus! {

// ---------------------------------------------------------------------------
// Small buffers
// ---------------------------------------------------------------------------

/// A list of characters in a `smallvec::SmallVec`.
#[verifier::external_body]
pub struct CharTable {
    inner: SmallVec<[char; 26]>,
}

/// The characters that a table holds, in order.
pub uninterp spec fn table_chars(t: CharTable) -> Seq<char>;

impl CharTable {
    /// `smallvec::SmallVec::new` gives a list without items.
    #[verifier::external_body]
    pub(crate) fn new() -> (t: CharTable)
        ensures
            table_chars(t) == Seq::<char>::empty(),
    {
        CharTable { inner: SmallVec::new() }
    }

    /// `smallvec::SmallVec::push` puts one item behind those that the list holds.
    #[verifier::external_body]
    pub(crate) fn push(&mut self, c: char)
        ensures
            table_chars(*final(self)) == table_chars(*old(self)).push(c),
    {
        self.inner.push(c)
    }

    /// `smallvec::SmallVec::as_slice` shows all items in order.
    #[verifier::external_body]
    pub(crate) fn items(&self) -> (s: &[char])
        ensures
            s@ == table_chars(*self),
    {
        self.inner.as_slice()
    }

    /// All characters of the table in order.
    pub fn as_slice(&self) -> (s: &[char])
        ensures
            s@ == table_chars(*self),
    {
        self.items()
    }
}

/// A list of bytes in a `smallvec::SmallVec`.
#[verifier::external_body]
pub struct ByteBuffer {
    inner: SmallVec<[u8; MAX_INLINE]>,
}

/// The bytes that a buffer holds, in order.
pub uninterp spec fn buffer_bytes(b: ByteBuffer) -> Seq<u8>;

impl ByteBuffer {
    /// `smallvec::SmallVec::new` gives a list without items.
    #[verifier::external_body]
    pub(crate) fn new() -> (b: ByteBuffer)
        ensures
            buffer_bytes(b) == Seq::<u8>::empty(),
    {
        ByteBuffer { inner: SmallVec::new() }
    }

    /// `smallvec::SmallVec::push` puts one item behind those that the list holds.
    #[verifier::external_body]
    pub(crate) fn push(&mut self, x: u8)
        ensures
            buffer_bytes(*final(self)) == buffer_bytes(*old(self)).push(x),
    {
        self.inner.push(x)
    }

    /// `smallvec::SmallVec::as_slice` shows all items in order.
    #[verifier::external_body]
    pub(crate) fn items(&self) -> (s: &[u8])
        ensures
            s@ == buffer_bytes(*self),
    {
        self.inner.as_slice()
    }
}

/// `stack_string::MAX_INLINE`: the longest text that a `StackString` holds without an
/// allocation. It is the size of a `String`, which differs between machines.
#[verifier::external_body]
pub(crate) fn inline_capacity() -> (n: usize) {
    MAX_INLINE
}

// ---------------------------------------------------------------------------
// Chance
// ---------------------------------------------------------------------------

/// The ASCII letters and digits.
pub open spec fn is_alphanumeric(c: char) -> bool {
    'a' <= c <= 'z' || 'A' <= c <= 'Z' || '0' <= c <= '9'
}

/// `rand::distr::Alphanumeric` samples an ASCII letter or digit with each draw of
/// `Distribution::sample`. Which one is left open.
#[verifier::external_body]
pub(crate) fn alphanumeric_byte() -> (b: u8)
    ensures
        is_alphanumeric(b as char),
{
    Alphanumeric.sample(&mut rand::rng())
}

/// `rand::distr::SampleString::sample_string` of `rand::distr::Alphanumeric` draws `n` ASCII
/// letters and digits. Which ones is left open.
#[verifier::external_body]
pub(crate) fn alphanumeric_string(n: usize) -> (s: String)
    requires
        n <= isize::MAX,
    ensures
        s@.len() == n,
        forall|i: int| 0 <= i < n ==> is_alphanumeric(#[trigger] s@[i]),
{
    Alphanumeric.sample_string(&mut rand::rng(), n)
}

/// `rand::distr::Uniform` over the range from zero up to `bound` samples a number in that range.
/// Which one is left open. An empty range is no distribution.
#[verifier::external_body]
pub(crate) fn uniform_index(bound: usize) -> (i: usize)
    requires
        0 < bound,
    ensures
        i < bound,
{
    Uniform::try_from(0..bound).expect("failed to create uniform distribution").sample(
        &mut rand::rng(),
    )
}

// ---------------------------------------------------------------------------
// Text from bytes
// ---------------------------------------------------------------------------

/// What `stack_string::StackString::from_utf8_lossy` makes of bytes.
pub uninterp spec fn stack_lossy_text(bytes: Seq<u8>) -> Seq<char>;

/// Whether bytes that are UTF-8 are read as the text that they encode.
pub open spec fn reads_utf8(bytes: Seq<u8>) -> bool {
    valid_utf8(bytes) ==> stack_lossy_text(bytes) == decode_utf8(bytes)
}

/// `stack_string::StackString::from_utf8_lossy` reads bytes as UTF-8. Bytes that are UTF-8 give
/// the text that they encode; what stands in place of others is left unsaid.
#[verifier::external_body]
pub(crate) fn stack_lossy(bytes: &[u8]) -> (s: String)
    ensures
        s@ == stack_lossy_text(bytes@),
        valid_utf8(bytes@) ==> s@ == decode_utf8(bytes@),
{
    StackString::from_utf8_lossy(bytes).into()
}

/// What `std::string::String::from_utf8_lossy` makes of bytes.
pub uninterp spec fn lossy_text(bytes: Seq<u8>) -> Seq<char>;

/// `std::string::String::from_utf8_lossy` reads bytes as UTF-8. Bytes that are UTF-8 give the text
/// that they encode; what stands in place of others is left unsaid.
#[verifier::external_body]
pub(crate) fn lossy(bytes: &[u8]) -> (s: String)
    ensures
        s@ == lossy_text(bytes@),
        valid_utf8(bytes@) ==> s@ == decode_utf8(bytes@),
{
    String::from_utf8_lossy(bytes).into_owned()
}

/// The text that bytes encode, if they are UTF-8.
pub open spec fn decoded(bytes: Seq<u8>) -> Option<Text> {
    if valid_utf8(bytes) {
        Some(decode_utf8(bytes))
    } else {
        None
    }
}

/// `std::str::from_utf8` gives the text that bytes encode exactly where they are UTF-8.
#[verifier::external_body]
pub(crate) fn utf8_text(bytes: &[u8]) -> (s: Option<String>)
    ensures
        match s {
            Some(t) => decoded(bytes@) == Some(t@),
            None => decoded(bytes@) is None,
        },
{
    std::str::from_utf8(bytes).ok().map(str::to_string)
}

/// How `std::path::Path` shows a path for a reader: in quotes, with escapes.
pub uninterp spec fn path_shown(path: Seq<char>) -> Seq<char>;

/// `std::fmt::Debug` of `std::path::Path`. The result depends on the path alone; which characters
/// are escaped, and how, is left unsaid.
#[verifier::external_body]
pub(crate) fn show_path(path: &str) -> (s: String)
    ensures
        s@ == path_shown(path@),
{
    format!("{:?}", std::path::Path::new(path))
}

// ---------------------------------------------------------------------------
// Dates
// ---------------------------------------------------------------------------

/// The Unix times whose calendar date has a year of four digits or fewer, before or after zero.
pub open spec fn is_calendar_time(seconds: int) -> bool {
    -377_705_116_800 <= seconds <= 253_402_300_799
}

/// The Unix times of the years 0 to 9999.
pub open spec fn is_common_time(seconds: int) -> bool {
    -62_167_219_200 <= seconds <= 253_402_300_799
}

/// The day of a Unix time, counted from the first day of 1970.
pub open spec fn day_of(seconds: int) -> int {
    seconds / 86_400
}

/// Whether `a` comes before `b` in the order of texts, and takes as many bytes.
pub open spec fn comes_before(a: Text, b: Text) -> bool {
    encode_utf8(a).len() == encode_utf8(b).len() && text_before_text(a, b)
}

/// How `time::Date` writes the date, in UTC, of a Unix time.
pub uninterp spec fn utc_date_text(seconds: i64) -> Seq<char>;

/// `time::OffsetDateTime::from_unix_timestamp`, its `date`, and the `Display` of `time::Date`. The
/// result depends on the number of seconds alone. In the years 0 to 9999 a date is the year, the
/// month and the day, in that order, each with its leading zeros; so the date of an earlier day is
/// as long, and comes before it in the order of texts. What a date says beyond that is left unsaid.
#[verifier::external_body]
pub(crate) fn utc_date(seconds: i64) -> (s: String)
    requires
        is_calendar_time(seconds as int),
    ensures
        s@ == utc_date_text(seconds),
        is_common_time(seconds as int) ==> forall|earlier: i64|
            is_common_time(earlier as int) && day_of(earlier as int) < day_of(seconds as int)
                ==> comes_before(#[trigger] utc_date_text(earlier), s@),
{
    OffsetDateTime::from_unix_timestamp(seconds).expect("timestamp in range").date().to_string()
}

} // verus!
