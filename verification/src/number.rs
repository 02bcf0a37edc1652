//! Whole numbers as decimal text.

use vstd::prelude::*;

use crate::text::{cat, chars_of, Text};

verus! {

/// The character for a digit.
pub open spec fn digit(d: int) -> char {
    (48 + d) as char
}

/// The decimal digits of `n`, without leading zeros.
pub open spec fn digits(n: nat) -> Text
    decreases n,
{
    if n < 10 {
        seq![digit(n as int)]
    } else {
        digits(n / 10).push(digit((n % 10) as int))
    }
}

/// `x` in decimal, with a sign where it is negative.
pub open spec fn decimal(x: int) -> Text {
    if x < 0 {
        seq!['-'] + digits((-x) as nat)
    } else {
        digits(x as nat)
    }
}

/// `x` in decimal, with a zero in front where it would be one character long.
pub open spec fn decimal2(x: int) -> Text {
    if 0 <= x < 10 {
        seq!['0'] + decimal(x)
    } else {
        decimal(x)
    }
}

fn digit_char(d: u64) -> (c: char)
    requires
        d < 10,
    ensures
        c == digit(d as int),
{
    (48u8 + d as u8) as char
}

fn digits_text(n: u64) -> (s: String)
    ensures
        s@ == digits(n as nat),
    decreases n,
{
    if n < 10 {
        let mut s: String = String::new();
        s.push(digit_char(n));
        proof {
            assert(s@ =~= digits(n as nat));
        }
        s
    } else {
        let mut s: String = digits_text(n / 10);
        s.push(digit_char(n % 10));
        s
    }
}

/// `x` in decimal.
pub fn decimal_text(x: i64) -> (s: String)
    ensures
        s@ == decimal(x as int),
{
    if x < 0 {
        let m: u64 = if x == i64::MIN {
            9_223_372_036_854_775_808u64
        } else {
            (-x) as u64
        };
        let d: String = digits_text(m);
        let mut s: String = String::new();
        s.push('-');
        proof {
            assert(s@ =~= seq!['-']);
        }
        cat(s.as_str(), d.as_str())
    } else {
        digits_text(x as u64)
    }
}

/// `x` in decimal, at least two characters long.
pub fn decimal2_text(x: i64) -> (s: String)
    ensures
        s@ == decimal2(x as int),
{
    let d: String = decimal_text(x);
    if 0 <= x && x < 10 {
        let mut s: String = String::new();
        s.push('0');
        proof {
            assert(s@ =~= seq!['0']);
        }
        cat(s.as_str(), d.as_str())
    } else {
        d
    }
}

// ---------------------------------------------------------------------------
// Reading
// ---------------------------------------------------------------------------

pub open spec fn is_digit(c: char) -> bool {
    '0' <= c <= '9'
}

pub open spec fn all_digits(s: Text) -> bool {
    forall|i: int| 0 <= i < s.len() ==> is_digit(#[trigger] s[i])
}

pub open spec fn digit_value(c: char) -> int {
    c as int - '0' as int
}

/// The number that a sequence of digits stands for.
pub open spec fn value(s: Text) -> int
    decreases s.len(),
{
    if s.len() == 0 {
        0
    } else {
        10 * value(s.drop_last()) + digit_value(s.last())
    }
}

/// Whether `s` begins with a sign.
pub open spec fn signed(s: Text) -> bool {
    s.len() > 0 && (s[0] == '-' || s[0] == '+')
}

/// `s` without its sign.
pub open spec fn unsigned_part(s: Text) -> Text {
    if signed(s) {
        s.drop_first()
    } else {
        s
    }
}

/// What `s` says as a number: an optional sign and at least one digit.
pub open spec fn numeral(s: Text) -> Option<int> {
    let body = unsigned_part(s);
    if body.len() > 0 && all_digits(body) {
        Some(
            if s[0] == '-' {
                -value(body)
            } else {
                value(body)
            },
        )
    } else {
        None
    }
}

/// The 64-bit number that `s` says, if it says one.
pub open spec fn parsed(s: Text) -> Option<i64> {
    match numeral(s) {
        Some(n) => if i64::MIN <= n <= i64::MAX {
            Some(n as i64)
        } else {
            None
        },
        None => None,
    }
}

proof fn lemma_value_grows(s: Text, k: int)
    requires
        all_digits(s),
        0 <= k <= s.len(),
    ensures
        0 <= value(s.take(k)) <= value(s),
    decreases s.len(),
{
    if s.len() == 0 {
        assert(s.take(k) =~= s);
    } else if k == s.len() {
        assert(s.take(k) =~= s);
        lemma_value_grows(s.drop_last(), 0);
        assert(is_digit(s[s.len() - 1]));
    } else {
        let t = s.drop_last();
        assert forall|i: int| 0 <= i < t.len() implies is_digit(#[trigger] t[i]) by {
            assert(is_digit(s[i]));
        }
        lemma_value_grows(t, k);
        assert(t.take(k) =~= s.take(k));
        assert(is_digit(s[s.len() - 1]));
        lemma_value_grows(t, 0);
    }
}

/// The 64-bit number that `s` says, if it says one.
pub fn parse_i64(s: &str) -> (r: Option<i64>)
    ensures
        r == parsed(s@),
{
    let v: Vec<char> = chars_of(s);
    if v.len() == 0 {
        return None;
    }
    let negative: bool = v[0] == '-';
    let start: usize = if v[0] == '-' || v[0] == '+' {
        1
    } else {
        0
    };
    let ghost body = unsigned_part(s@);
    proof {
        assert(body =~= v@.skip(start as int));
    }
    if start == v.len() {
        return None;
    }
    let mut acc: i128 = 0;
    let mut i: usize = start;
    proof {
        assert(body.take(0) =~= Seq::<char>::empty());
    }
    while i < v.len()
        invariant
            v@ == s@,
            start <= i <= v@.len(),
            start <= 1,
            body == v@.skip(start as int),
            body == unsigned_part(s@),
            forall|j: int| 0 <= j < i - start ==> is_digit(#[trigger] body[j]),
            acc == value(body.take(i - start)),
            0 <= acc <= 9_223_372_036_854_775_808,
        decreases v@.len() - i,
    {
        let c: char = v[i];
        proof {
            assert(body[i - start] == c);
        }
        if !('0' <= c && c <= '9') {
            proof {
                assert(!is_digit(body[i - start]));
            }
            return None;
        }
        let d: u32 = c as u32 - '0' as u32;
        acc = acc * 10 + d as i128;
        proof {
            assert(body.take(i + 1 - start).drop_last() =~= body.take(i - start));
            assert(body.take(i + 1 - start).last() == c);
        }
        if acc > 9_223_372_036_854_775_808 {
            proof {
                if all_digits(body) {
                    lemma_value_grows(body, i + 1 - start);
                }
            }
            return None;
        }
        i += 1;
    }
    proof {
        assert(body.take(i - start) =~= body);
        assert(all_digits(body));
    }
    let n: i128 = if negative {
        -acc
    } else {
        acc
    };
    if n > 9_223_372_036_854_775_807 {
        None
    } else {
        Some(n as i64)
    }
}

proof fn lemma_digits(n: nat)
    ensures
        digits(n).len() > 0,
        all_digits(digits(n)),
        value(digits(n)) == n,
    decreases n,
{
    if n < 10 {
        let s = digits(n);
        assert(s.drop_last() =~= Seq::<char>::empty());
        assert(value(s.drop_last()) == 0);
    } else {
        lemma_digits(n / 10);
        let s = digits(n);
        assert(s.drop_last() =~= digits(n / 10));
        assert forall|i: int| 0 <= i < s.len() implies is_digit(#[trigger] s[i]) by {
            if i < s.len() - 1 {
                assert(s[i] == digits(n / 10)[i]);
            }
        }
    }
}

/// Reading back a number that was written in decimal gives the number.
pub proof fn law_decimal_parses(x: i64)
    ensures
        parsed(decimal(x as int)) == Some(x),
{
    let n: int = x as int;
    let s = decimal(n);
    if n < 0 {
        lemma_digits((-n) as nat);
        assert(s.drop_first() =~= digits((-n) as nat));
        assert(s[0] == '-');
    } else {
        lemma_digits(n as nat);
        assert(is_digit(s[0]));
        assert(unsigned_part(s) == s);
    }
}

/// Different numbers are written differently.
pub proof fn law_decimal_injective(x: i64, y: i64)
    requires
        decimal(x as int) == decimal(y as int),
    ensures
        x == y,
{
    law_decimal_parses(x);
    law_decimal_parses(y);
}

} // verus!
