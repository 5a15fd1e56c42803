//! Numeric text: decimal rendering of indices for diagnostics, the value of
//! a binary digit string, and decimal integer parsing for the read-integer
//! instruction.

use vstd::prelude::*;

verus! {

/// The decimal digit character for `d` (`0 <= d <= 9`).
pub open spec fn dec_digit(d: int) -> char {
    if d == 0 {
        '0'
    } else if d == 1 {
        '1'
    } else if d == 2 {
        '2'
    } else if d == 3 {
        '3'
    } else if d == 4 {
        '4'
    } else if d == 5 {
        '5'
    } else if d == 6 {
        '6'
    } else if d == 7 {
        '7'
    } else if d == 8 {
        '8'
    } else {
        '9'
    }
}

/// The decimal rendering of a non-negative integer, most significant digit
/// first, with no leading zeros (except for `0` itself).
pub open spec fn dec_str(n: int) -> Seq<char>
    recommends
        n >= 0,
    decreases n,
{
    if n < 10 {
        seq![dec_digit(n)]
    } else {
        dec_str(n / 10).push(dec_digit(n % 10))
    }
}

/// `dec_str` for a strictly positive remainder, and empty for zero: the shape
/// a digit-peeling loop maintains.
pub open spec fn dec_str_rem(n: int) -> Seq<char> {
    if n <= 0 {
        Seq::empty()
    } else {
        dec_str(n)
    }
}

/// Relies on `String::push`: appends the given character to the end of the
/// string.
#[verifier::external_body]
pub(crate) fn push_char(s: &mut String, c: char)
    ensures
        final(s)@ == old(s)@.push(c),
{
    s.push(c);
}

fn dec_digit_exec(d: usize) -> (c: char)
    requires
        d < 10,
    ensures
        c == dec_digit(d as int),
{
    if d == 0 {
        '0'
    } else if d == 1 {
        '1'
    } else if d == 2 {
        '2'
    } else if d == 3 {
        '3'
    } else if d == 4 {
        '4'
    } else if d == 5 {
        '5'
    } else if d == 6 {
        '6'
    } else if d == 7 {
        '7'
    } else if d == 8 {
        '8'
    } else {
        '9'
    }
}

/// Renders `n` in decimal, as `dec_str` describes.
pub fn usize_to_string(n: usize) -> (s: String)
    ensures
        s@ == dec_str(n as int),
{
    let mut digits: Vec<char> = Vec::new();
    let mut m: usize = n;
    digits.push(dec_digit_exec(m % 10));
    m = m / 10;
    while m != 0
        invariant
            digits@.len() >= 1,
            dec_str(n as int) =~= dec_str_rem(m as int) + digits@.reverse(),
        decreases m,
    {
        digits.push(dec_digit_exec(m % 10));
        proof {
            assert(digits@.reverse() =~= seq![dec_digit(m as int % 10)] + digits@.drop_last().reverse());
        }
        m = m / 10;
    }
    let mut s = String::new();
    let mut j: usize = digits.len();
    while j != 0
        invariant
            j <= digits@.len(),
            dec_str(n as int) =~= digits@.reverse(),
            s@ =~= digits@.reverse().take(digits@.len() - j),
        decreases j,
    {
        j = j - 1;
        let c = digits[j];
        push_char(&mut s, c);
        proof {
            assert(digits@.reverse()[digits@.len() - j - 1] == digits@[j as int]);
            assert(s@ =~= digits@.reverse().take(digits@.len() - j));
        }
    }
    proof {
        assert(s@ =~= digits@.reverse());
    }
    s
}

/// The value of a binary digit string where space is 0 and tab is 1,
/// most significant digit first.
pub open spec fn bin_value(s: Seq<char>) -> int
    decreases s.len(),
{
    if s.len() == 0 {
        0
    } else {
        2 * bin_value(s.drop_last()) + (if s.last() == '\t' {
            1int
        } else {
            0int
        })
    }
}

/// Whether `c` is an ASCII decimal digit.
pub open spec fn is_dec_digit(c: char) -> bool {
    48 <= c as u32 <= 57
}

/// The value of a decimal digit string, most significant digit first.
pub open spec fn dec_value(s: Seq<char>) -> int
    decreases s.len(),
{
    if s.len() == 0 {
        0
    } else {
        10 * dec_value(s.drop_last()) + (s.last() as u32 - 48)
    }
}

proof fn lemma_dec_value_nonneg(s: Seq<char>)
    requires
        forall|j: int| 0 <= j < s.len() ==> is_dec_digit(#[trigger] s[j]),
    ensures
        dec_value(s) >= 0,
    decreases s.len(),
{
    if s.len() > 0 {
        assert(forall|j: int|
            0 <= j < s.drop_last().len() ==> is_dec_digit(#[trigger] s.drop_last()[j]));
        lemma_dec_value_nonneg(s.drop_last());
    }
}

/// A digit string's value is at least the value of any of its prefixes.
proof fn lemma_dec_value_mono(s: Seq<char>, m: int)
    requires
        0 <= m <= s.len(),
        forall|j: int| 0 <= j < s.len() ==> is_dec_digit(#[trigger] s[j]),
    ensures
        dec_value(s.take(m)) <= dec_value(s),
    decreases s.len(),
{
    if m == s.len() {
        assert(s.take(m) =~= s);
    } else {
        assert(forall|j: int|
            0 <= j < s.drop_last().len() ==> is_dec_digit(#[trigger] s.drop_last()[j]));
        lemma_dec_value_nonneg(s.drop_last());
        lemma_dec_value_mono(s.drop_last(), m);
        assert(s.drop_last().take(m) =~= s.take(m));
    }
}

/// Whether `c` has the Unicode white-space property, the class that both
/// ends of a read line are stripped of before integer parsing.
pub open spec fn is_white(c: char) -> bool {
    ||| c as u32 == 32
    ||| (9 <= c as u32 <= 13)
    ||| c as u32 == 0x85
    ||| c as u32 == 0xa0
    ||| c as u32 == 0x1680
    ||| (0x2000 <= c as u32 <= 0x200a)
    ||| c as u32 == 0x2028
    ||| c as u32 == 0x2029
    ||| c as u32 == 0x202f
    ||| c as u32 == 0x205f
    ||| c as u32 == 0x3000
}

fn is_white_exec(c: char) -> (r: bool)
    ensures
        r == is_white(c),
{
    let u = c as u32;
    u == 32 || (9 <= u && u <= 13) || u == 0x85 || u == 0xa0 || u == 0x1680 || (0x2000 <= u && u
        <= 0x200a) || u == 0x2028 || u == 0x2029 || u == 0x202f || u == 0x205f || u == 0x3000
}

/// `s` with leading white space removed.
pub open spec fn trim_front(s: Seq<char>) -> Seq<char>
    decreases s.len(),
{
    if s.len() > 0 && is_white(s[0]) {
        trim_front(s.drop_first())
    } else {
        s
    }
}

/// `s` with trailing white space removed.
pub open spec fn trim_back(s: Seq<char>) -> Seq<char>
    decreases s.len(),
{
    if s.len() > 0 && is_white(s.last()) {
        trim_back(s.drop_last())
    } else {
        s
    }
}

/// `s` with white space removed from both ends.
pub open spec fn trim(s: Seq<char>) -> Seq<char> {
    trim_back(trim_front(s))
}

proof fn lemma_trim_front_at(s: Seq<char>, i: int)
    requires
        0 <= i <= s.len(),
        forall|j: int| 0 <= j < i ==> is_white(#[trigger] s[j]),
        i < s.len() ==> !is_white(s[i]),
    ensures
        trim_front(s) =~= s.skip(i),
    decreases i,
{
    if i == 0 {
        assert(s.skip(0) =~= s);
    } else {
        let t = s.drop_first();
        assert(forall|j: int| 0 <= j < i - 1 ==> is_white(#[trigger] t[j]));
        lemma_trim_front_at(t, i - 1);
        assert(t.skip(i - 1) =~= s.skip(i));
    }
}

proof fn lemma_trim_back_at(s: Seq<char>, i: int)
    requires
        0 <= i <= s.len(),
        forall|j: int| i <= j < s.len() ==> is_white(#[trigger] s[j]),
        i > 0 ==> !is_white(s[i - 1]),
    ensures
        trim_back(s) =~= s.take(i),
    decreases s.len() - i,
{
    if i == s.len() as int {
        assert(s.take(i) =~= s);
    } else {
        let t = s.drop_last();
        assert(is_white(s.last()));
        assert(forall|j: int| i <= j < t.len() ==> is_white(#[trigger] t[j]));
        lemma_trim_back_at(t, i);
        assert(t.take(i) =~= s.take(i));
    }
}

/// The digit part of a signed decimal literal: everything after an optional
/// leading sign.
pub open spec fn int_digits(s: Seq<char>) -> Seq<char> {
    if s.len() > 0 && (s[0] == '+' || s[0] == '-') {
        s.skip(1)
    } else {
        s
    }
}

/// The sign of a signed decimal literal.
pub open spec fn int_sign(s: Seq<char>) -> int {
    if s.len() > 0 && s[0] == '-' {
        -1
    } else {
        1
    }
}

/// The signed value of a decimal literal.
pub open spec fn int_value(s: Seq<char>) -> int {
    int_sign(s) * dec_value(int_digits(s))
}

/// Whether `s` is a decimal literal for a 32-bit signed integer: an optional
/// sign, at least one digit, and a value in range.
pub open spec fn is_int_literal(s: Seq<char>) -> bool {
    &&& int_digits(s).len() > 0
    &&& forall|j: int| 0 <= j < int_digits(s).len() ==> is_dec_digit(#[trigger] int_digits(s)[j])
    &&& i32::MIN <= int_value(s) <= i32::MAX
}

/// Parses a line of text as a 32-bit signed integer after stripping white
/// space from both ends, exactly when the stripped text is a decimal literal
/// in range.
pub fn parse_int_text(s: &str) -> (r: Option<i32>)
    ensures
        match r {
            Some(v) => is_int_literal(trim(s@)) && v as int == int_value(trim(s@)),
            None => !is_int_literal(trim(s@)),
        },
{
    let n = s.unicode_len();
    let mut lo: usize = 0;
    let mut scanning = true;
    while scanning
        invariant
            n == s@.len(),
            lo <= n,
            forall|j: int| 0 <= j < lo ==> is_white(#[trigger] s@[j]),
            !scanning ==> (lo == n || !is_white(s@[lo as int])),
        decreases n - lo + (if scanning {
            1int
        } else {
            0int
        }),
    {
        if lo < n {
            let c = s.get_char(lo);
            if is_white_exec(c) {
                lo = lo + 1;
            } else {
                scanning = false;
            }
        } else {
            scanning = false;
        }
    }
    let mut hi: usize = n;
    scanning = true;
    while scanning
        invariant
            n == s@.len(),
            lo <= hi <= n,
            forall|j: int| 0 <= j < lo ==> is_white(#[trigger] s@[j]),
            lo == n || !is_white(s@[lo as int]),
            forall|j: int| hi <= j < n ==> is_white(#[trigger] s@[j]),
            !scanning ==> (hi == lo || !is_white(s@[hi - 1])),
        decreases hi - lo + (if scanning {
            1int
        } else {
            0int
        }),
    {
        if hi > lo {
            let c = s.get_char(hi - 1);
            if is_white_exec(c) {
                hi = hi - 1;
            } else {
                scanning = false;
            }
        } else {
            scanning = false;
        }
    }
    proof {
        lemma_trim_front_at(s@, lo as int);
        if lo == hi {
            lemma_trim_back_at(s@.skip(lo as int), 0);
        } else {
            lemma_trim_back_at(s@.skip(lo as int), hi - lo);
        }
        assert(trim(s@) =~= s@.subrange(lo as int, hi as int));
    }
    let ghost t = s@.subrange(lo as int, hi as int);
    if lo == hi {
        return None;
    }
    let first = s.get_char(lo);
    let neg = first as u32 == 45;
    let dstart: usize = if first as u32 == 45 || first as u32 == 43 {
        lo + 1
    } else {
        lo
    };
    let ghost digits = s@.subrange(dstart as int, hi as int);
    proof {
        if dstart > lo {
            assert(int_digits(t) =~= digits);
        } else {
            assert(int_digits(t) =~= digits);
        }
    }
    if dstart == hi {
        return None;
    }
    let limit: u32 = if neg {
        2147483648
    } else {
        2147483647
    };
    let mut mag: u32 = 0;
    let mut k: usize = dstart;
    while k < hi
        invariant
            n == s@.len(),
            lo <= dstart <= k <= hi <= n,
            dstart < hi,
            t =~= trim(s@),
            t =~= s@.subrange(lo as int, hi as int),
            digits =~= s@.subrange(dstart as int, hi as int),
            digits =~= int_digits(t),
            neg == (t[0] == '-'),
            mag <= limit,
            limit == (if neg {
                2147483648u32
            } else {
                2147483647u32
            }),
            mag as int == dec_value(digits.take(k - dstart)),
            forall|j: int| dstart <= j < k ==> is_dec_digit(#[trigger] s@[j]),
        decreases hi - k,
    {
        let c = s.get_char(k);
        let cu = c as u32;
        if cu < 48 || cu > 57 {
            proof {
                assert(!is_dec_digit(digits[k - dstart]));
            }
            return None;
        }
        let d = cu - 48;
        proof {
            assert(digits.take(k + 1 - dstart).drop_last() =~= digits.take(k - dstart));
            assert(digits.take(k + 1 - dstart).last() == s@[k as int]);
        }
        if mag > limit / 10 || (mag == limit / 10 && d > limit % 10) {
            proof {
                let m = k + 1 - dstart;
                assert(dec_value(digits.take(m)) == 10 * (mag as int) + d);
                assert(dec_value(digits.take(m)) > limit);
                if forall|j: int| 0 <= j < digits.len() ==> is_dec_digit(#[trigger] digits[j]) {
                    lemma_dec_value_mono(digits, m);
                    assert(dec_value(digits) > limit);
                    if neg {
                        assert(int_value(t) < i32::MIN);
                    } else {
                        assert(int_value(t) > i32::MAX);
                    }
                }
            }
            return None;
        }
        mag = mag * 10 + d;
        k = k + 1;
    }
    proof {
        assert(digits.take(hi - dstart) =~= digits);
        assert(forall|j: int| 0 <= j < digits.len() ==> is_dec_digit(#[trigger] digits[j]));
        assert(mag as int == dec_value(digits));
    }
    if neg {
        if mag == 2147483648 {
            Some(i32::MIN)
        } else {
            Some(-(mag as i32))
        }
    } else {
        Some(mag as i32)
    }
}

} // verus!
