//! Decimal numbers as character sequences: parsing with a default, and
//! rendering, both pinned to exact specifications.

use vstd::prelude::*;

verus! {

/// Is `c` a decimal digit?
pub open spec fn is_digit(c: char) -> bool {
    '0' <= c && c <= '9'
}

/// The numeric value of a digit.
pub open spec fn digit_val(c: char) -> int {
    c as int - '0' as int
}

/// Does `s` consist of digits only?
pub open spec fn all_digits(s: Seq<char>) -> bool {
    forall|i: int| 0 <= i < s.len() ==> is_digit(s[i])
}

/// The value of a digit string, most significant first.
pub open spec fn digits_val(s: Seq<char>) -> int
    decreases s.len(),
{
    if s.len() == 0 {
        0
    } else {
        digits_val(s.drop_last()) * 10 + digit_val(s.last())
    }
}

/// What `str::parse::<i32>` accepts and returns: an optional sign followed
/// by at least one digit, in range.
pub open spec fn parse_i32_of(s: Seq<char>) -> Option<int> {
    if s.len() >= 2 && s[0] == '-' && all_digits(s.skip(1)) && -digits_val(s.skip(1))
        >= i32::MIN {
        Some(-digits_val(s.skip(1)))
    } else if s.len() >= 2 && s[0] == '+' && all_digits(s.skip(1)) && digits_val(s.skip(1))
        <= i32::MAX {
        Some(digits_val(s.skip(1)))
    } else if s.len() >= 1 && s[0] != '-' && s[0] != '+' && all_digits(s) && digits_val(s)
        <= i32::MAX {
        Some(digits_val(s))
    } else {
        None
    }
}

/// What `str::parse::<usize>` accepts and returns, without sign support
/// beyond an optional `+`.
pub open spec fn parse_usize_of(s: Seq<char>) -> Option<int> {
    if s.len() >= 2 && s[0] == '+' && all_digits(s.skip(1)) && digits_val(s.skip(1))
        <= usize::MAX {
        Some(digits_val(s.skip(1)))
    } else if s.len() >= 1 && s[0] != '-' && s[0] != '+' && all_digits(s) && digits_val(s)
        <= usize::MAX {
        Some(digits_val(s))
    } else {
        None
    }
}

/// A digit string's value only grows as digits are appended.
proof fn lemma_digits_val_nonneg(s: Seq<char>)
    requires
        all_digits(s),
    ensures
        digits_val(s) >= 0,
    decreases s.len(),
{
    if s.len() > 0 {
        assert(is_digit(s.last()));
        lemma_digits_val_nonneg(s.drop_last());
    }
}

/// Evaluating one more digit multiplies by ten and adds it.
proof fn lemma_digits_val_take_step(s: Seq<char>, k: int)
    requires
        0 <= k < s.len(),
    ensures
        digits_val(s.take(k + 1)) == digits_val(s.take(k)) * 10 + digit_val(s[k]),
{
    assert(s.take(k + 1).drop_last() =~= s.take(k));
    assert(s.take(k + 1).last() == s[k]);
}

/// The digits of a value, most significant first.
pub open spec fn dec_digits(n: int) -> Seq<char>
    decreases n,
{
    if n <= 0 {
        seq!['0']
    } else if n < 10 {
        seq![digit_chr(n)]
    } else {
        dec_digits(n / 10) + seq![digit_chr(n % 10)]
    }
}

/// The digit character for a value in `0..10`.
pub open spec fn digit_chr(d: int) -> char {
    if d == 0 {
        '0'
    } else if d == 1 {
        '1'
    } else if d == 2 {
        '2'
    } else if d == 3 {
        '3'
    } else if d == 4 {
        '4'
    } else if d == 5 {
        '5'
    } else if d == 6 {
        '6'
    } else if d == 7 {
        '7'
    } else if d == 8 {
        '8'
    } else {
        '9'
    }
}

/// A value rendered in decimal, with a leading `-` when negative.
pub open spec fn dec_of(n: int) -> Seq<char> {
    if n < 0 {
        seq!['-'] + dec_digits(-n)
    } else {
        dec_digits(n)
    }
}

/// Parse a digit vector as an `i32`, as `str::parse::<i32>` would.
pub fn parse_i32_chars(s: &Vec<char>) -> (r: Option<i32>)
    ensures
        match r {
            Some(v) => parse_i32_of(s@) == Some(v as int),
            None => parse_i32_of(s@) is None,
        },
{
    let slen: usize = s.len();
    if slen == 0 {
        return None;
    }
    let neg = s[0] == '-';
    let signed = neg || s[0] == '+';
    let start: usize = if signed {
        1
    } else {
        0
    };
    if slen == start {
        return None;
    }
    let ghost body = if signed {
        s@.skip(1)
    } else {
        s@
    };
    let mut acc: i64 = 0;
    let mut i: usize = start;
    while i < slen
        invariant
            start <= i <= slen,
            1 <= slen == s@.len(),
            start < slen,
            neg == (s@[0] == '-'),
            signed == (neg || s@[0] == '+'),
            start == if signed {
                1int
            } else {
                0int
            },
            body == if signed {
                s@.skip(1)
            } else {
                s@
            },
            all_digits(body.take(i - start)),
            acc == digits_val(body.take(i - start)),
            0 <= acc <= i32::MAX as i64 + 1,
        decreases slen - i,
    {
        let c = s[i];
        if c < '0' || c > '9' {
            proof {
                assert(body[i - start] == s@[i as int]);
                assert(!is_digit(body[i - start]));
                assert(!all_digits(body));
            }
            return None;
        }
        let d: i64 = (c as u32 as i64) - ('0' as u32 as i64);
        proof {
            assert(body[i - start] == s@[i as int]);
            assert(is_digit(s@[i as int]));
            assert(0 <= d <= 9);
        }
        let next: i64 = acc * 10 + d;
        proof {
            lemma_digits_val_take_step(body, i - start);
        }
        if next > i32::MAX as i64 + 1 {
            proof {
                assert(digits_val(body.take(i + 1 - start)) == next);
                if all_digits(body) {
                    lemma_digits_val_grows(body, i + 1 - start);
                }
            }
            return None;
        }
        acc = next;
        i += 1;
    }
    proof {
        assert(body.take(slen - start) =~= body);
    }
    if neg {
        let v: i64 = -acc;
        if v < i32::MIN as i64 {
            return None;
        }
        Some(v as i32)
    } else {
        if acc > i32::MAX as i64 {
            return None;
        }
        Some(acc as i32)
    }
}

/// A digit string's value is at least the value of any of its prefixes.
proof fn lemma_digits_val_grows(s: Seq<char>, k: int)
    requires
        0 <= k <= s.len(),
        all_digits(s),
    ensures
        digits_val(s) >= digits_val(s.take(k)),
        digits_val(s.take(k)) >= 0,
    decreases s.len() - k,
{
    assert(all_digits(s.take(k)));
    lemma_digits_val_nonneg(s.take(k));
    if k < s.len() {
        lemma_digits_val_take_step(s, k);
        lemma_digits_val_grows(s, k + 1);
        assert(digits_val(s.take(k + 1)) >= digits_val(s.take(k)));
    } else {
        assert(s.take(k) =~= s);
    }
}

/// Parse a digit vector as a `usize`, as `str::parse::<usize>` would.
pub fn parse_usize_chars(s: &Vec<char>) -> (r: Option<usize>)
    ensures
        match r {
            Some(v) => parse_usize_of(s@) == Some(v as int),
            None => parse_usize_of(s@) is None,
        },
{
    let slen: usize = s.len();
    if slen == 0 {
        return None;
    }
    if s[0] == '-' {
        return None;
    }
    let signed = s[0] == '+';
    let start: usize = if signed {
        1
    } else {
        0
    };
    if slen == start {
        return None;
    }
    let ghost body = if signed {
        s@.skip(1)
    } else {
        s@
    };
    let mut acc: usize = 0;
    let mut i: usize = start;
    while i < slen
        invariant
            start <= i <= slen,
            1 <= slen == s@.len(),
            start < slen,
            s@[0] != '-',
            signed == (s@[0] == '+'),
            start == if signed {
                1int
            } else {
                0int
            },
            body == if signed {
                s@.skip(1)
            } else {
                s@
            },
            all_digits(body.take(i - start)),
            acc == digits_val(body.take(i - start)),
        decreases slen - i,
    {
        let c = s[i];
        if c < '0' || c > '9' {
            proof {
                assert(body[i - start] == s@[i as int]);
                assert(!is_digit(body[i - start]));
                assert(!all_digits(body));
            }
            return None;
        }
        let d: u32 = (c as u32) - ('0' as u32);
        proof {
            assert(body[i - start] == s@[i as int]);
            assert(is_digit(s@[i as int]));
            assert(0 <= d <= 9);
        }
        proof {
            lemma_digits_val_take_step(body, i - start);
        }
        if acc > (usize::MAX - d as usize) / 10 {
            proof {
                if all_digits(body) {
                    lemma_digits_val_grows(body, i + 1 - start);
                }
                assert(digits_val(body.take(i + 1 - start)) == acc * 10 + d);
                assert(acc * 10 + d > usize::MAX) by (nonlinear_arith)
                    requires
                        acc > (usize::MAX - d as usize) / 10,
                        0 <= d <= 9,
                        acc >= 0,
                ;
            }
            return None;
        }
        proof {
            assert(acc * 10 + d <= usize::MAX) by (nonlinear_arith)
                requires
                    acc <= (usize::MAX - d as usize) / 10,
                    0 <= d <= 9,
                    acc >= 0,
            ;
        }
        acc = acc * 10 + (d as usize);
        i += 1;
    }
    proof {
        assert(body.take(slen - start) =~= body);
    }
    Some(acc)
}

/// Render a value in decimal.
pub fn dec_i32(n: i32) -> (r: Vec<char>)
    ensures
        r@ == dec_of(n as int),
{
    if n < 0 {
        let mut r: Vec<char> = Vec::new();
        r.push('-');
        let mag: u64 = (-(n as i64)) as u64;
        let digits = dec_u64(mag);
        crate::text::extend_chars(&mut r, &digits);
        proof {
            assert(r@ =~= seq!['-'] + dec_digits(-(n as int)));
        }
        r
    } else {
        dec_u64(n as u64)
    }
}

/// Render an unsigned value in decimal.
pub fn dec_u64(n: u64) -> (r: Vec<char>)
    ensures
        r@ == dec_digits(n as int),
    decreases n,
{
    if n < 10 {
        let c = digit_char(n as u8);
        let mut r: Vec<char> = Vec::new();
        r.push(c);
        proof {
            assert(r@ =~= seq![digit_chr(n as int)]);
        }
        r
    } else {
        let mut r = dec_u64(n / 10);
        r.push(digit_char((n % 10) as u8));
        proof {
            assert(r@ =~= dec_digits(n as int / 10) + seq![digit_chr(n as int % 10)]);
        }
        r
    }
}

/// The digit character for a value in `0..10`.
fn digit_char(d: u8) -> (c: char)
    requires
        d < 10,
    ensures
        c == digit_chr(d as int),
{
    if d == 0 {
        '0'
    } else if d == 1 {
        '1'
    } else if d == 2 {
        '2'
    } else if d == 3 {
        '3'
    } else if d == 4 {
        '4'
    } else if d == 5 {
        '5'
    } else if d == 6 {
        '6'
    } else if d == 7 {
        '7'
    } else if d == 8 {
        '8'
    } else {
        '9'
    }
}

} // verus!
