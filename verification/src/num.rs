//! Decimal integers in text: parsing with the acceptance rules of
//! `i32::from_str` (optional sign, decimal digits, range check) and
//! rendering with a minimum width of two, as the time formatter needs.

use vstd::prelude::*;

verus! {

pub open spec fn is_digit(c: char) -> bool {
    48 <= c as u32 <= 57
}

pub open spec fn digit_val(c: char) -> int {
    c as u32 - 48
}

pub open spec fn all_digits(s: Seq<char>) -> bool {
    forall|k: int| 0 <= k < s.len() ==> is_digit(s[k])
}

/// The value of a string of decimal digits, most significant first.
pub open spec fn digits_val(s: Seq<char>) -> int
    decreases s.len(),
{
    if s.len() == 0 {
        0
    } else {
        digits_val(s.drop_last()) * 10 + digit_val(s.last())
    }
}

/// What `i32::from_str` returns: an optional sign, then at least one
/// decimal digit, and the value must fit in `i32`.
pub open spec fn parse_int(s: Seq<char>) -> Option<i32> {
    let signed = s.len() > 0 && (s[0] == '-' || s[0] == '+');
    let neg = s.len() > 0 && s[0] == '-';
    let body = if signed {
        s.skip(1)
    } else {
        s
    };
    if body.len() == 0 || !all_digits(body) {
        None
    } else if neg {
        if digits_val(body) <= 0x8000_0000 {
            Some((-digits_val(body)) as i32)
        } else {
            None
        }
    } else {
        if digits_val(body) <= 0x7FFF_FFFF {
            Some(digits_val(body) as i32)
        } else {
            None
        }
    }
}

proof fn lemma_digits_val_nonneg(s: Seq<char>)
    requires
        all_digits(s),
    ensures
        digits_val(s) >= 0,
    decreases s.len(),
{
    if s.len() > 0 {
        assert(is_digit(s.last()));
        lemma_digits_val_nonneg(s.drop_last());
    }
}

/// A digit string is worth at least any of its prefixes.
proof fn lemma_digits_val_prefix(s: Seq<char>, k: int)
    requires
        all_digits(s),
        0 <= k <= s.len(),
    ensures
        digits_val(s.take(k)) <= digits_val(s),
    decreases s.len() - k,
{
    if k < s.len() {
        lemma_digits_val_prefix(s, k + 1);
        assert(s.take(k + 1).drop_last() =~= s.take(k));
        assert(all_digits(s.take(k + 1)));
        assert(all_digits(s.take(k)));
        lemma_digits_val_nonneg(s.take(k));
        assert(is_digit(s.take(k + 1).last()));
    } else {
        assert(s.take(k) =~= s);
    }
}

/// Executable counterpart of [`parse_int`].
pub fn parse_int_str(s: &str) -> (r: Option<i32>)
    ensures
        r == parse_int(s@),
{
    let n: usize = s.unicode_len();
    if n == 0 {
        return None;
    }
    let c0: char = s.get_char(0);
    let neg: bool = c0 == '-';
    let signed: bool = neg || c0 == '+';
    let start: usize = if signed {
        1
    } else {
        0
    };
    let ghost body = if signed {
        s@.skip(1)
    } else {
        s@
    };
    if start == n {
        return None;
    }
    let mut acc: u64 = 0;
    let mut i: usize = start;
    proof {
        assert(body.take(0) =~= Seq::<char>::empty());
        assert(body =~= s@.subrange(start as int, n as int));
    }
    while i < n
        invariant
            start <= i <= n,
            n == s@.len(),
            n >= 1,
            signed == (s@[0] == '-' || s@[0] == '+'),
            neg == (s@[0] == '-'),
            start == if signed {
                1int
            } else {
                0int
            },
            body == if signed {
                s@.skip(1)
            } else {
                s@
            },
            body.len() == n - start,
            body == s@.subrange(start as int, n as int),
            all_digits(body.take(i - start)),
            acc == digits_val(body.take(i - start)),
            acc <= 0x8000_0000,
        decreases n - i,
    {
        let c: char = s.get_char(i);
        let cv: u32 = c as u32;
        if cv < 48 || cv > 57 {
            proof {
                assert(body[i - start] == s@[i as int]);
                assert(!is_digit(body[i - start]));
                assert(!all_digits(body));
            }
            return None;
        }
        let d: u64 = (cv - 48) as u64;
        proof {
            assert(body.take(i - start + 1).drop_last() =~= body.take(i - start));
            assert(body.take(i - start + 1).last() == body[i - start]);
            assert(body[i - start] == s@[i as int]);
        }
        acc = acc * 10 + d;
        i = i + 1;
        if acc > 0x8000_0000 {
            // Digits can only grow the value, so whatever follows, the
            // string is either malformed or out of range: both are None.
            if all_digits_from(s, i) {
                proof {
                    assert forall|k: int| 0 <= k < body.len() implies is_digit(
                        body[k],
                    ) by {
                        if k < i - start {
                            assert(body.take(i - start)[k] == body[k]);
                            assert(is_digit(body.take(i - start)[k]));
                        } else {
                            assert(body[k] == s@[k + start]);
                            assert(is_digit(s@[k + start]));
                        }
                    }
                    assert(all_digits(body));
                    lemma_digits_val_prefix(body, i - start);
                }
                return None;
            } else {
                proof {
                    assert(exists|k: int| i <= k < n && !is_digit(s@[k]));
                    let k = choose|k: int| i <= k < n && !is_digit(s@[k]);
                    assert(body[k - start] == s@[k]);
                    assert(!is_digit(body[k - start]));
                }
                return None;
            }
        }
    }
    proof {
        assert(body.take(n - start) =~= body);
        lemma_digits_val_nonneg(body);
    }
    if neg {
        Some((0i64 - acc as i64) as i32)
    } else {
        if acc <= 0x7FFF_FFFF {
            Some(acc as i32)
        } else {
            None
        }
    }
}

/// Whether every character of `s` from position `i` on is a decimal digit.
fn all_digits_from(s: &str, i: usize) -> (r: bool)
    requires
        i <= s@.len(),
    ensures
        r == forall|k: int| i <= k < s@.len() ==> is_digit(s@[k]),
{
    let n: usize = s.unicode_len();
    let mut j: usize = i;
    while j < n
        invariant
            i <= j <= n,
            n == s@.len(),
            forall|k: int| i <= k < j ==> is_digit(s@[k]),
        decreases n - j,
    {
        let cv: u32 = s.get_char(j) as u32;
        if cv < 48 || cv > 57 {
            assert(!is_digit(s@[j as int]));
            return false;
        }
        j = j + 1;
    }
    true
}

/// The digit character for a value in 0..=9.
pub open spec fn digit_char(d: int) -> char {
    if d == 0 {
        '0'
    } else if d == 1 {
        '1'
    } else if d == 2 {
        '2'
    } else if d == 3 {
        '3'
    } else if d == 4 {
        '4'
    } else if d == 5 {
        '5'
    } else if d == 6 {
        '6'
    } else if d == 7 {
        '7'
    } else if d == 8 {
        '8'
    } else {
        '9'
    }
}

/// The decimal rendering of a non-negative value, no padding.
pub open spec fn dec_digits(n: int) -> Seq<char>
    decreases n,
{
    if n < 10 {
        seq![digit_char(n)]
    } else {
        dec_digits(n / 10).push(digit_char(n % 10))
    }
}

/// What `format!("{:02}", n)` produces: decimal rendering, zero-padded
/// on the left to at least two characters, a sign first when negative.
pub open spec fn fmt2(n: int) -> Seq<char> {
    if n < 0 {
        seq!['-'] + dec_digits(-n)
    } else if n < 10 {
        seq!['0'] + dec_digits(n)
    } else {
        dec_digits(n)
    }
}

fn digit_str(d: u64) -> (r: &'static str)
    requires
        d < 10,
    ensures
        r@ == seq![digit_char(d as int)],
{
    let r: &'static str = if d == 0 {
        "0"
    } else if d == 1 {
        "1"
    } else if d == 2 {
        "2"
    } else if d == 3 {
        "3"
    } else if d == 4 {
        "4"
    } else if d == 5 {
        "5"
    } else if d == 6 {
        "6"
    } else if d == 7 {
        "7"
    } else if d == 8 {
        "8"
    } else {
        "9"
    };
    proof {
        reveal_strlit("0");
        reveal_strlit("1");
        reveal_strlit("2");
        reveal_strlit("3");
        reveal_strlit("4");
        reveal_strlit("5");
        reveal_strlit("6");
        reveal_strlit("7");
        reveal_strlit("8");
        reveal_strlit("9");
        assert(r@ =~= seq![digit_char(d as int)]);
    }
    r
}

fn dec_digits_u64(n: u64) -> (r: String)
    ensures
        r@ == dec_digits(n as int),
    decreases n,
{
    if n < 10 {
        String::from_str(digit_str(n))
    } else {
        let mut r = dec_digits_u64(n / 10);
        let ghost prefix = r@;
        r.append(digit_str(n % 10));
        proof {
            assert(r@ =~= prefix.push(digit_char((n % 10) as int)));
        }
        r
    }
}

/// Executable counterpart of [`fmt2`].
pub fn fmt2_i64(n: i64) -> (r: String)
    requires
        n > i64::MIN,
    ensures
        r@ == fmt2(n as int),
{
    if n < 0 {
        let mut r = String::from_str("-");
        proof {
            reveal_strlit("-");
            assert(r@ =~= seq!['-']);
        }
        let ghost prefix = r@;
        let digits = dec_digits_u64((-n) as u64);
        r.append(digits.as_str());
        r
    } else if n < 10 {
        let mut r = String::from_str("0");
        proof {
            reveal_strlit("0");
            assert(r@ =~= seq!['0']);
        }
        let digits = dec_digits_u64(n as u64);
        r.append(digits.as_str());
        r
    } else {
        dec_digits_u64(n as u64)
    }
}

} // verus!
