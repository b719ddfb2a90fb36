//! Decimal text of integers, as RESP and command arguments write them.
use vstd::prelude::*;

verus! {

pub open spec fn is_digit(b: u8) -> bool {
    48 <= b <= 57
}

pub open spec fn all_digits(s: Seq<u8>) -> bool {
    forall|i: int| 0 <= i < s.len() ==> is_digit(#[trigger] s[i])
}

/// The number that a string of decimal digits denotes (most significant first).
pub open spec fn digits_value(s: Seq<u8>) -> nat
    decreases s.len(),
{
    if s.len() == 0 {
        0
    } else {
        digits_value(s.drop_last()) * 10 + (s.last() - 48) as nat
    }
}

/// The integer that Rust's `i64` parser reads from `text`: an optional `+` or
/// `-`, then at least one decimal digit, and a value that fits in `i64`.
pub open spec fn parse_i64_spec(text: Seq<u8>) -> Option<i64> {
    if text.len() > 0 && (text[0] == 45 || text[0] == 43) {
        let d = text.drop_first();
        if d.len() > 0 && all_digits(d) {
            if text[0] == 45 {
                if digits_value(d) <= 0x8000_0000_0000_0000 {
                    Some((0 - digits_value(d)) as i64)
                } else {
                    None
                }
            } else if digits_value(d) <= i64::MAX {
                Some(digits_value(d) as i64)
            } else {
                None
            }
        } else {
            None
        }
    } else if text.len() > 0 && all_digits(text) && digits_value(text) <= i64::MAX {
        Some(digits_value(text) as i64)
    } else {
        None
    }
}

/// The shortest decimal digits of `n`.
pub open spec fn nat_digits(n: nat) -> Seq<u8>
    decreases n,
{
    if n < 10 {
        seq![(n + 48) as u8]
    } else {
        nat_digits(n / 10).push((n % 10 + 48) as u8)
    }
}

/// The decimal text of `n`, with a leading `-` when it is negative.
pub open spec fn int_text(n: int) -> Seq<u8> {
    if n < 0 {
        seq![45u8] + nat_digits((0 - n) as nat)
    } else {
        nat_digits(n as nat)
    }
}

pub proof fn lemma_nat_digits(n: nat)
    ensures
        nat_digits(n).len() > 0,
        all_digits(nat_digits(n)),
        digits_value(nat_digits(n)) == n,
    decreases n,
{
    if n >= 10 {
        lemma_nat_digits(n / 10);
        assert(n == (n / 10) * 10 + n % 10);
        let d = nat_digits(n);
        assert(d.drop_last() =~= nat_digits(n / 10));
        assert forall|i: int| 0 <= i < d.len() implies is_digit(#[trigger] d[i]) by {
            if i < d.len() - 1 {
                assert(d[i] == nat_digits(n / 10)[i]);
            }
        }
        assert(d.last() == (n % 10 + 48) as u8);
        assert(digits_value(d) == digits_value(nat_digits(n / 10)) * 10 + (n % 10) as nat);
    } else {
        let d = nat_digits(n);
        assert(d.drop_last() =~= Seq::<u8>::empty());
        assert(digits_value(d) == digits_value(d.drop_last()) * 10 + (d.last() - 48) as nat);
    }
}

/// Reading back the decimal text of an `i64` gives the same number.
pub proof fn lemma_parse_int_text(n: i64)
    ensures
        parse_i64_spec(int_text(n as int)) == Some(n),
{
    if n < 0 {
        let m = (0 - n) as nat;
        lemma_nat_digits(m);
        let t = int_text(n as int);
        assert(t.drop_first() =~= nat_digits(m));
    } else {
        lemma_nat_digits(n as nat);
        let d = nat_digits(n as nat);
        assert(is_digit(d[0]));
    }
}

/// A longer string of digits denotes at least as much as its prefix.
pub proof fn lemma_digits_value_prefix(s: Seq<u8>, k: int)
    requires
        0 <= k <= s.len(),
    ensures
        digits_value(s.subrange(0, k)) <= digits_value(s),
    decreases s.len() - k,
{
    if k < s.len() {
        lemma_digits_value_prefix(s, k + 1);
        assert(s.subrange(0, k + 1).drop_last() =~= s.subrange(0, k));
    } else {
        assert(s.subrange(0, k) =~= s);
    }
}

/// Parses the text of an `i64` as Rust's `str::parse::<i64>` does.
pub fn parse_i64(text: &[u8]) -> (r: Option<i64>)
    ensures
        r == parse_i64_spec(text@),
{
    let n = text.len();
    if n == 0 {
        return None;
    }
    let signed = text[0] == 45u8 || text[0] == 43u8;
    let negative = text[0] == 45u8;
    let start: usize = if signed { 1 } else { 0 };
    if start == n {
        return None;
    }
    let ghost digits = text@.subrange(start as int, n as int);
    let mut acc: u128 = 0;
    let mut i: usize = start;
    while i < n
        invariant
            start <= i <= n,
            n == text@.len(),
            start < n,
            start == (if signed { 1usize } else { 0usize }),
            signed == (text@[0] == 45 || text@[0] == 43),
            negative == (text@[0] == 45),
            digits == text@.subrange(start as int, n as int),
            all_digits(digits.subrange(0, i - start)),
            acc == digits_value(digits.subrange(0, i - start)),
            acc <= 0x8000_0000_0000_0000,
        decreases n - i,
    {
        let b = text[i];
        if b < 48 || b > 57 {
            proof {
                assert(digits[i - start] == b);
                assert(!all_digits(digits));
                if signed {
                    assert(text@.drop_first() =~= digits);
                } else {
                    assert(text@ =~= digits);
                }
            }
            return None;
        }
        let next: u128 = acc * 10 + (b - 48) as u128;
        proof {
            let pre = digits.subrange(0, i - start);
            let post = digits.subrange(0, i + 1 - start);
            assert(post.drop_last() =~= pre);
            assert(all_digits(post)) by {
                assert forall|j: int| 0 <= j < post.len() implies is_digit(#[trigger] post[j]) by {
                    if j < pre.len() {
                        assert(post[j] == pre[j]);
                    }
                }
            }
        }
        if next > 0x8000_0000_0000_0000 {
            proof {
                lemma_digits_value_prefix(digits, i + 1 - start);
                if signed {
                    assert(text@.drop_first() =~= digits);
                } else {
                    assert(text@ =~= digits);
                }
            }
            return None;
        }
        acc = next;
        i = i + 1;
    }
    proof {
        assert(digits.subrange(0, n - start) =~= digits);
        if signed {
            assert(text@.drop_first() =~= digits);
        } else {
            assert(text@ =~= digits);
        }
    }
    if negative {
        if acc == 0x8000_0000_0000_0000 {
            Some(i64::MIN)
        } else {
            Some(-(acc as i64))
        }
    } else if acc > 0x7FFF_FFFF_FFFF_FFFF {
        None
    } else {
        Some(acc as i64)
    }
}

/// Appends the decimal digits of `n`.
pub fn push_nat_digits(n: u64, out: &mut Vec<u8>)
    ensures
        final(out)@ == old(out)@ + nat_digits(n as nat),
    decreases n,
{
    if n >= 10 {
        push_nat_digits(n / 10, out);
    }
    out.push((n % 10) as u8 + 48);
    proof {
        if n >= 10 {
            assert(nat_digits(n as nat) == nat_digits((n / 10) as nat).push((n % 10 + 48) as u8));
        }
    }
}

/// Appends the decimal text of `n`.
pub fn push_int_text(n: i64, out: &mut Vec<u8>)
    ensures
        final(out)@ == old(out)@ + int_text(n as int),
{
    if n < 0 {
        out.push(45u8);
        let m: u64 = if n == i64::MIN {
            0x8000_0000_0000_0000
        } else {
            (-n) as u64
        };
        push_nat_digits(m, out);
    } else {
        push_nat_digits(n as u64, out);
    }
}


/// The number that Rust's parsers of unsigned integers read from `text`: an
/// optional `+`, then at least one decimal digit (the caller then checks
/// that the number fits its type).
pub open spec fn parse_unsigned_spec(text: Seq<u8>) -> Option<nat> {
    let d = if text.len() > 0 && text[0] == 43 {
        text.drop_first()
    } else {
        text
    };
    if d.len() > 0 && all_digits(d) {
        Some(digits_value(d))
    } else {
        None
    }
}

/// Parses the text of an unsigned integer that fits in `u128`.
pub fn parse_u128(text: &[u8]) -> (r: Option<u128>)
    ensures
        match parse_unsigned_spec(text@) {
            Some(v) => if v <= u128::MAX {
                r == Some(v as u128)
            } else {
                r is None
            },
            None => r is None,
        },
{
    let n = text.len();
    let start: usize = if n > 0 && text[0] == 43u8 {
        1
    } else {
        0
    };
    if start == n {
        return None;
    }
    let ghost digits = text@.subrange(start as int, n as int);
    proof {
        if start == 1 {
            assert(text@.drop_first() =~= digits);
        } else {
            assert(text@ =~= digits);
        }
    }
    let mut acc: u128 = 0;
    let mut i: usize = start;
    while i < n
        invariant
            start <= i <= n,
            n == text@.len(),
            start < n,
            digits == text@.subrange(start as int, n as int),
            parse_unsigned_spec(text@) == (if all_digits(digits) {
                Some(digits_value(digits))
            } else {
                None::<nat>
            }),
            all_digits(digits.subrange(0, i - start)),
            acc == digits_value(digits.subrange(0, i - start)),
        decreases n - i,
    {
        let b = text[i];
        if b < 48 || b > 57 {
            proof {
                assert(digits[i - start] == b);
            }
            return None;
        }
        let d = (b - 48) as u128;
        proof {
            let pre = digits.subrange(0, i - start);
            let post = digits.subrange(0, i + 1 - start);
            assert(post.drop_last() =~= pre);
            assert(all_digits(post)) by {
                assert forall|j: int| 0 <= j < post.len() implies is_digit(#[trigger] post[j]) by {
                    if j < pre.len() {
                        assert(post[j] == pre[j]);
                    }
                }
            }
        }
        if acc > (0xFFFF_FFFF_FFFF_FFFF_FFFF_FFFF_FFFF_FFFFu128 - d) / 10 {
            proof {
                lemma_digits_value_prefix(digits, i + 1 - start);
                if all_digits(digits) {
                    assert(digits_value(digits) >= digits_value(digits.subrange(0, i + 1 - start)));
                }
            }
            return None;
        }
        acc = acc * 10 + d;
        i = i + 1;
    }
    proof {
        assert(digits.subrange(0, n - start) =~= digits);
    }
    Some(acc)
}
} // verus!
