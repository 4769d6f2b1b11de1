use vstd::prelude::*;

use crate::grammar::{
    all_digits, dec_val, fmt_i64, fmt_nat, is_digit, lemma_fmt_nat_digits, spec_parse_i64,
    spec_parse_usize,
};

verus! {

broadcast use vstd::seq::group_seq_axioms;

/// `dec_val` grows by one digit at a time.
proof fn lemma_dec_val_step(t: Seq<u8>, i: int)
    requires
        0 <= i < t.len(),
        0x30 <= t[i],
    ensures
        dec_val(t.take(i + 1)) == dec_val(t.take(i)) * 10 + (t[i] - 0x30),
{
    assert(t.take(i + 1).drop_last() =~= t.take(i));
    assert(t.take(i + 1).last() == t[i]);
    assert(t.take(i + 1).len() > 0);
    assert(dec_val(t.take(i + 1)) == (dec_val(t.take(i + 1).drop_last()) * 10 + (t.take(i + 1).last()
        - 0x30)) as nat);
}

/// Parses the digits of `s` after `start`: the whole remainder must be at
/// least one digit; a value beyond `u64::MAX` is reported as `None` as well.
fn parse_digits(s: &[u8], start: usize) -> (r: Option<u64>)
    requires
        start <= s@.len(),
    ensures
        match r {
            Some(v) => {
                let t = s@.skip(start as int);
                t.len() > 0 && all_digits(t) && dec_val(t) == v
            },
            None => {
                let t = s@.skip(start as int);
                !(t.len() > 0 && all_digits(t)) || dec_val(t) > u64::MAX
            },
        },
{
    let ghost t = s@.skip(start as int);
    let n = s.len();
    if start >= n {
        return None;
    }
    let mut acc: u64 = 0;
    let mut over: bool = false;
    let mut i: usize = start;
    while i < n
        invariant
            start <= i <= n,
            n == s@.len(),
            t == s@.skip(start as int),
            all_digits(t.take(i - start)),
            !over ==> acc == dec_val(t.take(i - start)),
            over ==> dec_val(t.take(i - start)) > u64::MAX,
        decreases n - i,
    {
        let b = s[i];
        if b < 0x30 || b > 0x39 {
            proof {
                assert(t[i - start] == s@[i as int]);
                assert(!is_digit(t[i - start]));
            }
            return None;
        }
        proof {
            assert(t[i - start] == s@[i as int]);
            lemma_dec_val_step(t, i - start);
        }
        let d: u64 = (b - 0x30) as u64;
        if over {
            proof {
                assert(dec_val(t.take(i - start + 1)) == dec_val(t.take(i - start)) * 10 + (t[i
                    - start] - 0x30));
                assert(dec_val(t.take(i - start)) * 10 > u64::MAX) by (nonlinear_arith)
                    requires
                        dec_val(t.take(i - start)) > u64::MAX,
                ;
            }
        } else if acc > (u64::MAX - d) / 10 {
            over = true;
            proof {
                assert(acc * 10 + d > u64::MAX) by (nonlinear_arith)
                    requires
                        acc > (u64::MAX - d) / 10,
                        d < 10,
                ;
            }
        } else {
            proof {
                assert(acc * 10 + d <= u64::MAX) by (nonlinear_arith)
                    requires
                        acc <= (u64::MAX - d) / 10,
                        d < 10,
                ;
            }
            acc = acc * 10 + d;
        }
        i = i + 1;
    }
    proof {
        assert(t.take(i - start) =~= t);
    }
    if over {
        None
    } else {
        Some(acc)
    }
}

/// Parses an unsigned decimal field (an optional `+`, then digits) into a
/// `usize`, exactly as the grammar's count and length fields read.
pub fn parse_usize(s: &[u8]) -> (r: Option<usize>)
    ensures
        r == spec_parse_usize(s@),
{
    let n = s.len();
    let start: usize = if n > 0 && s[0] == 0x2b {
        1
    } else {
        0
    };
    proof {
        if start == 0 {
            assert(s@.skip(0) =~= s@);
        }
    }
    match parse_digits(s, start) {
        Some(v) => {
            if v <= usize::MAX as u64 {
                Some(v as usize)
            } else {
                None
            }
        },
        None => None,
    }
}

/// Parses a signed decimal field (an optional `+` or `-`, then digits) into
/// an `i64`, exactly as the grammar's integer fields read.
pub fn parse_i64(s: &[u8]) -> (r: Option<i64>)
    ensures
        r == spec_parse_i64(s@),
{
    let n = s.len();
    let neg = n > 0 && s[0] == 0x2d;
    let start: usize = if n > 0 && (s[0] == 0x2b || s[0] == 0x2d) {
        1
    } else {
        0
    };
    proof {
        if start == 0 {
            assert(s@.skip(0) =~= s@);
        }
    }
    match parse_digits(s, start) {
        Some(v) => {
            if neg {
                if v <= 0x8000000000000000u64 {
                    if v == 0x8000000000000000u64 {
                        Some(i64::MIN)
                    } else {
                        Some(-(v as i64))
                    }
                } else {
                    None
                }
            } else {
                if v <= i64::MAX as u64 {
                    Some(v as i64)
                } else {
                    None
                }
            }
        },
        None => None,
    }
}

/// Appends the decimal digits of `n`, most significant first.
pub fn push_decimal_u64(n: u64, out: &mut Vec<u8>)
    ensures
        final(out)@ == old(out)@ + fmt_nat(n as nat),
    decreases n,
{
    if n < 10 {
        out.push((0x30 + n) as u8);
    } else {
        push_decimal_u64(n / 10, out);
        out.push((0x30 + n % 10) as u8);
    }
    proof {
        if n < 10 {
            assert(final(out)@ =~= old(out)@ + fmt_nat(n as nat));
        } else {
            assert(final(out)@ =~= old(out)@ + (fmt_nat((n / 10) as nat) + seq![
                (0x30 + n % 10) as u8,
            ]));
        }
    }
}

/// Appends the decimal form of `i`, with a leading `-` when negative.
pub fn push_decimal_i64(i: i64, out: &mut Vec<u8>)
    ensures
        final(out)@ == old(out)@ + fmt_i64(i),
{
    if i < 0 {
        out.push(0x2d);
        let mag: u64 = if i == i64::MIN {
            0x8000000000000000u64
        } else {
            (-i) as u64
        };
        push_decimal_u64(mag, out);
        proof {
            assert(final(out)@ =~= old(out)@ + (seq![0x2du8] + fmt_nat((-(i as int)) as nat)));
        }
    } else {
        push_decimal_u64(i as u64, out);
    }
}

} // verus!

use crate::grammar::{is_float_lit, is_special_float, lower, eq_ignore_case, num_start, num_state};

verus! {

/// ASCII lower-casing of one byte.
fn lower_byte(b: u8) -> (r: u8)
    ensures
        r == lower(b),
{
    if 0x41 <= b && b <= 0x5a {
        b + 0x20
    } else {
        b
    }
}

/// Compares `s[start..]` case-insensitively with an ASCII word.
fn eq_word(s: &[u8], start: usize, w: &[u8]) -> (r: bool)
    requires
        start <= s@.len(),
    ensures
        r == eq_ignore_case(s@.skip(start as int), w@),
{
    let ghost t = s@.skip(start as int);
    let n = s.len();
    if n - start != w.len() {
        proof {
            assert(t.map_values(|b: u8| lower(b)).len() == t.len());
        }
        return false;
    }
    let mut i: usize = 0;
    while i < w.len()
        invariant
            0 <= i <= w@.len(),
            start + w@.len() == s@.len(),
            n == s@.len(),
            start <= s@.len(),
            t == s@.skip(start as int),
            forall|k: int| 0 <= k < i ==> lower(t[k]) == w@[k],
        decreases w@.len() - i,
    {
        if lower_byte(s[start + i]) != w[i] {
            proof {
                assert(t[i as int] == s@[start + i]);
                assert(t.map_values(|b: u8| lower(b))[i as int] == lower(t[i as int]));
            }
            return false;
        }
        i = i + 1;
    }
    proof {
        assert(t.map_values(|b: u8| lower(b)) =~= w@);
    }
    true
}

/// Scans a number (mantissa, optional fraction and exponent) beginning at
/// `start`.
fn scan_number(s: &[u8], start: usize) -> (r: bool)
    requires
        start <= s@.len(),
    ensures
        r == num_start(s@, start as int),
{
    let n = s.len();
    let mut st: u8 = 0;
    let mut i: usize = start;
    while i < n
        invariant
            start <= i <= n,
            n == s@.len(),
            st <= 6,
            num_start(s@, start as int) == num_state(s@, st, i as int),
        decreases n - i,
    {
        let b = s[i];
        let digit = 0x30 <= b && b <= 0x39;
        if st == 0 {
            if digit {
                st = 1;
            } else if b == 0x2e {
                st = 2;
            } else {
                return false;
            }
        } else if st == 1 {
            if digit {
            } else if b == 0x2e {
                st = 3;
            } else if b == 0x65 || b == 0x45 {
                st = 4;
            } else {
                return false;
            }
        } else if st == 2 {
            if digit {
                st = 3;
            } else {
                return false;
            }
        } else if st == 3 {
            if digit {
            } else if b == 0x65 || b == 0x45 {
                st = 4;
            } else {
                return false;
            }
        } else if st == 4 {
            if b == 0x2b || b == 0x2d {
                st = 5;
            } else if digit {
                st = 6;
            } else {
                return false;
            }
        } else if st == 5 {
            if digit {
                st = 6;
            } else {
                return false;
            }
        } else {
            if digit {
            } else {
                return false;
            }
        }
        i = i + 1;
    }
    st == 1 || st == 3 || st == 6
}

/// Recognizes a float literal field: an optional sign, then an infinity or
/// not-a-number word (case-insensitive) or a number.
pub fn is_float_literal(s: &[u8]) -> (r: bool)
    ensures
        r == is_float_lit(s@),
{
    let n = s.len();
    let start: usize = if n > 0 && (s[0] == 0x2b || s[0] == 0x2d) {
        1
    } else {
        0
    };
    let inf: [u8; 3] = [0x69, 0x6e, 0x66];
    let infinity: [u8; 8] = [0x69, 0x6e, 0x66, 0x69, 0x6e, 0x69, 0x74, 0x79];
    let nan: [u8; 3] = [0x6e, 0x61, 0x6e];
    if eq_word(s, start, inf.as_slice()) || eq_word(s, start, infinity.as_slice()) || eq_word(
        s,
        start,
        nan.as_slice(),
    ) {
        proof {
            assert(inf@ =~= seq![0x69u8, 0x6eu8, 0x66u8]);
            assert(infinity@ =~= seq![0x69u8, 0x6eu8, 0x66u8, 0x69u8, 0x6eu8, 0x69u8, 0x74u8, 0x79u8]);
            assert(nan@ =~= seq![0x6eu8, 0x61u8, 0x6eu8]);
        }
        return true;
    }
    proof {
        assert(inf@ =~= seq![0x69u8, 0x6eu8, 0x66u8]);
        assert(infinity@ =~= seq![0x69u8, 0x6eu8, 0x66u8, 0x69u8, 0x6eu8, 0x69u8, 0x74u8, 0x79u8]);
        assert(nan@ =~= seq![0x6eu8, 0x61u8, 0x6eu8]);
    }
    scan_number(s, start)
}

} // verus!
