//! The mathematical grammar of the wire format.
//!
//! Everything here is specification-level: a decode function over a byte
//! sequence, its encoder inverse, and the auxiliary definitions (numeric
//! fields, float literals, property-name demangling, encoding boundaries)
//! that both share.  The executable decoder and encoder are proved equal to
//! these functions.

use vstd::prelude::*;

use crate::error::Error;

verus! {

// ---------------------------------------------------------------------------
// Encoding boundaries.
// ---------------------------------------------------------------------------

/// True when `i` may legally split `data` under UTF-8 rules: the start, the
/// end, or any position that does not fall on a continuation byte.
pub open spec fn utf8_boundary(data: Seq<u8>, i: int) -> bool {
    i == 0 || i == data.len() || (0 <= i < data.len() && !(0x80 <= data[i] < 0xc0))
}

/// Boundary check for a representation: raw bytes accept every offset, a
/// checked text representation consults the encoding.
pub open spec fn rep_boundary(text: bool, data: Seq<u8>, i: int) -> bool {
    !text || utf8_boundary(data, i)
}

// ---------------------------------------------------------------------------
// Scanning for a delimiter.
// ---------------------------------------------------------------------------

/// Distance from `j` to the first occurrence of `b` at or after `j`, or
/// `None` if `b` does not occur in `data[j..]`.
pub open spec fn scan_dist(data: Seq<u8>, j: int, b: u8) -> Option<nat>
    decreases data.len() - j,
{
    if j < 0 || j >= data.len() {
        None
    } else if data[j] == b {
        Some(0)
    } else {
        match scan_dist(data, j + 1, b) {
            Some(d) => Some((d + 1) as nat),
            None => None,
        }
    }
}

/// What `scan_dist` finds: the nearest occurrence, with nothing equal to `b`
/// strictly before it.
pub proof fn lemma_scan_dist(data: Seq<u8>, j: int, b: u8)
    requires
        0 <= j,
    ensures
        match scan_dist(data, j, b) {
            Some(d) => j + d < data.len() && data[j + d] == b && forall|k: int|
                j <= k < j + d ==> data[k] != b,
            None => forall|k: int| j <= k < data.len() ==> data[k] != b,
        },
    decreases data.len() - j,
{
    if j < data.len() && data[j] != b {
        lemma_scan_dist(data, j + 1, b);
    }
}

/// `scan_dist` finds exactly the nearest occurrence.
pub proof fn lemma_scan_dist_exact(data: Seq<u8>, j: int, b: u8, q: int)
    requires
        0 <= j <= q < data.len(),
        data[q] == b,
        forall|k: int| j <= k < q ==> data[k] != b,
    ensures
        scan_dist(data, j, b) == Some((q - j) as nat),
    decreases q - j,
{
    if j < q {
        lemma_scan_dist_exact(data, j + 1, b, q);
    }
}

// ---------------------------------------------------------------------------
// Decimal integer fields.
// ---------------------------------------------------------------------------

/// ASCII decimal digit.
pub open spec fn is_digit(b: u8) -> bool {
    0x30 <= b <= 0x39
}

/// Every byte of `s` is an ASCII decimal digit.
pub open spec fn all_digits(s: Seq<u8>) -> bool {
    forall|i: int| 0 <= i < s.len() ==> is_digit(#[trigger] s[i])
}

/// Value of a digit string, most significant digit first.
pub open spec fn dec_val(s: Seq<u8>) -> nat
    decreases s.len(),
{
    if s.len() == 0 {
        0
    } else {
        (dec_val(s.drop_last()) * 10 + (s.last() - 0x30)) as nat
    }
}

/// The unsigned numeric reading of a field: an optional leading `+`, then at
/// least one digit and nothing else.  Matches the unsigned decimal parse of
/// the standard library, before any range check.
pub open spec fn spec_parse_uint(s: Seq<u8>) -> Option<nat> {
    let t = if s.len() > 0 && s[0] == 0x2b { s.drop_first() } else { s };
    if t.len() > 0 && all_digits(t) {
        Some(dec_val(t))
    } else {
        None
    }
}

/// A count or length field: unsigned decimal within `usize` range.
pub open spec fn spec_parse_usize(s: Seq<u8>) -> Option<usize> {
    match spec_parse_uint(s) {
        Some(v) => if v <= usize::MAX { Some(v as usize) } else { None },
        None => None,
    }
}

/// A signed integer field: an optional `+` or `-` sign, then at least one
/// digit and nothing else, within `i64` range.
pub open spec fn spec_parse_i64(s: Seq<u8>) -> Option<i64> {
    let neg = s.len() > 0 && s[0] == 0x2d;
    let t = if s.len() > 0 && (s[0] == 0x2b || s[0] == 0x2d) { s.drop_first() } else { s };
    if t.len() > 0 && all_digits(t) {
        let v = dec_val(t) as int;
        if neg {
            if -v >= i64::MIN { Some((-v) as i64) } else { None }
        } else {
            if v <= i64::MAX { Some(v as i64) } else { None }
        }
    } else {
        None
    }
}

// ---------------------------------------------------------------------------
// Decimal formatting (used by the encoder).
// ---------------------------------------------------------------------------

/// Decimal digits of `n`, most significant first, without leading zeros
/// (a lone `0` for zero).
pub open spec fn fmt_nat(n: nat) -> Seq<u8>
    decreases n,
{
    if n < 10 {
        seq![(0x30 + n) as u8]
    } else {
        fmt_nat(n / 10) + seq![(0x30 + n % 10) as u8]
    }
}

/// Decimal digits of `i`, with a leading `-` for negative values.
pub open spec fn fmt_i64(i: i64) -> Seq<u8> {
    if i < 0 {
        seq![0x2du8] + fmt_nat((-(i as int)) as nat)
    } else {
        fmt_nat(i as nat)
    }
}

pub proof fn lemma_fmt_nat_digits(n: nat)
    ensures
        fmt_nat(n).len() > 0,
        all_digits(fmt_nat(n)),
        dec_val(fmt_nat(n)) == n,
    decreases n,
{
    if n < 10 {
        let s = fmt_nat(n);
        assert(s =~= seq![(0x30 + n) as u8]);
        assert(s.drop_last() =~= Seq::<u8>::empty());
        assert(dec_val(s.drop_last()) == 0);
        assert(s.last() == (0x30 + n) as u8);
        assert(dec_val(s) == (dec_val(s.drop_last()) * 10 + (s.last() - 0x30)) as nat);
    } else {
        lemma_fmt_nat_digits(n / 10);
        let s = fmt_nat(n);
        assert(s =~= fmt_nat(n / 10) + seq![(0x30 + n % 10) as u8]);
        assert(s.drop_last() =~= fmt_nat(n / 10));
        assert(s.last() == (0x30 + n % 10) as u8);
        assert(dec_val(s) == (n / 10) * 10 + n % 10);
        assert((n / 10) * 10 + n % 10 == n) by (nonlinear_arith);
    }
}

/// Formatted unsigned values parse back to themselves.
pub proof fn lemma_parse_fmt_nat(n: nat)
    ensures
        spec_parse_uint(fmt_nat(n)) == Some(n),
        n <= usize::MAX ==> spec_parse_usize(fmt_nat(n)) == Some(n as usize),
{
    lemma_fmt_nat_digits(n);
    let s = fmt_nat(n);
    assert(is_digit(s[0]));
    assert(s[0] != 0x2b);
}

/// Formatted signed values parse back to themselves.
pub proof fn lemma_parse_fmt_i64(i: i64)
    ensures
        spec_parse_i64(fmt_i64(i)) == Some(i),
{
    if i < 0 {
        let m = (-(i as int)) as nat;
        lemma_fmt_nat_digits(m);
        let s = fmt_i64(i);
        assert(s[0] == 0x2d);
        assert(s.drop_first() =~= fmt_nat(m));
    } else {
        lemma_fmt_nat_digits(i as nat);
        let s = fmt_i64(i);
        assert(is_digit(s[0]));
        assert(s[0] != 0x2b && s[0] != 0x2d);
    }
}

// ---------------------------------------------------------------------------
// Float literal fields.
// ---------------------------------------------------------------------------

/// ASCII lower-casing of one byte.
pub open spec fn lower(b: u8) -> u8 {
    if 0x41 <= b <= 0x5a { (b + 0x20) as u8 } else { b }
}

/// Case-insensitive equality with an ASCII word.
pub open spec fn eq_ignore_case(s: Seq<u8>, w: Seq<u8>) -> bool {
    s.map_values(|b: u8| lower(b)) == w
}

/// The infinity and not-a-number words accepted by a float field.
pub open spec fn is_special_float(t: Seq<u8>) -> bool {
    eq_ignore_case(t, seq![0x69u8, 0x6eu8, 0x66u8]) || eq_ignore_case(
        t,
        seq![0x69u8, 0x6eu8, 0x66u8, 0x69u8, 0x6eu8, 0x69u8, 0x74u8, 0x79u8],
    ) || eq_ignore_case(t, seq![0x6eu8, 0x61u8, 0x6eu8])
}

/// The mantissa of a number, at its first byte: a digit run, a digit run
/// with a decimal point, or a decimal point that must be followed by digits.
pub open spec fn num_start(t: Seq<u8>, i: int) -> bool
    decreases t.len() - i,
{
    if i < 0 || i >= t.len() {
        false
    } else if is_digit(t[i]) {
        int_part(t, i + 1)
    } else if t[i] == 0x2e {
        frac_need(t, i + 1)
    } else {
        false
    }
}

/// After at least one integer digit: more digits, a decimal point, an
/// exponent, or the end.
pub open spec fn int_part(t: Seq<u8>, i: int) -> bool
    decreases t.len() - i,
{
    if i >= t.len() {
        true
    } else if is_digit(t[i]) {
        int_part(t, i + 1)
    } else if t[i] == 0x2e {
        frac_opt(t, i + 1)
    } else if t[i] == 0x65 || t[i] == 0x45 {
        exp_start(t, i + 1)
    } else {
        false
    }
}

/// After a leading decimal point: at least one fraction digit is required.
pub open spec fn frac_need(t: Seq<u8>, i: int) -> bool
    decreases t.len() - i,
{
    if i >= t.len() {
        false
    } else if is_digit(t[i]) {
        frac_opt(t, i + 1)
    } else {
        false
    }
}

/// Inside or after the fraction: digits, an exponent, or the end.
pub open spec fn frac_opt(t: Seq<u8>, i: int) -> bool
    decreases t.len() - i,
{
    if i >= t.len() {
        true
    } else if is_digit(t[i]) {
        frac_opt(t, i + 1)
    } else if t[i] == 0x65 || t[i] == 0x45 {
        exp_start(t, i + 1)
    } else {
        false
    }
}

/// Right after `e` or `E`: an optional sign, then exponent digits.
pub open spec fn exp_start(t: Seq<u8>, i: int) -> bool
    decreases t.len() - i,
{
    if i >= t.len() {
        false
    } else if t[i] == 0x2b || t[i] == 0x2d {
        exp_need(t, i + 1)
    } else if is_digit(t[i]) {
        exp_digits(t, i + 1)
    } else {
        false
    }
}

/// After an exponent sign: at least one digit is required.
pub open spec fn exp_need(t: Seq<u8>, i: int) -> bool
    decreases t.len() - i,
{
    if i >= t.len() {
        false
    } else if is_digit(t[i]) {
        exp_digits(t, i + 1)
    } else {
        false
    }
}

/// Inside the exponent: digits or the end.
pub open spec fn exp_digits(t: Seq<u8>, i: int) -> bool
    decreases t.len() - i,
{
    if i >= t.len() {
        true
    } else if is_digit(t[i]) {
        exp_digits(t, i + 1)
    } else {
        false
    }
}

/// The float literal grammar of the standard library's float parse: an
/// optional sign, then an infinity or not-a-number word (case-insensitive)
/// or a number with an optional exponent.
pub open spec fn is_float_lit(s: Seq<u8>) -> bool {
    let start: int = if s.len() > 0 && (s[0] == 0x2b || s[0] == 0x2d) {
        1
    } else {
        0
    };
    is_special_float(s.skip(start)) || num_start(s, start)
}

/// One state of the number scan, by its number: the mantissa start, the
/// integer part, the required or optional fraction, and the exponent's
/// start, required digit and digit run.
pub open spec fn num_state(t: Seq<u8>, st: u8, i: int) -> bool {
    if st == 0 {
        num_start(t, i)
    } else if st == 1 {
        int_part(t, i)
    } else if st == 2 {
        frac_need(t, i)
    } else if st == 3 {
        frac_opt(t, i)
    } else if st == 4 {
        exp_start(t, i)
    } else if st == 5 {
        exp_need(t, i)
    } else {
        exp_digits(t, i)
    }
}

} // verus!


verus! {

// ---------------------------------------------------------------------------
// Reading primitives over a byte sequence.
// ---------------------------------------------------------------------------

/// One byte at `pos`: end of input past the data, an encoding error when the
/// next offset is not a boundary of the representation.
pub open spec fn s_read_byte(data: Seq<u8>, pos: int, text: bool) -> Result<(u8, int), Error>
    recommends
        0 <= pos,
{
    if pos >= data.len() {
        Err(Error::UnexpectedEof)
    } else if !rep_boundary(text, data, pos + 1) {
        Err(Error::BadEncoding(pos as usize))
    } else {
        Ok((data[pos], pos + 1))
    }
}

/// One byte that must equal `c`; a mismatch is reported at the offset after
/// the byte was consumed.
pub open spec fn s_expect(data: Seq<u8>, pos: int, c: u8, text: bool) -> Result<int, Error> {
    match s_read_byte(data, pos, text) {
        Err(e) => Err(e),
        Ok((b, p)) => if b == c {
            Ok(p)
        } else {
            Err(Error::BadToken(p as usize))
        },
    }
}

/// Exactly `n` bytes from `pos`.  A request beyond the allocation ceiling
/// `cap` or past the data is end of input; for a checked representation the
/// end of the range must land on a boundary.
pub open spec fn s_read_str(data: Seq<u8>, pos: int, n: int, cap: int, text: bool) -> Result<
    (Seq<u8>, int),
    Error,
> {
    if n > cap {
        Err(Error::UnexpectedEof)
    } else if pos + n > data.len() {
        Err(Error::UnexpectedEof)
    } else if !rep_boundary(text, data, pos + n) {
        Err(Error::BadEncoding(pos as usize))
    } else {
        Ok((data.subrange(pos, pos + n), pos + n))
    }
}

/// Bytes up to the first occurrence of the ASCII delimiter `b` strictly
/// after `pos`; the delimiter itself is consumed but not returned.
pub open spec fn s_read_until(data: Seq<u8>, pos: int, b: u8) -> Result<(Seq<u8>, int), Error>
    recommends
        0 <= pos,
        b < 0x80,
{
    match scan_dist(data, pos + 1, b) {
        None => Err(Error::UnexpectedEof),
        Some(d) => Ok((data.subrange(pos, pos + 1 + d), pos + 2 + d)),
    }
}

// ---------------------------------------------------------------------------
// The specification value tree.
// ---------------------------------------------------------------------------

/// A decoded value, with every string as its byte sequence.
#[verifier::ext_equal]
pub enum SpecValue {
    Null,
    Bool(bool),
    Int(i64),
    Float(Seq<u8>),
    Str(Seq<u8>),
    Arr(Seq<(SpecKey, SpecValue)>),
    Obj(Seq<u8>, Seq<(SpecProp, SpecValue)>),
    Ser(Seq<u8>, Seq<u8>),
    Refer(usize),
}

/// An array key: an integer or a string.
#[verifier::ext_equal]
pub enum SpecKey {
    Int(i64),
    Str(Seq<u8>),
}

/// A property name with its recovered visibility.
#[verifier::ext_equal]
pub struct SpecProp {
    pub vis: SpecVis,
    pub name: Seq<u8>,
}

/// The visibility of an object property.
#[verifier::ext_equal]
pub enum SpecVis {
    Private(Seq<u8>),
    Protected,
    Public,
}

// ---------------------------------------------------------------------------
// Property-name demangling.
// ---------------------------------------------------------------------------

/// Why a raw property name fails to demangle.
#[derive(Debug, Clone, Copy, PartialEq, Eq, Structural)]
pub enum DemangleFault {
    /// A leading NUL is followed by `*` but no second NUL.
    BadMarker,
    /// A leading NUL is never closed by a second NUL.
    MissingNul,
}

/// Recovers visibility from raw property-name bytes: `\0*\0name` is
/// protected, `\0class\0name` is private to `class`, anything without a
/// leading NUL is public.
pub open spec fn spec_demangle(raw: Seq<u8>) -> Result<(SpecVis, Seq<u8>), DemangleFault> {
    if raw.len() == 0 || raw[0] != 0 {
        Ok((SpecVis::Public, raw))
    } else if raw.len() >= 2 && raw[1] == 0x2a {
        if raw.len() >= 3 && raw[2] == 0 {
            Ok((SpecVis::Protected, raw.skip(3)))
        } else {
            Err(DemangleFault::BadMarker)
        }
    } else {
        match scan_dist(raw, 1, 0) {
            None => Err(DemangleFault::MissingNul),
            Some(d) => Ok((SpecVis::Private(raw.subrange(1, 1 + d as int)), raw.skip(2 + d as int))),
        }
    }
}

/// The inverse of demangling, used by the encoder.
pub open spec fn spec_mangle(vis: SpecVis, name: Seq<u8>) -> Seq<u8> {
    match vis {
        SpecVis::Public => name,
        SpecVis::Protected => seq![0u8, 0x2au8, 0u8] + name,
        SpecVis::Private(class) => seq![0u8] + class + seq![0u8] + name,
    }
}

// ---------------------------------------------------------------------------
// The grammar: decoding.
// ---------------------------------------------------------------------------

/// Decodes one value from `data` at `pos`, under allocation ceiling `cap`,
/// for a raw (`text == false`) or checked (`text == true`) representation.
/// Returns the value and the offset just past it.
pub open spec fn spec_decode(data: Seq<u8>, pos: int, cap: int, text: bool) -> Result<
    (SpecValue, int),
    Error,
>
    recommends
        0 <= pos,
    decreases data.len() - pos, 0int, 0int,
{
    match s_read_byte(data, pos, text) {
        Err(e) => Err(e),
        Ok((tag, p1)) => if tag == 0x4e {  // 'N'
            match s_expect(data, p1, 0x3b, text) {
                Err(e) => Err(e),
                Ok(p2) => Ok((SpecValue::Null, p2)),
            }
        } else if tag == 0x62 {  // 'b'
            match s_expect(data, p1, 0x3a, text) {
                Err(e) => Err(e),
                Ok(p2) => match s_read_byte(data, p2, text) {
                    Err(e) => Err(e),
                    Ok((c, p3)) => if c == 0x31 || c == 0x30 {
                        match s_expect(data, p3, 0x3b, text) {
                            Err(e) => Err(e),
                            Ok(p4) => Ok((SpecValue::Bool(c == 0x31), p4)),
                        }
                    } else {
                        Err(Error::BadNumber(p3 as usize))
                    },
                },
            }
        } else if tag == 0x69 {  // 'i'
            match s_expect(data, p1, 0x3a, text) {
                Err(e) => Err(e),
                Ok(p2) => match s_read_until(data, p2, 0x3b) {
                    Err(e) => Err(e),
                    Ok((fld, p3)) => match spec_parse_i64(fld) {
                        Some(v) => Ok((SpecValue::Int(v), p3)),
                        None => Err(Error::BadNumber(p3 as usize)),
                    },
                },
            }
        } else if tag == 0x64 {  // 'd'
            match s_expect(data, p1, 0x3a, text) {
                Err(e) => Err(e),
                Ok(p2) => match s_read_until(data, p2, 0x3b) {
                    Err(e) => Err(e),
                    Ok((fld, p3)) => if is_float_lit(fld) {
                        Ok((SpecValue::Float(fld), p3))
                    } else {
                        Err(Error::BadNumber(p3 as usize))
                    },
                },
            }
        } else if tag == 0x73 {  // 's'
            match s_expect(data, p1, 0x3a, text) {
                Err(e) => Err(e),
                Ok(p2) => match s_read_until(data, p2, 0x3a) {
                    Err(e) => Err(e),
                    Ok((fld, p3)) => match spec_parse_usize(fld) {
                        None => Err(Error::BadNumber(p3 as usize)),
                        Some(n) => match s_expect(data, p3, 0x22, text) {
                            Err(e) => Err(e),
                            Ok(p4) => match s_read_str(data, p4, n as int, cap, text) {
                                Err(e) => Err(e),
                                Ok((s, p5)) => match s_expect(data, p5, 0x22, text) {
                                    Err(e) => Err(e),
                                    Ok(p6) => match s_expect(data, p6, 0x3b, text) {
                                        Err(e) => Err(e),
                                        Ok(p7) => Ok((SpecValue::Str(s), p7)),
                                    },
                                },
                            },
                        },
                    },
                },
            }
        } else if tag == 0x61 {  // 'a'
            match s_expect(data, p1, 0x3a, text) {
                Err(e) => Err(e),
                Ok(p2) => match s_read_until(data, p2, 0x3a) {
                    Err(e) => Err(e),
                    Ok((fld, p3)) => match spec_parse_usize(fld) {
                        None => Err(Error::BadNumber(p3 as usize)),
                        Some(n) => match s_expect(data, p3, 0x7b, text) {
                            Err(e) => Err(e),
                            Ok(p4) => if n > cap {
                                Err(Error::UnexpectedEof)
                            } else {
                                match spec_decode_pairs(data, p4, cap, text, n as nat) {
                                    Err(e) => Err(e),
                                    Ok((ps, p5)) => match s_expect(data, p5, 0x7d, text) {
                                        Err(e) => Err(e),
                                        Ok(p6) => Ok((SpecValue::Arr(ps), p6)),
                                    },
                                }
                            },
                        },
                    },
                },
            }
        } else if tag == 0x4f {  // 'O'
            match s_expect(data, p1, 0x3a, text) {
                Err(e) => Err(e),
                Ok(p2) => match s_read_until(data, p2, 0x3a) {
                    Err(e) => Err(e),
                    Ok((fld, p3)) => match spec_parse_usize(fld) {
                        None => Err(Error::BadNumber(p3 as usize)),
                        Some(ncls) => match s_expect(data, p3, 0x22, text) {
                            Err(e) => Err(e),
                            Ok(p4) => match s_read_str(data, p4, ncls as int, cap, text) {
                                Err(e) => Err(e),
                                Ok((cls, p5)) => match s_expect(data, p5, 0x22, text) {
                                    Err(e) => Err(e),
                                    Ok(p6) => match s_expect(data, p6, 0x3a, text) {
                                        Err(e) => Err(e),
                                        Ok(p7) => match s_read_until(data, p7, 0x3a) {
                                            Err(e) => Err(e),
                                            Ok((fld2, p8)) => match spec_parse_usize(fld2) {
                                                None => Err(Error::BadNumber(p8 as usize)),
                                                Some(np) => if np > cap {
                                                    Err(Error::UnexpectedEof)
                                                } else {
                                                    match s_expect(data, p8, 0x7b, text) {
                                                        Err(e) => Err(e),
                                                        Ok(p9) => match spec_decode_props(
                                                            data,
                                                            p9,
                                                            cap,
                                                            text,
                                                            np as nat,
                                                        ) {
                                                            Err(e) => Err(e),
                                                            Ok((props, p10)) => match s_expect(
                                                                data,
                                                                p10,
                                                                0x7d,
                                                                text,
                                                            ) {
                                                                Err(e) => Err(e),
                                                                Ok(p11) => Ok(
                                                                    (SpecValue::Obj(cls, props), p11),
                                                                ),
                                                            },
                                                        },
                                                    }
                                                },
                                            },
                                        },
                                    },
                                },
                            },
                        },
                    },
                },
            }
        } else if tag == 0x43 {  // 'C'
            match s_expect(data, p1, 0x3a, text) {
                Err(e) => Err(e),
                Ok(p2) => match s_read_until(data, p2, 0x3a) {
                    Err(e) => Err(e),
                    Ok((fld, p3)) => match spec_parse_usize(fld) {
                        None => Err(Error::BadNumber(p3 as usize)),
                        Some(ncls) => match s_expect(data, p3, 0x22, text) {
                            Err(e) => Err(e),
                            Ok(p4) => match s_read_str(data, p4, ncls as int, cap, text) {
                                Err(e) => Err(e),
                                Ok((cls, p5)) => match s_expect(data, p5, 0x22, text) {
                                    Err(e) => Err(e),
                                    Ok(p6) => match s_expect(data, p6, 0x3a, text) {
                                        Err(e) => Err(e),
                                        Ok(p7) => match s_read_until(data, p7, 0x3a) {
                                            Err(e) => Err(e),
                                            Ok((fld2, p8)) => match spec_parse_usize(fld2) {
                                                None => Err(Error::BadNumber(p8 as usize)),
                                                Some(nd) => match s_expect(data, p8, 0x7b, text) {
                                                    Err(e) => Err(e),
                                                    Ok(p9) => match s_read_str(
                                                        data,
                                                        p9,
                                                        nd as int,
                                                        cap,
                                                        text,
                                                    ) {
                                                        Err(e) => Err(e),
                                                        Ok((dat, p10)) => match s_expect(
                                                            data,
                                                            p10,
                                                            0x7d,
                                                            text,
                                                        ) {
                                                            Err(e) => Err(e),
                                                            Ok(p11) => Ok(
                                                                (SpecValue::Ser(cls, dat), p11),
                                                            ),
                                                        },
                                                    },
                                                },
                                            },
                                        },
                                    },
                                },
                            },
                        },
                    },
                },
            }
        } else if tag == 0x52 {  // 'R'
            match s_expect(data, p1, 0x3a, text) {
                Err(e) => Err(e),
                Ok(p2) => match s_read_until(data, p2, 0x3b) {
                    Err(e) => Err(e),
                    Ok((fld, p3)) => match spec_parse_usize(fld) {
                        Some(ix) => Ok((SpecValue::Refer(ix), p3)),
                        None => Err(Error::BadNumber(p3 as usize)),
                    },
                },
            }
        } else {
            Err(Error::BadToken(p1 as usize))
        },
    }
}

/// Decodes `n` key/value pairs of an array, in source order.  Sub-decodes
/// always move the position forward; the checks that they did are what makes
/// the recursion well-founded.
pub open spec fn spec_decode_pairs(data: Seq<u8>, pos: int, cap: int, text: bool, n: nat) -> Result<
    (Seq<(SpecKey, SpecValue)>, int),
    Error,
>
    recommends
        0 <= pos,
    decreases data.len() - pos, 1int, n,
{
    if n == 0 {
        Ok((Seq::empty(), pos))
    } else {
        match spec_decode(data, pos, cap, text) {
            Err(e) => Err(e),
            Ok((kv, pk)) => {
                let keyopt = match kv {
                    SpecValue::Int(i) => Some(SpecKey::Int(i)),
                    SpecValue::Str(s) => Some(SpecKey::Str(s)),
                    _ => None,
                };
                match keyopt {
                    None => Err(Error::BadArrayKeyType(pk as usize)),
                    Some(key) => if pk <= pos || pk > data.len() {
                        Err(Error::UnexpectedEof)
                    } else {
                        match spec_decode(data, pk, cap, text) {
                            Err(e) => Err(e),
                            Ok((v, pv)) => if pv <= pos || pv > data.len() {
                                Err(Error::UnexpectedEof)
                            } else {
                                match spec_decode_pairs(data, pv, cap, text, (n - 1) as nat) {
                                    Err(e) => Err(e),
                                    Ok((rest, pr)) => Ok((seq![(key, v)] + rest, pr)),
                                }
                            },
                        }
                    },
                }
            },
        }
    }
}

/// Decodes `n` property name/value pairs of an object, in source order,
/// demangling each name's visibility.
pub open spec fn spec_decode_props(data: Seq<u8>, pos: int, cap: int, text: bool, n: nat) -> Result<
    (Seq<(SpecProp, SpecValue)>, int),
    Error,
>
    recommends
        0 <= pos,
    decreases data.len() - pos, 1int, n,
{
    if n == 0 {
        Ok((Seq::empty(), pos))
    } else {
        match spec_decode(data, pos, cap, text) {
            Err(e) => Err(e),
            Ok((nv, pk)) => match nv {
                SpecValue::Str(raw) => match spec_demangle(raw) {
                    Err(DemangleFault::BadMarker) => Err(Error::BadToken(pk as usize)),
                    Err(DemangleFault::MissingNul) => Err(Error::UnexpectedEof),
                    Ok((vis, name)) => if pk <= pos || pk > data.len() {
                        Err(Error::UnexpectedEof)
                    } else {
                        match spec_decode(data, pk, cap, text) {
                            Err(e) => Err(e),
                            Ok((v, pv)) => if pv <= pos || pv > data.len() {
                                Err(Error::UnexpectedEof)
                            } else {
                                match spec_decode_props(data, pv, cap, text, (n - 1) as nat) {
                                    Err(e) => Err(e),
                                    Ok((rest, pr)) => Ok(
                                        (seq![(SpecProp { vis, name }, v)] + rest, pr),
                                    ),
                                }
                            },
                        }
                    },
                },
                _ => Err(Error::BadObjectKeyType(pk as usize)),
            },
        }
    }
}

} // verus!

verus! {

broadcast use vstd::seq::group_seq_axioms;

// ---------------------------------------------------------------------------
// The grammar: encoding.
// ---------------------------------------------------------------------------

/// Wire bytes of an integer value.
pub open spec fn enc_int(i: i64) -> Seq<u8> {
    seq![0x69u8, 0x3au8] + fmt_i64(i) + seq![0x3bu8]
}

/// Wire bytes of a string value: a byte-count prefix, then the bytes quoted.
pub open spec fn enc_str(s: Seq<u8>) -> Seq<u8> {
    seq![0x73u8, 0x3au8] + fmt_nat(s.len()) + seq![0x3au8, 0x22u8] + s + seq![0x22u8, 0x3bu8]
}

/// Wire bytes of an array key.
pub open spec fn spec_encode_key(k: SpecKey) -> Seq<u8> {
    match k {
        SpecKey::Int(i) => enc_int(i),
        SpecKey::Str(s) => enc_str(s),
    }
}

/// Wire bytes of a value tree: the inverse of `spec_decode`, syntax-directed
/// with declared lengths taken from the tree itself.
pub open spec fn spec_encode(v: SpecValue) -> Seq<u8>
    decreases v, 0int,
{
    match v {
        SpecValue::Null => seq![0x4eu8, 0x3bu8],
        SpecValue::Bool(b) => seq![0x62u8, 0x3au8, if b { 0x31u8 } else { 0x30u8 }, 0x3bu8],
        SpecValue::Int(i) => enc_int(i),
        SpecValue::Float(t) => seq![0x64u8, 0x3au8] + t + seq![0x3bu8],
        SpecValue::Str(s) => enc_str(s),
        SpecValue::Arr(ps) => seq![0x61u8, 0x3au8] + fmt_nat(ps.len()) + seq![0x3au8, 0x7bu8]
            + spec_encode_pairs(ps) + seq![0x7du8],
        SpecValue::Obj(cls, ps) => seq![0x4fu8, 0x3au8] + fmt_nat(cls.len()) + seq![
            0x3au8,
            0x22u8,
        ] + cls + seq![0x22u8, 0x3au8] + fmt_nat(ps.len()) + seq![0x3au8, 0x7bu8]
            + spec_encode_props(ps) + seq![0x7du8],
        SpecValue::Ser(cls, dat) => seq![0x43u8, 0x3au8] + fmt_nat(cls.len()) + seq![
            0x3au8,
            0x22u8,
        ] + cls + seq![0x22u8, 0x3au8] + fmt_nat(dat.len()) + seq![0x3au8, 0x7bu8] + dat + seq![
            0x7du8,
        ],
        SpecValue::Refer(ix) => seq![0x52u8, 0x3au8] + fmt_nat(ix as nat) + seq![0x3bu8],
    }
}

/// Wire bytes of an array's pairs, in order.
pub open spec fn spec_encode_pairs(ps: Seq<(SpecKey, SpecValue)>) -> Seq<u8>
    decreases ps, 1int,
{
    if ps.len() == 0 {
        Seq::empty()
    } else {
        spec_encode_key(ps[0].0) + spec_encode(ps[0].1) + spec_encode_pairs(ps.drop_first())
    }
}

/// Wire bytes of an object's properties, in order, with each name mangled
/// back to its raw form.
pub open spec fn spec_encode_props(ps: Seq<(SpecProp, SpecValue)>) -> Seq<u8>
    decreases ps, 1int,
{
    if ps.len() == 0 {
        Seq::empty()
    } else {
        enc_str(spec_mangle(ps[0].0.vis, ps[0].0.name)) + spec_encode(ps[0].1)
            + spec_encode_props(ps.drop_first())
    }
}

// ---------------------------------------------------------------------------
// Values constructible by the grammar.
// ---------------------------------------------------------------------------

/// An array key the grammar can produce.
pub open spec fn wf_key(k: SpecKey) -> bool {
    match k {
        SpecKey::Int(_) => true,
        SpecKey::Str(s) => s.len() <= usize::MAX,
    }
}

/// A property name the grammar can produce: its mangled form must demangle
/// back to itself, so a public name cannot begin with NUL, and a private
/// declaring class cannot contain NUL or begin with `*`.
pub open spec fn wf_prop(p: SpecProp) -> bool {
    spec_mangle(p.vis, p.name).len() <= usize::MAX && match p.vis {
        SpecVis::Public => p.name.len() == 0 || p.name[0] != 0,
        SpecVis::Protected => true,
        SpecVis::Private(class) => (forall|i: int| 0 <= i < class.len() ==> class[i] != 0) && (
        class.len() == 0 || class[0] != 0x2a),
    }
}

/// A value tree the grammar can produce.
pub open spec fn wf_value(v: SpecValue) -> bool
    decreases v, 0int,
{
    match v {
        SpecValue::Null => true,
        SpecValue::Bool(_) => true,
        SpecValue::Int(_) => true,
        SpecValue::Float(t) => is_float_lit(t),
        SpecValue::Str(s) => s.len() <= usize::MAX,
        SpecValue::Arr(ps) => ps.len() <= usize::MAX && wf_pairs(ps),
        SpecValue::Obj(cls, ps) => cls.len() <= usize::MAX && ps.len() <= usize::MAX && wf_props(
            ps,
        ),
        SpecValue::Ser(cls, dat) => cls.len() <= usize::MAX && dat.len() <= usize::MAX,
        SpecValue::Refer(_) => true,
    }
}

/// Every pair of an array is well formed.
pub open spec fn wf_pairs(ps: Seq<(SpecKey, SpecValue)>) -> bool
    decreases ps, 1int,
{
    forall|i: int| 0 <= i < ps.len() ==> wf_key((#[trigger] ps[i]).0) && wf_value(ps[i].1)
}

/// Every property of an object is well formed.
pub open spec fn wf_props(ps: Seq<(SpecProp, SpecValue)>) -> bool
    decreases ps, 1int,
{
    forall|i: int| 0 <= i < ps.len() ==> wf_prop((#[trigger] ps[i]).0) && wf_value(ps[i].1)
}

} // verus!
