use vstd::prelude::*;

use crate::error::Error;
use crate::grammar::{
    all_digits, enc_int, enc_str, fmt_i64, fmt_nat, is_digit, is_float_lit, is_special_float,
    lemma_fmt_nat_digits, lemma_parse_fmt_i64, lemma_parse_fmt_nat, lemma_scan_dist_exact, lower,
    num_start, num_state, spec_decode, spec_decode_pairs, spec_decode_props, spec_demangle,
    spec_encode, spec_encode_key, spec_encode_pairs, spec_encode_props, spec_mangle, wf_key,
    wf_pairs, wf_prop, wf_props, wf_value, SpecKey, SpecProp, SpecValue, SpecVis,
};

verus! {

broadcast use vstd::seq::group_seq_axioms;

/// A window equality gives pointwise byte equality.
proof fn lemma_window(data: Seq<u8>, pos: int, w: Seq<u8>)
    requires
        0 <= pos,
        pos + w.len() <= data.len(),
        data.subrange(pos, pos + w.len()) == w,
    ensures
        forall|k: int| 0 <= k < w.len() ==> data[pos + k] == w[k],
{
    assert forall|k: int| 0 <= k < w.len() implies data[pos + k] == w[k] by {
        assert(data.subrange(pos, pos + w.len())[k] == data[pos + k]);
    }
}

/// A window over a concatenation splits into windows over its halves.
proof fn lemma_window_split(data: Seq<u8>, pos: int, a: Seq<u8>, b: Seq<u8>)
    requires
        0 <= pos,
        pos + a.len() + b.len() <= data.len(),
        data.subrange(pos, pos + a.len() + b.len()) == a + b,
    ensures
        data.subrange(pos, pos + a.len()) == a,
        data.subrange(pos + a.len(), pos + a.len() + b.len()) == b,
{
    lemma_window(data, pos, a + b);
    assert(data.subrange(pos, pos + a.len()) =~= a);
    assert forall|k: int|
        0 <= k < b.len() implies data.subrange(pos + a.len(), pos + a.len() + b.len())[k]
        == b[k] by {
        assert(data[pos + (a.len() + k)] == (a + b)[a.len() + k]);
        assert((a + b)[a.len() + k] == b[k]);
        assert(data.subrange(pos + a.len(), pos + a.len() + b.len())[k] == data[pos + a.len()
            + k]);
    }
    assert(data.subrange(pos + a.len(), pos + a.len() + b.len()) =~= b);
}

/// The shape of a formatted signed integer: nonempty, digits after an
/// optional leading minus sign.
proof fn lemma_fmt_i64_shape(i: i64)
    ensures
        fmt_i64(i).len() >= 1,
        forall|j: int| 1 <= j < fmt_i64(i).len() ==> is_digit(#[trigger] fmt_i64(i)[j]),
        is_digit(fmt_i64(i)[0]) || fmt_i64(i)[0] == 0x2d,
{
    if i < 0 {
        let m = (-(i as int)) as nat;
        lemma_fmt_nat_digits(m);
        assert(fmt_i64(i) =~= seq![0x2du8] + fmt_nat(m));
        assert forall|j: int| 1 <= j < fmt_i64(i).len() implies is_digit(
            #[trigger] fmt_i64(i)[j],
        ) by {
            assert(fmt_i64(i)[j] == fmt_nat(m)[j - 1]);
        }
    } else {
        lemma_fmt_nat_digits(i as nat);
    }
}

/// Decoding what `enc_int` wrote yields the integer back.
proof fn lemma_rt_int(i: i64, data: Seq<u8>, pos: int, cap: int)
    requires
        0 <= pos,
        pos + enc_int(i).len() <= data.len(),
        data.subrange(pos, pos + enc_int(i).len()) == enc_int(i),
        data.len() <= cap,
    ensures
        spec_decode(data, pos, cap, false) == Ok::<(SpecValue, int), Error>(
            (SpecValue::Int(i), pos + enc_int(i).len()),
        ),
{
    let w = enc_int(i);
    let f = fmt_i64(i);
    let m = f.len() as int;
    lemma_fmt_i64_shape(i);
    lemma_window(data, pos, w);
    assert(w.len() == m + 3);
    assert(w[0] == 0x69 && w[1] == 0x3a);
    assert(forall|j: int| 0 <= j < m ==> w[2 + j] == f[j]);
    assert(w[m + 2] == 0x3b);
    assert forall|k: int| pos + 3 <= k < pos + 2 + m implies data[k] != 0x3b by {
        assert(data[k] == w[k - pos]);
        assert(w[k - pos] == f[k - pos - 2]);
        assert(is_digit(f[k - pos - 2]));
    }
    assert(data[pos + 2 + m] == 0x3b);
    lemma_scan_dist_exact(data, pos + 3, 0x3b, pos + 2 + m);
    assert(data.subrange(pos + 2, pos + 2 + m) =~= f);
    lemma_parse_fmt_i64(i);
}

/// Decoding what `enc_str` wrote yields the string back.
#[verifier::rlimit(100)]
#[verifier::spinoff_prover]
proof fn lemma_rt_str(s: Seq<u8>, data: Seq<u8>, pos: int, cap: int)
    requires
        0 <= pos,
        s.len() <= usize::MAX,
        pos + enc_str(s).len() <= data.len(),
        data.subrange(pos, pos + enc_str(s).len()) == enc_str(s),
        data.len() <= cap,
    ensures
        spec_decode(data, pos, cap, false) == Ok::<(SpecValue, int), Error>(
            (SpecValue::Str(s), pos + enc_str(s).len()),
        ),
{
    let w = enc_str(s);
    let f = fmt_nat(s.len());
    let m = f.len() as int;
    let n = s.len() as int;
    lemma_fmt_nat_digits(s.len());
    lemma_window(data, pos, w);
    assert(w.len() == m + n + 6);
    assert(w[0] == 0x73 && w[1] == 0x3a);
    assert(forall|j: int| 0 <= j < m ==> w[2 + j] == f[j]);
    assert(w[m + 2] == 0x3a && w[m + 3] == 0x22);
    assert(forall|j: int| 0 <= j < n ==> w[m + 4 + j] == s[j]);
    assert(w[m + n + 4] == 0x22 && w[m + n + 5] == 0x3b);
    assert forall|k: int| pos + 3 <= k < pos + 2 + m implies data[k] != 0x3a by {
        assert(data[k] == w[k - pos]);
        assert(w[k - pos] == f[k - pos - 2]);
        assert(is_digit(f[k - pos - 2]));
    }
    assert(data[pos + 2 + m] == 0x3a);
    lemma_scan_dist_exact(data, pos + 3, 0x3a, pos + 2 + m);
    assert(data.subrange(pos + 2, pos + 2 + m) =~= f);
    lemma_parse_fmt_nat(s.len());
    assert(data[pos + m + 3] == 0x22);
    assert(data.subrange(pos + m + 4, pos + m + 4 + n) =~= s);
    assert(data[pos + m + n + 4] == 0x22);
    assert(data[pos + m + n + 5] == 0x3b);
}

/// Every byte a float literal accepts from a state onward is not the field
/// delimiter.
proof fn lemma_state_chars(t: Seq<u8>, st: u8, i: int)
    requires
        0 <= i,
        st <= 6,
        num_state(t, st, i),
    ensures
        forall|k: int| i <= k < t.len() ==> t[k] != 0x3b,
    decreases t.len() - i,
{
    if i < t.len() {
        if st == 0 {
            if is_digit(t[i]) {
                lemma_state_chars(t, 1, i + 1);
            } else {
                lemma_state_chars(t, 2, i + 1);
            }
        } else if st == 1 {
            if is_digit(t[i]) {
                lemma_state_chars(t, 1, i + 1);
            } else if t[i] == 0x2e {
                lemma_state_chars(t, 3, i + 1);
            } else {
                lemma_state_chars(t, 4, i + 1);
            }
        } else if st == 2 {
            lemma_state_chars(t, 3, i + 1);
        } else if st == 3 {
            if is_digit(t[i]) {
                lemma_state_chars(t, 3, i + 1);
            } else {
                lemma_state_chars(t, 4, i + 1);
            }
        } else if st == 4 {
            if t[i] == 0x2b || t[i] == 0x2d {
                lemma_state_chars(t, 5, i + 1);
            } else {
                lemma_state_chars(t, 6, i + 1);
            }
        } else if st == 5 {
            lemma_state_chars(t, 6, i + 1);
        } else {
            lemma_state_chars(t, 6, i + 1);
        }
    }
}

/// A float literal field is nonempty and never contains the terminating
/// semicolon.
proof fn lemma_float_field(s: Seq<u8>)
    requires
        is_float_lit(s),
    ensures
        s.len() >= 1,
        forall|k: int| 0 <= k < s.len() ==> s[k] != 0x3b,
{
    let start: int = if s.len() > 0 && (s[0] == 0x2b || s[0] == 0x2d) {
        1
    } else {
        0
    };
    let t = s.skip(start);
    if is_special_float(t) {
        let low = t.map_values(|b: u8| lower(b));
        assert(low.len() == t.len());
        let w1 = seq![0x69u8, 0x6eu8, 0x66u8];
        let w2 = seq![0x69u8, 0x6eu8, 0x66u8, 0x69u8, 0x6eu8, 0x69u8, 0x74u8, 0x79u8];
        let w3 = seq![0x6eu8, 0x61u8, 0x6eu8];
        assert(low == w1 || low == w2 || low == w3);
        assert(t.len() == 3 || t.len() == 8);
        assert forall|k: int| 0 <= k < s.len() implies s[k] != 0x3b by {
            if k >= start {
                let j = k - start;
                assert(low[j] == lower(t[j]));
                assert(t[j] == s[k]);
                if s[k] == 0x3b {
                    assert(low[j] == 0x3b);
                    assert(w1[j] != 0x3b && w2[j] != 0x3b && w3[j] != 0x3b);
                }
            }
        }
    } else {
        lemma_state_chars(s, 0, start);
        assert(num_start(s, start));
        assert(start < s.len());
    }
}

} // verus!

verus! {

/// Scanning right after a digit field finds the delimiter that closes it.
proof fn lemma_scan_digits(data: Seq<u8>, p: int, f: Seq<u8>, delim: u8)
    requires
        0 <= p,
        f.len() >= 1,
        all_digits(f),
        p + f.len() < data.len(),
        forall|k: int| 0 <= k < f.len() ==> data[p + k] == f[k],
        data[p + f.len()] == delim,
        !is_digit(delim),
    ensures
        crate::grammar::scan_dist(data, p + 1, delim) == Some((f.len() - 1) as nat),
{
    assert forall|k: int| p + 1 <= k < p + f.len() implies data[k] != delim by {
        assert(data[p + (k - p)] == f[k - p]);
        assert(is_digit(f[k - p]));
    }
    lemma_scan_dist_exact(data, p + 1, delim, p + f.len());
}

/// Decoding what the float branch wrote yields the literal back.
proof fn lemma_rt_float(t: Seq<u8>, data: Seq<u8>, pos: int, cap: int)
    requires
        0 <= pos,
        is_float_lit(t),
        pos + t.len() + 3 <= data.len(),
        data.subrange(pos, pos + t.len() + 3) == seq![0x64u8, 0x3au8] + t + seq![0x3bu8],
        data.len() <= cap,
    ensures
        spec_decode(data, pos, cap, false) == Ok::<(SpecValue, int), Error>(
            (SpecValue::Float(t), pos + t.len() + 3),
        ),
{
    let w = seq![0x64u8, 0x3au8] + t + seq![0x3bu8];
    lemma_window(data, pos, w);
    lemma_float_field(t);
    assert(w[0] == 0x64 && w[1] == 0x3a);
    assert(forall|j: int| 0 <= j < t.len() ==> w[2 + j] == t[j]);
    assert(w[t.len() + 2int] == 0x3b);
    assert forall|k: int| pos + 3 <= k < pos + 2 + t.len() implies data[k] != 0x3b by {
        assert(data[k] == w[k - pos]);
        assert(w[k - pos] == t[k - pos - 2]);
    }
    assert(data[pos + 2 + t.len()] == 0x3b);
    lemma_scan_dist_exact(data, pos + 3, 0x3b, pos + 2 + t.len());
    assert(data.subrange(pos + 2, pos + 2 + t.len()) =~= t);
}

/// Decoding what the reference branch wrote yields the index back.
proof fn lemma_rt_ref(ix: usize, data: Seq<u8>, pos: int, cap: int)
    requires
        0 <= pos,
        pos + fmt_nat(ix as nat).len() + 3 <= data.len(),
        data.subrange(pos, pos + fmt_nat(ix as nat).len() + 3) == seq![0x52u8, 0x3au8] + fmt_nat(
            ix as nat,
        ) + seq![0x3bu8],
        data.len() <= cap,
    ensures
        spec_decode(data, pos, cap, false) == Ok::<(SpecValue, int), Error>(
            (SpecValue::Refer(ix), pos + fmt_nat(ix as nat).len() + 3),
        ),
{
    let f = fmt_nat(ix as nat);
    let m = f.len() as int;
    let w = seq![0x52u8, 0x3au8] + f + seq![0x3bu8];
    lemma_fmt_nat_digits(ix as nat);
    lemma_window(data, pos, w);
    assert(w[0] == 0x52 && w[1] == 0x3a);
    assert(forall|j: int| 0 <= j < m ==> w[2 + j] == f[j]);
    assert(w[m + 2] == 0x3b);
    assert(forall|k: int| 0 <= k < m ==> data[pos + 2 + k] == f[k]);
    lemma_scan_digits(data, pos + 2, f, 0x3b);
    assert(data.subrange(pos + 2, pos + 2 + m) =~= f);
    lemma_parse_fmt_nat(ix as nat);
}

/// Decoding what the custom-serialization branch wrote yields the class and
/// payload back.
#[verifier::rlimit(100)]
#[verifier::spinoff_prover]
proof fn lemma_rt_ser(cls: Seq<u8>, dat: Seq<u8>, data: Seq<u8>, pos: int, cap: int)
    requires
        0 <= pos,
        cls.len() <= usize::MAX,
        dat.len() <= usize::MAX,
        pos + spec_encode(SpecValue::Ser(cls, dat)).len() <= data.len(),
        data.subrange(pos, pos + spec_encode(SpecValue::Ser(cls, dat)).len()) == spec_encode(
            SpecValue::Ser(cls, dat),
        ),
        data.len() <= cap,
    ensures
        spec_decode(data, pos, cap, false) == Ok::<(SpecValue, int), Error>(
            (SpecValue::Ser(cls, dat), pos + spec_encode(SpecValue::Ser(cls, dat)).len()),
        ),
{
    let w = spec_encode(SpecValue::Ser(cls, dat));
    let f1 = fmt_nat(cls.len());
    let m1 = f1.len() as int;
    let nc = cls.len() as int;
    let f2 = fmt_nat(dat.len());
    let m2 = f2.len() as int;
    let nd = dat.len() as int;
    lemma_fmt_nat_digits(cls.len());
    lemma_fmt_nat_digits(dat.len());
    lemma_window(data, pos, w);
    assert(w =~= seq![0x43u8, 0x3au8] + f1 + seq![0x3au8, 0x22u8] + cls + seq![0x22u8, 0x3au8]
        + f2 + seq![0x3au8, 0x7bu8] + dat + seq![0x7du8]);
    assert(w.len() == m1 + nc + m2 + nd + 9);
    assert(w[0] == 0x43 && w[1] == 0x3a);
    assert(forall|j: int| 0 <= j < m1 ==> w[2 + j] == f1[j]);
    assert(w[m1 + 2] == 0x3a && w[m1 + 3] == 0x22);
    assert(forall|j: int| 0 <= j < nc ==> w[m1 + 4 + j] == cls[j]);
    assert(w[m1 + nc + 4] == 0x22 && w[m1 + nc + 5] == 0x3a);
    assert(forall|j: int| 0 <= j < m2 ==> w[m1 + nc + 6 + j] == f2[j]);
    assert(w[m1 + nc + m2 + 6] == 0x3a && w[m1 + nc + m2 + 7] == 0x7b);
    assert(forall|j: int| 0 <= j < nd ==> w[m1 + nc + m2 + 8 + j] == dat[j]);
    assert(w[m1 + nc + m2 + nd + 8] == 0x7d);
    assert(forall|k: int| 0 <= k < m1 ==> data[pos + 2 + k] == f1[k]);
    lemma_scan_digits(data, pos + 2, f1, 0x3a);
    assert(data.subrange(pos + 2, pos + 2 + m1) =~= f1);
    lemma_parse_fmt_nat(cls.len());
    assert(data[pos + m1 + 3] == 0x22);
    assert(data.subrange(pos + m1 + 4, pos + m1 + 4 + nc) =~= cls);
    assert(data[pos + m1 + nc + 4] == 0x22);
    assert(data[pos + m1 + nc + 5] == 0x3a);
    assert(forall|k: int| 0 <= k < m2 ==> data[pos + m1 + nc + 6 + k] == f2[k]);
    lemma_scan_digits(data, pos + m1 + nc + 6, f2, 0x3a);
    assert(data.subrange(pos + m1 + nc + 6, pos + m1 + nc + 6 + m2) =~= f2);
    lemma_parse_fmt_nat(dat.len());
    assert(data[pos + m1 + nc + m2 + 7] == 0x7b);
    assert(data.subrange(pos + m1 + nc + m2 + 8, pos + m1 + nc + m2 + 8 + nd) =~= dat);
    assert(data[pos + m1 + nc + m2 + nd + 8] == 0x7d);
}

/// Demangling inverts mangling: for every well-formed property name, the
/// raw bytes the encoder writes demangle back to the same visibility and
/// name.
pub proof fn lemma_demangle_mangle(vis: SpecVis, name: Seq<u8>)
    requires
        wf_prop(SpecProp { vis, name }),
    ensures
        spec_demangle(spec_mangle(vis, name)) == Ok::<(SpecVis, Seq<u8>), crate::grammar::DemangleFault>(
            (vis, name),
        ),
{
    match vis {
        SpecVis::Public => {
        },
        SpecVis::Protected => {
            let raw = seq![0u8, 0x2au8, 0u8] + name;
            assert(raw[0] == 0 && raw[1] == 0x2a && raw[2] == 0);
            assert(raw.skip(3) =~= name);
        },
        SpecVis::Private(class) => {
            let raw = seq![0u8] + class + seq![0u8] + name;
            assert(raw =~= seq![0u8] + class + seq![0u8] + name);
            let c = class.len() as int;
            assert(raw.len() == c + 2 + name.len());
            assert(raw[0] == 0);
            assert(forall|j: int| 0 <= j < c ==> raw[1 + j] == class[j]);
            assert(raw[c + 1] == 0);
            assert(forall|j: int| 0 <= j < name.len() ==> raw[c + 2 + j] == name[j]);
            if c > 0 {
                assert(raw[1] == class[0]);
                assert(raw[1] != 0x2a);
            } else {
                assert(raw[1] == 0);
            }
            assert forall|k: int| 1 <= k < c + 1 implies raw[k] != 0 by {
                assert(raw[1 + (k - 1)] == class[k - 1]);
            }
            lemma_scan_dist_exact(raw, 1, 0, c + 1);
            assert(raw.subrange(1, 1 + c) =~= class);
            assert(raw.skip(c + 2) =~= name);
        },
    }
}

/// The encoded form of an array's pairs is at least as long as their count.
proof fn lemma_enc_pairs_len_ge(ps: Seq<(SpecKey, SpecValue)>)
    ensures
        spec_encode_pairs(ps).len() >= ps.len(),
    decreases ps,
{
    if ps.len() > 0 {
        lemma_enc_pairs_len_ge(ps.drop_first());
        assert(spec_encode_key(ps[0].0).len() >= 1);
    }
}

/// The encoded form of an object's properties is at least as long as their
/// count.
proof fn lemma_enc_props_len_ge(ps: Seq<(SpecProp, SpecValue)>)
    ensures
        spec_encode_props(ps).len() >= ps.len(),
    decreases ps,
{
    if ps.len() > 0 {
        lemma_enc_props_len_ge(ps.drop_first());
        assert(enc_str(spec_mangle(ps[0].0.vis, ps[0].0.name)).len() >= 1);
    }
}

} // verus!

verus! {

/// Every encoded value takes at least its tag and one more byte.
proof fn lemma_enc_len_ge2(v: SpecValue)
    ensures
        spec_encode(v).len() >= 2,
{
    match v {
        SpecValue::Null => {},
        SpecValue::Bool(_) => {},
        SpecValue::Int(_) => {},
        SpecValue::Float(_) => {},
        SpecValue::Str(_) => {},
        SpecValue::Arr(_) => {},
        SpecValue::Obj(_, _) => {},
        SpecValue::Ser(_, _) => {},
        SpecValue::Refer(_) => {},
    }
}

/// Decoding what the array branch wrote yields the pairs back, in order.
#[verifier::rlimit(100)]
#[verifier::spinoff_prover]
proof fn lemma_rt_arr(ps: Seq<(SpecKey, SpecValue)>, data: Seq<u8>, pos: int, cap: int)
    requires
        0 <= pos,
        wf_pairs(ps),
        ps.len() <= usize::MAX,
        pos + spec_encode(SpecValue::Arr(ps)).len() <= data.len(),
        data.subrange(pos, pos + spec_encode(SpecValue::Arr(ps)).len()) == spec_encode(
            SpecValue::Arr(ps),
        ),
        data.len() <= cap,
    ensures
        spec_decode(data, pos, cap, false) == Ok::<(SpecValue, int), Error>(
            (SpecValue::Arr(ps), pos + spec_encode(SpecValue::Arr(ps)).len()),
        ),
    decreases ps, 2int,
{
    let w = spec_encode(SpecValue::Arr(ps));
    let f = fmt_nat(ps.len());
    let m = f.len() as int;
    let ep = spec_encode_pairs(ps);
    let el = ep.len() as int;
    lemma_fmt_nat_digits(ps.len());
    lemma_window(data, pos, w);
    assert(w =~= seq![0x61u8, 0x3au8] + f + seq![0x3au8, 0x7bu8] + ep + seq![0x7du8]);
    assert(w.len() == m + el + 5);
    assert(w[0] == 0x61 && w[1] == 0x3a);
    assert(forall|j: int| 0 <= j < m ==> w[2 + j] == f[j]);
    assert(w[m + 2] == 0x3a && w[m + 3] == 0x7b);
    assert(forall|j: int| 0 <= j < el ==> w[m + 4 + j] == ep[j]);
    assert(w[m + el + 4] == 0x7d);
    assert(forall|k: int| 0 <= k < m ==> data[pos + 2 + k] == f[k]);
    lemma_scan_digits(data, pos + 2, f, 0x3a);
    assert(data.subrange(pos + 2, pos + 2 + m) =~= f);
    lemma_parse_fmt_nat(ps.len());
    assert(data[pos + m + 3] == 0x7b);
    lemma_enc_pairs_len_ge(ps);
    let p4 = pos + m + 4;
    assert forall|j: int| 0 <= j < el implies data.subrange(p4, p4 + el)[j] == ep[j] by {
        assert(data[pos + (m + 4 + j)] == w[m + 4 + j]);
        assert(data.subrange(p4, p4 + el)[j] == data[p4 + j]);
    }
    assert(data.subrange(p4, p4 + el) =~= ep);
    lemma_rt_pairs(ps, data, p4, cap);
    assert(data[p4 + el] == 0x7d);
}

/// Decoding what the object branch wrote yields the class and properties
/// back, with each name's visibility recovered.
#[verifier::rlimit(100)]
#[verifier::spinoff_prover]
proof fn lemma_rt_obj(cls: Seq<u8>, ps: Seq<(SpecProp, SpecValue)>, data: Seq<u8>, pos: int, cap: int)
    requires
        0 <= pos,
        wf_props(ps),
        cls.len() <= usize::MAX,
        ps.len() <= usize::MAX,
        pos + spec_encode(SpecValue::Obj(cls, ps)).len() <= data.len(),
        data.subrange(pos, pos + spec_encode(SpecValue::Obj(cls, ps)).len()) == spec_encode(
            SpecValue::Obj(cls, ps),
        ),
        data.len() <= cap,
    ensures
        spec_decode(data, pos, cap, false) == Ok::<(SpecValue, int), Error>(
            (SpecValue::Obj(cls, ps), pos + spec_encode(SpecValue::Obj(cls, ps)).len()),
        ),
    decreases ps, 2int,
{
    let w = spec_encode(SpecValue::Obj(cls, ps));
    let f1 = fmt_nat(cls.len());
    let m1 = f1.len() as int;
    let nc = cls.len() as int;
    let f2 = fmt_nat(ps.len());
    let m2 = f2.len() as int;
    let ep = spec_encode_props(ps);
    let el = ep.len() as int;
    lemma_fmt_nat_digits(cls.len());
    lemma_fmt_nat_digits(ps.len());
    lemma_window(data, pos, w);
    assert(w =~= seq![0x4fu8, 0x3au8] + f1 + seq![0x3au8, 0x22u8] + cls + seq![0x22u8, 0x3au8]
        + f2 + seq![0x3au8, 0x7bu8] + ep + seq![0x7du8]);
    assert(w.len() == m1 + nc + m2 + el + 9);
    assert(w[0] == 0x4f && w[1] == 0x3a);
    assert(forall|j: int| 0 <= j < m1 ==> w[2 + j] == f1[j]);
    assert(w[m1 + 2] == 0x3a && w[m1 + 3] == 0x22);
    assert(forall|j: int| 0 <= j < nc ==> w[m1 + 4 + j] == cls[j]);
    assert(w[m1 + nc + 4] == 0x22 && w[m1 + nc + 5] == 0x3a);
    assert(forall|j: int| 0 <= j < m2 ==> w[m1 + nc + 6 + j] == f2[j]);
    assert(w[m1 + nc + m2 + 6] == 0x3a && w[m1 + nc + m2 + 7] == 0x7b);
    assert(forall|j: int| 0 <= j < el ==> w[m1 + nc + m2 + 8 + j] == ep[j]);
    assert(w[m1 + nc + m2 + el + 8] == 0x7d);
    assert(forall|k: int| 0 <= k < m1 ==> data[pos + 2 + k] == f1[k]);
    lemma_scan_digits(data, pos + 2, f1, 0x3a);
    assert(data.subrange(pos + 2, pos + 2 + m1) =~= f1);
    lemma_parse_fmt_nat(cls.len());
    assert(data[pos + m1 + 3] == 0x22);
    assert(data.subrange(pos + m1 + 4, pos + m1 + 4 + nc) =~= cls);
    assert(data[pos + m1 + nc + 4] == 0x22);
    assert(data[pos + m1 + nc + 5] == 0x3a);
    assert(forall|k: int| 0 <= k < m2 ==> data[pos + m1 + nc + 6 + k] == f2[k]);
    lemma_scan_digits(data, pos + m1 + nc + 6, f2, 0x3a);
    assert(data.subrange(pos + m1 + nc + 6, pos + m1 + nc + 6 + m2) =~= f2);
    lemma_parse_fmt_nat(ps.len());
    lemma_enc_props_len_ge(ps);
    assert(data[pos + m1 + nc + m2 + 7] == 0x7b);
    let p9 = pos + m1 + nc + m2 + 8;
    assert forall|j: int| 0 <= j < el implies data.subrange(p9, p9 + el)[j] == ep[j] by {
        assert(data[pos + (m1 + nc + m2 + 8 + j)] == w[m1 + nc + m2 + 8 + j]);
        assert(data.subrange(p9, p9 + el)[j] == data[p9 + j]);
    }
    assert(data.subrange(p9, p9 + el) =~= ep);
    lemma_rt_props(ps, data, p9, cap);
    assert(data[p9 + el] == 0x7d);
}

/// Decoding what the pair encoder wrote yields the pairs back, in order.
#[verifier::rlimit(100)]
#[verifier::spinoff_prover]
proof fn lemma_rt_pairs(ps: Seq<(SpecKey, SpecValue)>, data: Seq<u8>, pos: int, cap: int)
    requires
        0 <= pos,
        wf_pairs(ps),
        pos + spec_encode_pairs(ps).len() <= data.len(),
        data.subrange(pos, pos + spec_encode_pairs(ps).len()) == spec_encode_pairs(ps),
        data.len() <= cap,
    ensures
        spec_decode_pairs(data, pos, cap, false, ps.len()) == Ok::<
            (Seq<(SpecKey, SpecValue)>, int),
            Error,
        >((ps, pos + spec_encode_pairs(ps).len())),
    decreases ps, 1int,
{
    if ps.len() == 0 {
        assert(spec_encode_pairs(ps).len() == 0);
        assert(Seq::<(SpecKey, SpecValue)>::empty() =~= ps);
    } else {
        let k0 = ps[0].0;
        let v0 = ps[0].1;
        let d = ps.drop_first();
        let ek = spec_encode_key(k0);
        let ev = spec_encode(v0);
        let er = spec_encode_pairs(d);
        let ep = spec_encode_pairs(ps);
        assert(ep == ek + ev + er);
        assert(ep =~= ek + (ev + er));
        lemma_window_split(data, pos, ek, ev + er);
        lemma_window_split(data, pos + ek.len(), ev, er);
        assert(wf_key(ps[0].0) && wf_value(ps[0].1));
        lemma_enc_len_ge2(v0);
        let pk = pos + ek.len() as int;
        match k0 {
            SpecKey::Int(i) => {
                assert(ek == enc_int(i));
                assert(ek.len() >= 3);
                lemma_rt_int(i, data, pos, cap);
            },
            SpecKey::Str(s) => {
                assert(ek == enc_str(s));
                assert(ek.len() >= 6);
                lemma_rt_str(s, data, pos, cap);
            },
        }
        lemma_rt_value(v0, data, pk, cap);
        let pv = pk + ev.len() as int;
        assert forall|i: int| 0 <= i < d.len() implies wf_key((#[trigger] d[i]).0) && wf_value(
            d[i].1,
        ) by {
            assert(d[i] == ps[i + 1]);
        }
        lemma_rt_pairs(d, data, pv, cap);
        assert(seq![(k0, v0)] + d =~= ps);
    }
}

/// Decoding what the property encoder wrote yields the properties back, in
/// order, with visibility recovered.
#[verifier::rlimit(100)]
#[verifier::spinoff_prover]
proof fn lemma_rt_props(ps: Seq<(SpecProp, SpecValue)>, data: Seq<u8>, pos: int, cap: int)
    requires
        0 <= pos,
        wf_props(ps),
        pos + spec_encode_props(ps).len() <= data.len(),
        data.subrange(pos, pos + spec_encode_props(ps).len()) == spec_encode_props(ps),
        data.len() <= cap,
    ensures
        spec_decode_props(data, pos, cap, false, ps.len()) == Ok::<
            (Seq<(SpecProp, SpecValue)>, int),
            Error,
        >((ps, pos + spec_encode_props(ps).len())),
    decreases ps, 1int,
{
    if ps.len() == 0 {
        assert(spec_encode_props(ps).len() == 0);
        assert(Seq::<(SpecProp, SpecValue)>::empty() =~= ps);
    } else {
        let p0 = ps[0].0;
        let v0 = ps[0].1;
        let d = ps.drop_first();
        let raw = spec_mangle(p0.vis, p0.name);
        let ek = enc_str(raw);
        let ev = spec_encode(v0);
        let er = spec_encode_props(d);
        let ep = spec_encode_props(ps);
        assert(ep == ek + ev + er);
        assert(ep =~= ek + (ev + er));
        lemma_window_split(data, pos, ek, ev + er);
        lemma_window_split(data, pos + ek.len(), ev, er);
        assert(wf_prop(ps[0].0) && wf_value(ps[0].1));
        lemma_enc_len_ge2(v0);
        assert(ek.len() >= 6);
        let pk = pos + ek.len() as int;
        assert(raw.len() <= usize::MAX);
        lemma_rt_str(raw, data, pos, cap);
        assert(p0 == SpecProp { vis: p0.vis, name: p0.name });
        lemma_demangle_mangle(p0.vis, p0.name);
        lemma_rt_value(v0, data, pk, cap);
        let pv = pk + ev.len() as int;
        assert forall|i: int| 0 <= i < d.len() implies wf_prop((#[trigger] d[i]).0) && wf_value(
            d[i].1,
        ) by {
            assert(d[i] == ps[i + 1]);
        }
        lemma_rt_props(d, data, pv, cap);
        assert(seq![(p0, v0)] + d =~= ps);
    }
}

/// Decoding what the encoder wrote, at any position of a larger buffer,
/// yields the encoded value back and stops right after it.
proof fn lemma_rt_value(v: SpecValue, data: Seq<u8>, pos: int, cap: int)
    requires
        0 <= pos,
        wf_value(v),
        pos + spec_encode(v).len() <= data.len(),
        data.subrange(pos, pos + spec_encode(v).len()) == spec_encode(v),
        data.len() <= cap,
    ensures
        spec_decode(data, pos, cap, false) == Ok::<(SpecValue, int), Error>(
            (v, pos + spec_encode(v).len()),
        ),
    decreases v, 0int,
{
    let w = spec_encode(v);
    lemma_window(data, pos, w);
    match v {
        SpecValue::Null => {
            assert(w =~= seq![0x4eu8, 0x3bu8]);
        },
        SpecValue::Bool(b) => {
            assert(w =~= seq![0x62u8, 0x3au8, if b { 0x31u8 } else { 0x30u8 }, 0x3bu8]);
        },
        SpecValue::Int(i) => {
            lemma_rt_int(i, data, pos, cap);
        },
        SpecValue::Float(t) => {
            lemma_rt_float(t, data, pos, cap);
        },
        SpecValue::Str(s) => {
            lemma_rt_str(s, data, pos, cap);
        },
        SpecValue::Arr(ps) => {
            lemma_rt_arr(ps, data, pos, cap);
        },
        SpecValue::Obj(cls, ps) => {
            lemma_rt_obj(cls, ps, data, pos, cap);
        },
        SpecValue::Ser(cls, dat) => {
            lemma_rt_ser(cls, dat, data, pos, cap);
        },
        SpecValue::Refer(ix) => {
            lemma_rt_ref(ix, data, pos, cap);
        },
    }
}

/// Round trip: decoding an encoded tree yields the tree back.
///
/// For every value tree the grammar can produce, decoding its wire bytes
/// under the ceiling given by their own length succeeds, consumes exactly
/// those bytes, and reconstructs an equal tree: equal tag, scalar value,
/// array pairs in order, object class and properties in order including
/// recovered visibility, serializable class and payload, and reference
/// index.
pub proof fn lemma_round_trip(v: SpecValue)
    requires
        wf_value(v),
    ensures
        spec_decode(spec_encode(v), 0, spec_encode(v).len() as int, false) == Ok::<
            (SpecValue, int),
            Error,
        >((v, spec_encode(v).len() as int)),
{
    let data = spec_encode(v);
    assert(data.subrange(0, data.len() as int) =~= data);
    lemma_rt_value(v, data, 0, data.len() as int);
}

/// Determinism: the decode result is a function of the byte sequence, the
/// allocation ceiling and the representation alone, so decoding the same
/// bytes twice yields the same tree or the same error with the same offset.
pub proof fn lemma_decode_deterministic(d1: Seq<u8>, d2: Seq<u8>, pos: int, cap: int, text: bool)
    requires
        d1 == d2,
    ensures
        spec_decode(d1, pos, cap, text) == spec_decode(d2, pos, cap, text),
{
}

} // verus!
