use vstd::prelude::*;

use crate::grammar::{
    enc_int, enc_str, spec_encode, spec_encode_key, spec_encode_pairs, spec_encode_props,
    spec_mangle, wf_key, wf_pairs, wf_prop, wf_props, wf_value, SpecValue,
};
use crate::numbers::{push_decimal_i64, push_decimal_u64};
use crate::str_trait::Str;
use crate::types::{
    lemma_inv_pairs_at, lemma_inv_props_at, lemma_spec_of_pairs_at, lemma_spec_of_pairs_len,
    lemma_spec_of_props_at, lemma_spec_of_props_len, spec_of_pairs, spec_of_props, ArrayKey,
    Object, PropertyName, PropertyVis, Serializable, Value,
};

verus! {

broadcast use vstd::seq::group_seq_axioms, vstd::std_specs::vec::group_vec_axioms;

/// Appends all of `bytes`.
fn push_bytes(out: &mut Vec<u8>, bytes: &[u8])
    ensures
        final(out)@ == old(out)@ + bytes@,
{
    let n = bytes.len();
    let mut i: usize = 0;
    while i < n
        invariant
            i <= n,
            n == bytes@.len(),
            out@ == old(out)@ + bytes@.take(i as int),
        decreases n - i,
    {
        out.push(bytes[i]);
        proof {
            assert(old(out)@ + bytes@.take(i + 1) =~= (old(out)@ + bytes@.take(i as int)).push(
                bytes@[i as int],
            ));
        }
        i = i + 1;
    }
    proof {
        assert(bytes@.take(n as int) =~= bytes@);
    }
}

/// Appends `s:<len>:"<bytes>";` for the given bytes.
fn push_quoted(out: &mut Vec<u8>, bytes: &[u8])
    ensures
        final(out)@ == old(out)@ + enc_str(bytes@),
{
    out.push(0x73);
    out.push(0x3a);
    push_decimal_u64(bytes.len() as u64, out);
    out.push(0x3a);
    out.push(0x22);
    push_bytes(out, bytes);
    out.push(0x22);
    out.push(0x3b);
    proof {
        assert(final(out)@ =~= old(out)@ + enc_str(bytes@));
    }
}

/// Appends the wire form of an array key.
fn push_key<S: Str>(key: &ArrayKey<S>, out: &mut Vec<u8>)
    requires
        key.inv(),
    ensures
        final(out)@ == old(out)@ + spec_encode_key(key.to_spec()),
{
    match key {
        ArrayKey::Int(i) => {
            out.push(0x69);
            out.push(0x3a);
            push_decimal_i64(*i, out);
            out.push(0x3b);
            proof {
                assert(final(out)@ =~= old(out)@ + enc_int(*i));
            }
        },
        ArrayKey::String(s) => {
            push_quoted(out, s.as_bytes());
        },
    }
}

/// `spec_encode_pairs` grows tail-first, one encoded pair at a time.
proof fn lemma_enc_pairs_take_step(ps: Seq<(crate::grammar::SpecKey, SpecValue)>, i: int)
    requires
        0 <= i < ps.len(),
    ensures
        spec_encode_pairs(ps.take(i + 1)) == spec_encode_pairs(ps.take(i)) + (spec_encode_key(
            ps[i].0,
        ) + spec_encode(ps[i].1)),
    decreases i,
{
    let a = ps.take(i + 1);
    if i == 0 {
        assert(a.drop_first() =~= Seq::<(crate::grammar::SpecKey, SpecValue)>::empty());
        assert(ps.take(0) =~= Seq::<(crate::grammar::SpecKey, SpecValue)>::empty());
        assert(spec_encode_pairs(a) =~= spec_encode_pairs(ps.take(0)) + (spec_encode_key(ps[0].0)
            + spec_encode(ps[0].1)));
    } else {
        lemma_enc_pairs_take_step(ps.subrange(1, ps.len() as int), i - 1);
        assert(a.drop_first() =~= ps.subrange(1, ps.len() as int).take(i));
        assert(ps.take(i).drop_first() =~= ps.subrange(1, ps.len() as int).take(i - 1));
        let tail = ps.subrange(1, ps.len() as int);
        assert(tail.take(i - 1 + 1) =~= a.drop_first());
        assert(tail[i - 1] == ps[i]);
        assert(spec_encode_pairs(a) == spec_encode_key(a[0].0) + spec_encode(a[0].1)
            + spec_encode_pairs(a.drop_first()));
        assert(spec_encode_pairs(ps.take(i)) == spec_encode_key(ps[0].0) + spec_encode(ps[0].1)
            + spec_encode_pairs(tail.take(i - 1)));
        assert(spec_encode_pairs(a) =~= spec_encode_pairs(ps.take(i)) + (spec_encode_key(ps[i].0)
            + spec_encode(ps[i].1)));
    }
}

/// `spec_encode_props` grows tail-first, one encoded property at a time.
proof fn lemma_enc_props_take_step(ps: Seq<(crate::grammar::SpecProp, SpecValue)>, i: int)
    requires
        0 <= i < ps.len(),
    ensures
        spec_encode_props(ps.take(i + 1)) == spec_encode_props(ps.take(i)) + (enc_str(
            spec_mangle(ps[i].0.vis, ps[i].0.name),
        ) + spec_encode(ps[i].1)),
    decreases i,
{
    let a = ps.take(i + 1);
    if i == 0 {
        assert(a.drop_first() =~= Seq::<(crate::grammar::SpecProp, SpecValue)>::empty());
        assert(ps.take(0) =~= Seq::<(crate::grammar::SpecProp, SpecValue)>::empty());
        assert(spec_encode_props(a) =~= spec_encode_props(ps.take(0)) + (enc_str(
            spec_mangle(ps[0].0.vis, ps[0].0.name),
        ) + spec_encode(ps[0].1)));
    } else {
        lemma_enc_props_take_step(ps.subrange(1, ps.len() as int), i - 1);
        let tail = ps.subrange(1, ps.len() as int);
        assert(a.drop_first() =~= tail.take(i));
        assert(ps.take(i).drop_first() =~= tail.take(i - 1));
        assert(tail[i - 1] == ps[i]);
        assert(spec_encode_props(a) == enc_str(spec_mangle(a[0].0.vis, a[0].0.name))
            + spec_encode(a[0].1) + spec_encode_props(a.drop_first()));
        assert(spec_encode_props(ps.take(i)) == enc_str(spec_mangle(ps[0].0.vis, ps[0].0.name))
            + spec_encode(ps[0].1) + spec_encode_props(tail.take(i - 1)));
        assert(spec_encode_props(a) =~= spec_encode_props(ps.take(i)) + (enc_str(
            spec_mangle(ps[i].0.vis, ps[i].0.name),
        ) + spec_encode(ps[i].1)));
    }
}

impl<S: Str> Value<S> {
    /// Serializes this tree back to wire bytes: the exact byte sequence the
    /// grammar's encode function assigns to it.
    pub fn encode(&self) -> (out: Vec<u8>)
        requires
            self.inv(),
            wf_value(self.to_spec()),
        ensures
            out@ == spec_encode(self.to_spec()),
    {
        let mut out: Vec<u8> = Vec::new();
        encode_into(self, &mut out);
        out
    }
}

/// Appends the wire form of one value.
#[verifier::loop_isolation(false)]
#[verifier::rlimit(100)]
#[verifier::spinoff_prover]
fn encode_into<S: Str>(v: &Value<S>, out: &mut Vec<u8>)
    requires
        v.inv(),
        wf_value(v.to_spec()),
    ensures
        final(out)@ == old(out)@ + spec_encode(v.to_spec()),
    decreases v,
{
    match v {
        Value::Null => {
            out.push(0x4e);
            out.push(0x3b);
            proof {
                assert(final(out)@ =~= old(out)@ + spec_encode(v.to_spec()));
            }
        },
        Value::Bool(b) => {
            out.push(0x62);
            out.push(0x3a);
            out.push(if *b {
                0x31
            } else {
                0x30
            });
            out.push(0x3b);
            proof {
                assert(final(out)@ =~= old(out)@ + spec_encode(v.to_spec()));
            }
        },
        Value::Int(i) => {
            out.push(0x69);
            out.push(0x3a);
            push_decimal_i64(*i, out);
            out.push(0x3b);
            proof {
                assert(final(out)@ =~= old(out)@ + spec_encode(v.to_spec()));
            }
        },
        Value::Float(t) => {
            out.push(0x64);
            out.push(0x3a);
            push_bytes(out, t.as_bytes());
            out.push(0x3b);
            proof {
                assert(final(out)@ =~= old(out)@ + spec_encode(v.to_spec()));
            }
        },
        Value::String(s) => {
            push_quoted(out, s.as_bytes());
        },
        Value::Array(pairs) => {
            out.push(0x61);
            out.push(0x3a);
            push_decimal_u64(pairs.len() as u64, out);
            out.push(0x3a);
            out.push(0x7b);
            let ghost header = out@;
            let ghost sps = spec_of_pairs(pairs@);
            proof {
                assert(pairs@.take(0int) =~= Seq::<(ArrayKey<S>, Value<S>)>::empty());
                assert(sps.take(0int) =~= Seq::<(crate::grammar::SpecKey, SpecValue)>::empty());
            }
            let n = pairs.len();
            let mut i: usize = 0;
            while i < n
                invariant
                    i <= n,
                    out@ == header + spec_encode_pairs(sps.take(i as int)),
                decreases n - i,
            {
                proof {
                    lemma_spec_of_pairs_len(pairs@);
                    lemma_spec_of_pairs_at(pairs@, i as int);
                    lemma_inv_pairs_at(pairs@, i as int);
                }
                let pair = &pairs[i];
                push_key(&pair.0, out);
                encode_into(&pair.1, out);
                proof {
                    lemma_enc_pairs_take_step(sps, i as int);
                }
                i = i + 1;
            }
            out.push(0x7d);
            proof {
                lemma_spec_of_pairs_len(pairs@);
                assert(sps.take(n as int) =~= sps);
                assert(final(out)@ =~= old(out)@ + spec_encode(v.to_spec()));
            }
        },
        Value::Object(o) => {
            out.push(0x4f);
            out.push(0x3a);
            push_decimal_u64(o.class.len() as u64, out);
            out.push(0x3a);
            out.push(0x22);
            push_bytes(out, o.class.as_bytes());
            out.push(0x22);
            out.push(0x3a);
            push_decimal_u64(o.properties.len() as u64, out);
            out.push(0x3a);
            out.push(0x7b);
            let ghost header = out@;
            let ghost sps = spec_of_props(o.properties@);
            proof {
                assert(sps.take(0int) =~= Seq::<(crate::grammar::SpecProp, SpecValue)>::empty());
            }
            let n = o.properties.len();
            let mut i: usize = 0;
            while i < n
                invariant
                    i <= n,
                    out@ == header + spec_encode_props(sps.take(i as int)),
                decreases n - i,
            {
                proof {
                    lemma_spec_of_props_len(o.properties@);
                    lemma_spec_of_props_at(o.properties@, i as int);
                    lemma_inv_props_at(o.properties@, i as int);
                }
                let pair = &o.properties[i];
                push_mangled(&pair.0, out);
                encode_into(&pair.1, out);
                proof {
                    lemma_enc_props_take_step(sps, i as int);
                }
                i = i + 1;
            }
            out.push(0x7d);
            proof {
                lemma_spec_of_props_len(o.properties@);
                assert(sps.take(n as int) =~= sps);
                assert(final(out)@ =~= old(out)@ + spec_encode(v.to_spec()));
            }
        },
        Value::Serializable(c) => {
            out.push(0x43);
            out.push(0x3a);
            push_decimal_u64(c.class.len() as u64, out);
            out.push(0x3a);
            out.push(0x22);
            push_bytes(out, c.class.as_bytes());
            out.push(0x22);
            out.push(0x3a);
            push_decimal_u64(c.data.len() as u64, out);
            out.push(0x3a);
            out.push(0x7b);
            push_bytes(out, c.data.as_bytes());
            out.push(0x7d);
            proof {
                assert(final(out)@ =~= old(out)@ + spec_encode(v.to_spec()));
            }
        },
        Value::Reference(r) => {
            out.push(0x52);
            out.push(0x3a);
            push_decimal_u64(r.0 as u64, out);
            out.push(0x3b);
            proof {
                assert(final(out)@ =~= old(out)@ + spec_encode(v.to_spec()));
            }
        },
    }
}

/// Appends `s:<len>:"<mangled name>";` for a property name, mangling its
/// visibility back into the raw bytes.
fn push_mangled<S: Str>(p: &PropertyName<S>, out: &mut Vec<u8>)
    requires
        p.inv(),
        wf_prop(p.to_spec()),
    ensures
        final(out)@ == old(out)@ + enc_str(spec_mangle(p.to_spec().vis, p.to_spec().name)),
{
    match &p.vis {
        PropertyVis::Public => {
            push_quoted(out, p.name.as_bytes());
        },
        PropertyVis::Protected => {
            let mut m: Vec<u8> = Vec::new();
            m.push(0);
            m.push(0x2a);
            m.push(0);
            push_bytes(&mut m, p.name.as_bytes());
            push_quoted(out, m.as_slice());
            proof {
                assert(m@ =~= spec_mangle(p.to_spec().vis, p.to_spec().name));
            }
        },
        PropertyVis::Private(class) => {
            let mut m: Vec<u8> = Vec::new();
            m.push(0);
            push_bytes(&mut m, class.as_bytes());
            m.push(0);
            push_bytes(&mut m, p.name.as_bytes());
            push_quoted(out, m.as_slice());
            proof {
                assert(m@ =~= spec_mangle(p.to_spec().vis, p.to_spec().name));
            }
        },
    }
}

} // verus!
