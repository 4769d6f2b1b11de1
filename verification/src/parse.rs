use vstd::prelude::*;

use crate::error::{Error, IoError, IoResult};
use crate::grammar::{
    lemma_scan_dist, lemma_scan_dist_exact, rep_boundary, s_expect, s_read_byte, s_read_until,
    scan_dist, spec_decode, spec_decode_pairs, spec_decode_props, spec_demangle, DemangleFault,
    SpecKey, SpecProp, SpecValue,
};
use crate::numbers::{is_float_literal, parse_i64, parse_usize};
use crate::source::Source;
use crate::str_trait::Str;
use crate::types::{
    inv_pairs, inv_props, lemma_spec_of_pairs_push, lemma_spec_of_props_push, spec_of_pairs,
    spec_of_props, ArrayKey, Object, PropertyName, PropertyVis, Ref, Serializable, Value,
};

verus! {

broadcast use vstd::seq::group_seq_axioms, vstd::std_specs::vec::group_vec_axioms;

/// A stateful wrapper that makes a `Str` a readable `Source`.
///
/// Every read is a slice of the original buffer; the allocation ceiling is
/// the buffer's own length.
pub struct Cursor<S> {
    offset: usize,
    source: S,
}

impl<S: Str> Cursor<S> {
    /// Creates a `Cursor` that reads the whole `Str`.
    pub fn new(source: S) -> (r: Self)
        requires
            source.inv(),
        ensures
            r.wf(),
            r.pos() == 0,
            r.data() == source.sbytes(),
            r.cap() == source.sbytes().len(),
            r.text() == source.checked(),
            r.io_free(),
    {
        Cursor { offset: 0, source }
    }
}

impl<S: Str> Source<S> for Cursor<S> {
    closed spec fn data(&self) -> Seq<u8> {
        self.source.sbytes()
    }

    closed spec fn pos(&self) -> int {
        self.offset as int
    }

    closed spec fn cap(&self) -> int {
        self.source.sbytes().len() as int
    }

    closed spec fn text(&self) -> bool {
        self.source.checked()
    }

    closed spec fn io_free(&self) -> bool {
        true
    }

    closed spec fn wf(&self) -> bool {
        self.source.inv() && self.offset <= self.source.sbytes().len() && rep_boundary(
            self.source.checked(),
            self.source.sbytes(),
            self.offset as int,
        )
    }

    proof fn lemma_wf(&self) {
        self.source.lemma_len();
    }

    fn offset(&self) -> (r: usize) {
        self.offset
    }

    fn limit(&self) -> (r: usize) {
        self.source.len()
    }

    fn read_u8_char(&mut self) -> (r: IoResult<u8>) {
        let len = self.source.len();
        if self.offset >= len {
            return Err(IoError::Phpser(Error::UnexpectedEof));
        }
        match self.source.get_u8_char(self.offset) {
            Some(c) => {
                self.offset = self.offset + 1;
                Ok(c)
            },
            None => Err(IoError::Phpser(Error::BadEncoding(self.offset))),
        }
    }

    fn read_str(&mut self, n: usize) -> (r: IoResult<S>) {
        let len = self.source.len();
        if n > len - self.offset {
            return Err(IoError::Phpser(Error::UnexpectedEof));
        }
        match self.source.clone_slice(self.offset, self.offset + n) {
            Some(s) => {
                self.offset = self.offset + n;
                Ok(s)
            },
            None => Err(IoError::Phpser(Error::BadEncoding(self.offset))),
        }
    }

    fn read_until(&mut self, byte: u8) -> (r: IoResult<S>) {
        let len = self.source.len();
        if self.offset >= len {
            return Err(IoError::Phpser(Error::UnexpectedEof));
        }
        match self.source.find(self.offset, byte) {
            None => {
                proof {
                    lemma_scan_dist(self.source.sbytes(), self.offset + 1, byte);
                    if scan_dist(self.source.sbytes(), self.offset + 1, byte) is Some {
                        assert(false);
                    }
                }
                Err(IoError::Phpser(Error::UnexpectedEof))
            },
            Some(q) => {
                proof {
                    lemma_scan_dist_exact(self.source.sbytes(), self.offset + 1, byte, q as int);
                }
                match self.source.clone_slice(self.offset, q) {
                    Some(s) => {
                        self.offset = q + 1;
                        Ok(s)
                    },
                    None => {
                        proof {
                            assert(false);
                        }
                        Err(IoError::Phpser(Error::UnexpectedEof))
                    },
                }
            },
        }
    }
}

/// Consumes one byte that must equal `c`; any other byte is a `BadToken` at
/// the offset just past it.
pub fn expect_char<S: Str, Src: Source<S>>(source: &mut Src, c: u8) -> (r: IoResult<()>)
    requires
        old(source).wf(),
        c < 0x80,
    ensures
        final(source).wf(),
        final(source).data() == old(source).data(),
        final(source).cap() == old(source).cap(),
        final(source).text() == old(source).text(),
        final(source).io_free() == old(source).io_free(),
        final(source).pos() >= old(source).pos(),
        match r {
            Ok(_) => s_expect(old(source).data(), old(source).pos(), c, old(source).text())
                == Ok::<int, Error>(final(source).pos()),
            Err(IoError::Phpser(e)) => s_expect(
                old(source).data(),
                old(source).pos(),
                c,
                old(source).text(),
            ) == Err::<int, Error>(e) || (!old(source).io_free() && e is BadEncoding),
            Err(IoError::Io(_)) => !old(source).io_free(),
        },
{
    match source.read_u8_char() {
        Ok(b) => {
            if b == c {
                Ok(())
            } else {
                Err(IoError::Phpser(Error::BadToken(source.offset())))
            }
        },
        Err(e) => Err(e),
    }
}

} // verus!

verus! {

/// Decodes `N;` after its tag.
pub fn read_null<S: Str, Src: Source<S>>(source: &mut Src) -> (r: IoResult<Value<S>>)
    requires
        old(source).wf(),
        s_read_byte(old(source).data(), old(source).pos() - 1, old(source).text()) == Ok::<
            (u8, int),
            Error,
        >((0x4e, old(source).pos())),
    ensures
        final(source).wf(),
        final(source).data() == old(source).data(),
        final(source).cap() == old(source).cap(),
        final(source).text() == old(source).text(),
        final(source).io_free() == old(source).io_free(),
        final(source).pos() >= old(source).pos(),
        match r {
            Ok(v) => v.inv() && spec_decode(
                old(source).data(),
                old(source).pos() - 1,
                old(source).cap(),
                old(source).text(),
            ) == Ok::<(SpecValue, int), Error>((v.to_spec(), final(source).pos())),
            Err(IoError::Phpser(e)) => spec_decode(
                old(source).data(),
                old(source).pos() - 1,
                old(source).cap(),
                old(source).text(),
            ) == Err::<(SpecValue, int), Error>(e) || (!old(source).io_free() && e is BadEncoding),
            Err(IoError::Io(_)) => !old(source).io_free(),
        },
{
    match expect_char(source, 0x3b) {
        Ok(_) => Ok(Value::Null),
        Err(e) => Err(e),
    }
}

/// Decodes `b:0;` or `b:1;` after its tag.
pub fn read_bool<S: Str, Src: Source<S>>(source: &mut Src) -> (r: IoResult<Value<S>>)
    requires
        old(source).wf(),
        s_read_byte(old(source).data(), old(source).pos() - 1, old(source).text()) == Ok::<
            (u8, int),
            Error,
        >((0x62, old(source).pos())),
    ensures
        final(source).wf(),
        final(source).data() == old(source).data(),
        final(source).cap() == old(source).cap(),
        final(source).text() == old(source).text(),
        final(source).io_free() == old(source).io_free(),
        final(source).pos() >= old(source).pos(),
        match r {
            Ok(v) => v.inv() && spec_decode(
                old(source).data(),
                old(source).pos() - 1,
                old(source).cap(),
                old(source).text(),
            ) == Ok::<(SpecValue, int), Error>((v.to_spec(), final(source).pos())),
            Err(IoError::Phpser(e)) => spec_decode(
                old(source).data(),
                old(source).pos() - 1,
                old(source).cap(),
                old(source).text(),
            ) == Err::<(SpecValue, int), Error>(e) || (!old(source).io_free() && e is BadEncoding),
            Err(IoError::Io(_)) => !old(source).io_free(),
        },
{
    match expect_char(source, 0x3a) {
        Ok(_) => {},
        Err(e) => {
            return Err(e);
        },
    }
    let c = match source.read_u8_char() {
        Ok(c) => c,
        Err(e) => {
            return Err(e);
        },
    };
    if c != 0x31 && c != 0x30 {
        return Err(IoError::Phpser(Error::BadNumber(source.offset())));
    }
    match expect_char(source, 0x3b) {
        Ok(_) => {},
        Err(e) => {
            return Err(e);
        },
    }
    Ok(Value::Bool(c == 0x31))
}

/// Decodes `i:<int>;` after its tag.
pub fn read_int<S: Str, Src: Source<S>>(source: &mut Src) -> (r: IoResult<Value<S>>)
    requires
        old(source).wf(),
        s_read_byte(old(source).data(), old(source).pos() - 1, old(source).text()) == Ok::<
            (u8, int),
            Error,
        >((0x69, old(source).pos())),
    ensures
        final(source).wf(),
        final(source).data() == old(source).data(),
        final(source).cap() == old(source).cap(),
        final(source).text() == old(source).text(),
        final(source).io_free() == old(source).io_free(),
        final(source).pos() >= old(source).pos(),
        match r {
            Ok(v) => v.inv() && spec_decode(
                old(source).data(),
                old(source).pos() - 1,
                old(source).cap(),
                old(source).text(),
            ) == Ok::<(SpecValue, int), Error>((v.to_spec(), final(source).pos())),
            Err(IoError::Phpser(e)) => spec_decode(
                old(source).data(),
                old(source).pos() - 1,
                old(source).cap(),
                old(source).text(),
            ) == Err::<(SpecValue, int), Error>(e) || (!old(source).io_free() && e is BadEncoding),
            Err(IoError::Io(_)) => !old(source).io_free(),
        },
{
    match expect_char(source, 0x3a) {
        Ok(_) => {},
        Err(e) => {
            return Err(e);
        },
    }
    let fld = match source.read_until(0x3b) {
        Ok(s) => s,
        Err(e) => {
            return Err(e);
        },
    };
    match parse_i64(fld.as_bytes()) {
        Some(v) => Ok(Value::Int(v)),
        None => Err(IoError::Phpser(Error::BadNumber(source.offset()))),
    }
}

/// Decodes `d:<float>;` after its tag, keeping the literal bytes.
pub fn read_float<S: Str, Src: Source<S>>(source: &mut Src) -> (r: IoResult<Value<S>>)
    requires
        old(source).wf(),
        s_read_byte(old(source).data(), old(source).pos() - 1, old(source).text()) == Ok::<
            (u8, int),
            Error,
        >((0x64, old(source).pos())),
    ensures
        final(source).wf(),
        final(source).data() == old(source).data(),
        final(source).cap() == old(source).cap(),
        final(source).text() == old(source).text(),
        final(source).io_free() == old(source).io_free(),
        final(source).pos() >= old(source).pos(),
        match r {
            Ok(v) => v.inv() && spec_decode(
                old(source).data(),
                old(source).pos() - 1,
                old(source).cap(),
                old(source).text(),
            ) == Ok::<(SpecValue, int), Error>((v.to_spec(), final(source).pos())),
            Err(IoError::Phpser(e)) => spec_decode(
                old(source).data(),
                old(source).pos() - 1,
                old(source).cap(),
                old(source).text(),
            ) == Err::<(SpecValue, int), Error>(e) || (!old(source).io_free() && e is BadEncoding),
            Err(IoError::Io(_)) => !old(source).io_free(),
        },
{
    match expect_char(source, 0x3a) {
        Ok(_) => {},
        Err(e) => {
            return Err(e);
        },
    }
    let fld = match source.read_until(0x3b) {
        Ok(s) => s,
        Err(e) => {
            return Err(e);
        },
    };
    if is_float_literal(fld.as_bytes()) {
        Ok(Value::Float(fld))
    } else {
        Err(IoError::Phpser(Error::BadNumber(source.offset())))
    }
}

/// Decodes `s:<len>:"<bytes>";` after its tag.
pub fn read_string<S: Str, Src: Source<S>>(source: &mut Src) -> (r: IoResult<Value<S>>)
    requires
        old(source).wf(),
        s_read_byte(old(source).data(), old(source).pos() - 1, old(source).text()) == Ok::<
            (u8, int),
            Error,
        >((0x73, old(source).pos())),
    ensures
        final(source).wf(),
        final(source).data() == old(source).data(),
        final(source).cap() == old(source).cap(),
        final(source).text() == old(source).text(),
        final(source).io_free() == old(source).io_free(),
        final(source).pos() >= old(source).pos(),
        match r {
            Ok(v) => v.inv() && spec_decode(
                old(source).data(),
                old(source).pos() - 1,
                old(source).cap(),
                old(source).text(),
            ) == Ok::<(SpecValue, int), Error>((v.to_spec(), final(source).pos())),
            Err(IoError::Phpser(e)) => spec_decode(
                old(source).data(),
                old(source).pos() - 1,
                old(source).cap(),
                old(source).text(),
            ) == Err::<(SpecValue, int), Error>(e) || (!old(source).io_free() && e is BadEncoding),
            Err(IoError::Io(_)) => !old(source).io_free(),
        },
{
    match expect_char(source, 0x3a) {
        Ok(_) => {},
        Err(e) => {
            return Err(e);
        },
    }
    let fld = match source.read_until(0x3a) {
        Ok(s) => s,
        Err(e) => {
            return Err(e);
        },
    };
    let n = match parse_usize(fld.as_bytes()) {
        Some(n) => n,
        None => {
            return Err(IoError::Phpser(Error::BadNumber(source.offset())));
        },
    };
    match expect_char(source, 0x22) {
        Ok(_) => {},
        Err(e) => {
            return Err(e);
        },
    }
    let content = match source.read_str(n) {
        Ok(s) => s,
        Err(e) => {
            return Err(e);
        },
    };
    match expect_char(source, 0x22) {
        Ok(_) => {},
        Err(e) => {
            return Err(e);
        },
    }
    match expect_char(source, 0x3b) {
        Ok(_) => {},
        Err(e) => {
            return Err(e);
        },
    }
    Ok(Value::String(content))
}

/// Decodes `R:<index>;` after its tag; the index is passed through without
/// validation.
pub fn read_ref<S: Str, Src: Source<S>>(source: &mut Src) -> (r: IoResult<Value<S>>)
    requires
        old(source).wf(),
        s_read_byte(old(source).data(), old(source).pos() - 1, old(source).text()) == Ok::<
            (u8, int),
            Error,
        >((0x52, old(source).pos())),
    ensures
        final(source).wf(),
        final(source).data() == old(source).data(),
        final(source).cap() == old(source).cap(),
        final(source).text() == old(source).text(),
        final(source).io_free() == old(source).io_free(),
        final(source).pos() >= old(source).pos(),
        match r {
            Ok(v) => v.inv() && spec_decode(
                old(source).data(),
                old(source).pos() - 1,
                old(source).cap(),
                old(source).text(),
            ) == Ok::<(SpecValue, int), Error>((v.to_spec(), final(source).pos())),
            Err(IoError::Phpser(e)) => spec_decode(
                old(source).data(),
                old(source).pos() - 1,
                old(source).cap(),
                old(source).text(),
            ) == Err::<(SpecValue, int), Error>(e) || (!old(source).io_free() && e is BadEncoding),
            Err(IoError::Io(_)) => !old(source).io_free(),
        },
{
    match expect_char(source, 0x3a) {
        Ok(_) => {},
        Err(e) => {
            return Err(e);
        },
    }
    let fld = match source.read_until(0x3b) {
        Ok(s) => s,
        Err(e) => {
            return Err(e);
        },
    };
    match parse_usize(fld.as_bytes()) {
        Some(ix) => Ok(Value::Reference(Ref(ix))),
        None => Err(IoError::Phpser(Error::BadNumber(source.offset()))),
    }
}

/// Decodes `C:<len>:"<class>":<len>:{<raw>}` after its tag; the payload is
/// stored verbatim and never re-entered into the grammar.
pub fn read_ser<S: Str, Src: Source<S>>(source: &mut Src) -> (r: IoResult<Value<S>>)
    requires
        old(source).wf(),
        s_read_byte(old(source).data(), old(source).pos() - 1, old(source).text()) == Ok::<
            (u8, int),
            Error,
        >((0x43, old(source).pos())),
    ensures
        final(source).wf(),
        final(source).data() == old(source).data(),
        final(source).cap() == old(source).cap(),
        final(source).text() == old(source).text(),
        final(source).io_free() == old(source).io_free(),
        final(source).pos() >= old(source).pos(),
        match r {
            Ok(v) => v.inv() && spec_decode(
                old(source).data(),
                old(source).pos() - 1,
                old(source).cap(),
                old(source).text(),
            ) == Ok::<(SpecValue, int), Error>((v.to_spec(), final(source).pos())),
            Err(IoError::Phpser(e)) => spec_decode(
                old(source).data(),
                old(source).pos() - 1,
                old(source).cap(),
                old(source).text(),
            ) == Err::<(SpecValue, int), Error>(e) || (!old(source).io_free() && e is BadEncoding),
            Err(IoError::Io(_)) => !old(source).io_free(),
        },
{
    match expect_char(source, 0x3a) {
        Ok(_) => {},
        Err(e) => {
            return Err(e);
        },
    }
    let fld = match source.read_until(0x3a) {
        Ok(s) => s,
        Err(e) => {
            return Err(e);
        },
    };
    let ncls = match parse_usize(fld.as_bytes()) {
        Some(n) => n,
        None => {
            return Err(IoError::Phpser(Error::BadNumber(source.offset())));
        },
    };
    match expect_char(source, 0x22) {
        Ok(_) => {},
        Err(e) => {
            return Err(e);
        },
    }
    let class = match source.read_str(ncls) {
        Ok(s) => s,
        Err(e) => {
            return Err(e);
        },
    };
    match expect_char(source, 0x22) {
        Ok(_) => {},
        Err(e) => {
            return Err(e);
        },
    }
    match expect_char(source, 0x3a) {
        Ok(_) => {},
        Err(e) => {
            return Err(e);
        },
    }
    let fld2 = match source.read_until(0x3a) {
        Ok(s) => s,
        Err(e) => {
            return Err(e);
        },
    };
    let nd = match parse_usize(fld2.as_bytes()) {
        Some(n) => n,
        None => {
            return Err(IoError::Phpser(Error::BadNumber(source.offset())));
        },
    };
    match expect_char(source, 0x7b) {
        Ok(_) => {},
        Err(e) => {
            return Err(e);
        },
    }
    let data = match source.read_str(nd) {
        Ok(s) => s,
        Err(e) => {
            return Err(e);
        },
    };
    match expect_char(source, 0x7d) {
        Ok(_) => {},
        Err(e) => {
            return Err(e);
        },
    }
    Ok(Value::Serializable(Serializable { class, data }))
}

} // verus!

verus! {

/// What remains of the array branch once `done` pairs have been decoded and
/// the position stands at `p` with `m` pairs to go.
pub open spec fn array_step(
    d: Seq<u8>,
    cap: int,
    text: bool,
    done: Seq<(SpecKey, SpecValue)>,
    p: int,
    m: nat,
) -> Result<(SpecValue, int), Error> {
    match spec_decode_pairs(d, p, cap, text, m) {
        Ok((rest, q)) => match s_expect(d, q, 0x7d, text) {
            Ok(pe) => Ok((SpecValue::Arr(done + rest), pe)),
            Err(e) => Err(e),
        },
        Err(e) => Err(e),
    }
}

/// Decodes `a:<count>:{<count pairs>}` after its tag.  The declared count
/// is checked against the allocation ceiling before any allocation.
#[verifier::loop_isolation(false)]
pub fn read_array<S: Str, Src: Source<S>>(source: &mut Src) -> (r: IoResult<Value<S>>)
    requires
        old(source).wf(),
        s_read_byte(old(source).data(), old(source).pos() - 1, old(source).text()) == Ok::<
            (u8, int),
            Error,
        >((0x61, old(source).pos())),
    ensures
        final(source).wf(),
        final(source).data() == old(source).data(),
        final(source).cap() == old(source).cap(),
        final(source).text() == old(source).text(),
        final(source).io_free() == old(source).io_free(),
        final(source).pos() >= old(source).pos(),
        match r {
            Ok(v) => v.inv() && spec_decode(
                old(source).data(),
                old(source).pos() - 1,
                old(source).cap(),
                old(source).text(),
            ) == Ok::<(SpecValue, int), Error>((v.to_spec(), final(source).pos())),
            Err(IoError::Phpser(e)) => spec_decode(
                old(source).data(),
                old(source).pos() - 1,
                old(source).cap(),
                old(source).text(),
            ) == Err::<(SpecValue, int), Error>(e) || (!old(source).io_free() && e is BadEncoding),
            Err(IoError::Io(_)) => !old(source).io_free(),
        },
    decreases old(source).data().len() - old(source).pos(),
{
    let ghost d = old(source).data();
    let ghost capg = old(source).cap();
    let ghost textg = old(source).text();
    let ghost pos0 = old(source).pos();
    match expect_char(source, 0x3a) {
        Ok(_) => {},
        Err(e) => {
            return Err(e);
        },
    }
    let fld = match source.read_until(0x3a) {
        Ok(s) => s,
        Err(e) => {
            return Err(e);
        },
    };
    let n = match parse_usize(fld.as_bytes()) {
        Some(n) => n,
        None => {
            return Err(IoError::Phpser(Error::BadNumber(source.offset())));
        },
    };
    match expect_char(source, 0x7b) {
        Ok(_) => {},
        Err(e) => {
            return Err(e);
        },
    }
    if n > source.limit() {
        return Err(IoError::Phpser(Error::UnexpectedEof));
    }
    let mut items: Vec<(ArrayKey<S>, Value<S>)> = Vec::new();
    let mut i: usize = 0;
    proof {
        source.lemma_wf();
        let step = spec_decode_pairs(d, source.pos(), capg, textg, n as nat);
        if step is Ok {
            assert(spec_of_pairs(items@) + step->Ok_0.0 =~= step->Ok_0.0);
        }
    }
    while i < n
        invariant
            source.wf(),
            source.data() == d,
            source.cap() == capg,
            source.text() == textg,
            source.io_free() == old(source).io_free(),
            pos0 == old(source).pos(),
            pos0 < source.pos() <= d.len(),
            i <= n,
            inv_pairs(items@),
            spec_decode(d, pos0 - 1, capg, textg) == array_step(
                d,
                capg,
                textg,
                spec_of_pairs(items@),
                source.pos(),
                (n - i) as nat,
            ),
        decreases n - i,
    {
        let kv = match Value::from_source(source) {
            Ok(v) => v,
            Err(e) => {
                return Err(e);
            },
        };
        proof {
            source.lemma_wf();
        }
        let key = match kv {
            Value::Int(x) => ArrayKey::Int(x),
            Value::String(s) => ArrayKey::String(s),
            _ => {
                return Err(IoError::Phpser(Error::BadArrayKeyType(source.offset())));
            },
        };
        let val = match Value::from_source(source) {
            Ok(v) => v,
            Err(e) => {
                return Err(e);
            },
        };
        proof {
            source.lemma_wf();
            lemma_spec_of_pairs_push(items@, key, val);
            let step = spec_decode_pairs(d, source.pos(), capg, textg, (n - i - 1) as nat);
            if step is Ok {
                assert(spec_of_pairs(items@) + (seq![(key.to_spec(), val.to_spec())]
                    + step->Ok_0.0) =~= spec_of_pairs(items@.push((key, val))) + step->Ok_0.0);
            }
        }
        items.push((key, val));
        i = i + 1;
    }
    proof {
        assert(spec_of_pairs(items@) + Seq::<(SpecKey, SpecValue)>::empty() =~= spec_of_pairs(
            items@,
        ));
    }
    match expect_char(source, 0x7d) {
        Ok(_) => {},
        Err(e) => {
            return Err(e);
        },
    }
    Ok(Value::Array(items))
}

} // verus!

verus! {

/// What remains of the object branch once the class and `done` properties
/// are decoded and the position stands at `p` with `m` properties to go.
pub open spec fn object_step(
    d: Seq<u8>,
    cap: int,
    text: bool,
    cls: Seq<u8>,
    done: Seq<(SpecProp, SpecValue)>,
    p: int,
    m: nat,
) -> Result<(SpecValue, int), Error> {
    match spec_decode_props(d, p, cap, text, m) {
        Ok((rest, q)) => match s_expect(d, q, 0x7d, text) {
            Ok(pe) => Ok((SpecValue::Obj(cls, done + rest), pe)),
            Err(e) => Err(e),
        },
        Err(e) => Err(e),
    }
}

/// Decodes `O:<len>:"<class>":<count>:{<count (name, value)>}` after its
/// tag, demangling each property name's visibility.
#[verifier::loop_isolation(false)]
#[verifier::rlimit(60)]
pub fn read_object<S: Str, Src: Source<S>>(source: &mut Src) -> (r: IoResult<Value<S>>)
    requires
        old(source).wf(),
        s_read_byte(old(source).data(), old(source).pos() - 1, old(source).text()) == Ok::<
            (u8, int),
            Error,
        >((0x4f, old(source).pos())),
    ensures
        final(source).wf(),
        final(source).data() == old(source).data(),
        final(source).cap() == old(source).cap(),
        final(source).text() == old(source).text(),
        final(source).io_free() == old(source).io_free(),
        final(source).pos() >= old(source).pos(),
        match r {
            Ok(v) => v.inv() && spec_decode(
                old(source).data(),
                old(source).pos() - 1,
                old(source).cap(),
                old(source).text(),
            ) == Ok::<(SpecValue, int), Error>((v.to_spec(), final(source).pos())),
            Err(IoError::Phpser(e)) => spec_decode(
                old(source).data(),
                old(source).pos() - 1,
                old(source).cap(),
                old(source).text(),
            ) == Err::<(SpecValue, int), Error>(e) || (!old(source).io_free() && e is BadEncoding),
            Err(IoError::Io(_)) => !old(source).io_free(),
        },
    decreases old(source).data().len() - old(source).pos(),
{
    let ghost d = old(source).data();
    let ghost capg = old(source).cap();
    let ghost textg = old(source).text();
    let ghost pos0 = old(source).pos();
    match expect_char(source, 0x3a) {
        Ok(_) => {},
        Err(e) => {
            return Err(e);
        },
    }
    let fld = match source.read_until(0x3a) {
        Ok(s) => s,
        Err(e) => {
            return Err(e);
        },
    };
    let ncls = match parse_usize(fld.as_bytes()) {
        Some(n) => n,
        None => {
            return Err(IoError::Phpser(Error::BadNumber(source.offset())));
        },
    };
    match expect_char(source, 0x22) {
        Ok(_) => {},
        Err(e) => {
            return Err(e);
        },
    }
    let class = match source.read_str(ncls) {
        Ok(s) => s,
        Err(e) => {
            return Err(e);
        },
    };
    match expect_char(source, 0x22) {
        Ok(_) => {},
        Err(e) => {
            return Err(e);
        },
    }
    match expect_char(source, 0x3a) {
        Ok(_) => {},
        Err(e) => {
            return Err(e);
        },
    }
    let fld2 = match source.read_until(0x3a) {
        Ok(s) => s,
        Err(e) => {
            return Err(e);
        },
    };
    let nprops = match parse_usize(fld2.as_bytes()) {
        Some(n) => n,
        None => {
            return Err(IoError::Phpser(Error::BadNumber(source.offset())));
        },
    };
    if nprops > source.limit() {
        return Err(IoError::Phpser(Error::UnexpectedEof));
    }
    match expect_char(source, 0x7b) {
        Ok(_) => {},
        Err(e) => {
            return Err(e);
        },
    }
    let mut items: Vec<(PropertyName<S>, Value<S>)> = Vec::new();
    let mut i: usize = 0;
    proof {
        source.lemma_wf();
        let step = spec_decode_props(d, source.pos(), capg, textg, nprops as nat);
        if step is Ok {
            assert(spec_of_props(items@) + step->Ok_0.0 =~= step->Ok_0.0);
        }
    }
    while i < nprops
        invariant
            source.wf(),
            source.data() == d,
            source.cap() == capg,
            source.text() == textg,
            source.io_free() == old(source).io_free(),
            pos0 == old(source).pos(),
            pos0 < source.pos() <= d.len(),
            i <= nprops,
            class.inv(),
            inv_props(items@),
            spec_decode(d, pos0 - 1, capg, textg) == object_step(
                d,
                capg,
                textg,
                class.sbytes(),
                spec_of_props(items@),
                source.pos(),
                (nprops - i) as nat,
            ),
        decreases nprops - i,
    {
        let kv = match Value::from_source(source) {
            Ok(v) => v,
            Err(e) => {
                return Err(e);
            },
        };
        proof {
            source.lemma_wf();
        }
        let raw = match kv {
            Value::String(s) => s,
            _ => {
                return Err(IoError::Phpser(Error::BadObjectKeyType(source.offset())));
            },
        };
        let prop = match demangle(raw) {
            Ok(p) => p,
            Err(DemangleFault::BadMarker) => {
                return Err(IoError::Phpser(Error::BadToken(source.offset())));
            },
            Err(DemangleFault::MissingNul) => {
                return Err(IoError::Phpser(Error::UnexpectedEof));
            },
        };
        let val = match Value::from_source(source) {
            Ok(v) => v,
            Err(e) => {
                return Err(e);
            },
        };
        proof {
            source.lemma_wf();
            lemma_spec_of_props_push(items@, prop, val);
            let step = spec_decode_props(d, source.pos(), capg, textg, (nprops - i - 1) as nat);
            if step is Ok {
                assert(spec_of_props(items@) + (seq![(prop.to_spec(), val.to_spec())]
                    + step->Ok_0.0) =~= spec_of_props(items@.push((prop, val))) + step->Ok_0.0);
            }
        }
        items.push((prop, val));
        i = i + 1;
    }
    proof {
        assert(spec_of_props(items@) + Seq::<(SpecProp, SpecValue)>::empty() =~= spec_of_props(
            items@,
        ));
    }
    match expect_char(source, 0x7d) {
        Ok(_) => {},
        Err(e) => {
            return Err(e);
        },
    }
    Ok(Value::Object(Object { class, properties: items }))
}

} // verus!

verus! {

impl<S: Str> Value<S> {
    /// Parses a string or byte array, returning a tree of the same
    /// representation.
    pub fn parse(source: S) -> (r: IoResult<Self>)
        requires
            source.inv(),
        ensures
            match r {
                Ok(v) => {
                    let dec = spec_decode(
                        source.sbytes(),
                        0,
                        source.sbytes().len() as int,
                        source.checked(),
                    );
                    v.inv() && dec is Ok && v.to_spec() == dec->Ok_0.0
                },
                Err(IoError::Phpser(e)) => spec_decode(
                    source.sbytes(),
                    0,
                    source.sbytes().len() as int,
                    source.checked(),
                ) == Err::<(SpecValue, int), Error>(e),
                Err(IoError::Io(_)) => false,
            },
    {
        let mut cursor = Cursor::new(source);
        Self::from_source(&mut cursor)
    }

    /// Parses one value from any source.  The result is exactly what the
    /// grammar's decode function yields on the source's bytes at its
    /// current position.
    pub fn from_source<Src: Source<S>>(source: &mut Src) -> (r: IoResult<Self>)
        requires
            old(source).wf(),
        ensures
            final(source).wf(),
            final(source).data() == old(source).data(),
            final(source).cap() == old(source).cap(),
            final(source).text() == old(source).text(),
            final(source).io_free() == old(source).io_free(),
            final(source).pos() >= old(source).pos(),
            match r {
                Ok(v) => v.inv() && spec_decode(
                    old(source).data(),
                    old(source).pos(),
                    old(source).cap(),
                    old(source).text(),
                ) == Ok::<(SpecValue, int), Error>((v.to_spec(), final(source).pos()))
                    && old(source).pos() < final(source).pos(),
                Err(IoError::Phpser(e)) => spec_decode(
                    old(source).data(),
                    old(source).pos(),
                    old(source).cap(),
                    old(source).text(),
                ) == Err::<(SpecValue, int), Error>(e) || (!old(source).io_free() && e is BadEncoding),
                Err(IoError::Io(_)) => !old(source).io_free(),
            },
        decreases old(source).data().len() - old(source).pos(),
    {
        let tag = match source.read_u8_char() {
            Ok(b) => b,
            Err(e) => {
                return Err(e);
            },
        };
        if tag == 0x4e {
            read_null(source)
        } else if tag == 0x62 {
            read_bool(source)
        } else if tag == 0x69 {
            read_int(source)
        } else if tag == 0x64 {
            read_float(source)
        } else if tag == 0x73 {
            read_string(source)
        } else if tag == 0x61 {
            read_array(source)
        } else if tag == 0x4f {
            read_object(source)
        } else if tag == 0x43 {
            read_ser(source)
        } else if tag == 0x52 {
            read_ref(source)
        } else {
            Err(IoError::Phpser(Error::BadToken(source.offset())))
        }
    }
}

} // verus!

verus! {

/// Recovers a property's visibility from its raw name bytes: `\0*\0name`
/// is protected, `\0class\0name` is private to `class`, and a name without
/// a leading NUL is public, unchanged.
pub fn demangle<S: Str>(raw: S) -> (r: Result<PropertyName<S>, DemangleFault>)
    requires
        raw.inv(),
    ensures
        match r {
            Ok(p) => p.inv() && spec_demangle(raw.sbytes()) == Ok::<
                (crate::grammar::SpecVis, Seq<u8>),
                DemangleFault,
            >((p.vis.to_spec(), p.name.sbytes())),
            Err(f) => spec_demangle(raw.sbytes()) == Err::<
                (crate::grammar::SpecVis, Seq<u8>),
                DemangleFault,
            >(f),
        },
{
    let nb_len = raw.len();
    let first = if nb_len > 0 {
        raw.get_u8_char(0)
    } else {
        None
    };
    proof {
        if nb_len > 0 && raw.sbytes()[0] == 0 {
            raw.lemma_ascii_boundary(0);
        }
    }
    if nb_len == 0 || first != Some(0u8) {
        Ok(PropertyName { vis: PropertyVis::Public, name: raw })
    } else {
        let second = if nb_len >= 2 {
            raw.get_u8_char(1)
        } else {
            None
        };
        proof {
            if nb_len >= 2 && raw.sbytes()[1] == 0x2a {
                raw.lemma_ascii_boundary(1);
            }
        }
        if second == Some(0x2au8) {
            let third = if nb_len >= 3 {
                raw.get_u8_char(2)
            } else {
                None
            };
            proof {
                if nb_len >= 3 && raw.sbytes()[2] == 0 {
                    raw.lemma_ascii_boundary(2);
                }
            }
            if third == Some(0u8) {
                let name = raw.range_from(3);
                Ok(PropertyName { vis: PropertyVis::Protected, name })
            } else {
                Err(DemangleFault::BadMarker)
            }
        } else {
            match raw.find(0, 0) {
                None => {
                    proof {
                        lemma_scan_dist(raw.sbytes(), 1, 0);
                        if scan_dist(raw.sbytes(), 1, 0) is Some {
                            assert(false);
                        }
                    }
                    Err(DemangleFault::MissingNul)
                },
                Some(p) => {
                    proof {
                        lemma_scan_dist_exact(raw.sbytes(), 1, 0, p as int);
                    }
                    let class_name = raw.range(1, p);
                    let name = raw.range_from(p + 1);
                    Ok(PropertyName { vis: PropertyVis::Private(class_name), name })
                },
            }
        }
    }
}

} // verus!
