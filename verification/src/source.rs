use std::io::Read;
use vstd::prelude::*;

use crate::error::{Error, IoError, IoResult};
use crate::grammar::{rep_boundary, s_read_byte, s_read_str, s_read_until, scan_dist};
use crate::grammar::{lemma_scan_dist, lemma_scan_dist_exact};
use crate::str_trait::Str;

verus! {

/// A data source for a `Str`: a stream positioned at a byte offset, bounded
/// by a maximum size.
///
/// A source stands for a byte sequence `data()` (what it yields), a position
/// `pos()` (bytes consumed so far), and an allocation ceiling `cap()`.  Each
/// read is specified by the corresponding read function of the grammar over
/// those three, so a decode result over any source is a function of the
/// source's bytes alone.
pub trait Source<S: Str>: Sized {
    /// The bytes this source yields.
    spec fn data(&self) -> Seq<u8>;

    /// Bytes consumed so far.
    spec fn pos(&self) -> int;

    /// The maximum number of bytes the source may yield; consulted before
    /// any allocation proportional to a declared count or length.
    spec fn cap(&self) -> int;

    /// Whether the produced strings are a checked text representation.
    spec fn text(&self) -> bool;

    /// Whether this source can fail for transport reasons; a pure in-memory
    /// source cannot.
    spec fn io_free(&self) -> bool;

    /// The source invariant.
    spec fn wf(&self) -> bool;

    /// What the invariant gives: the position lies within the data, the
    /// data lies within the ceiling, and the position is a boundary.
    proof fn lemma_wf(&self)
        requires
            self.wf(),
        ensures
            0 <= self.pos() <= self.data().len() <= self.cap() <= usize::MAX,
            rep_boundary(self.text(), self.data(), self.pos()),
    ;

    /// The number of bytes already read from the source.
    fn offset(&self) -> (r: usize)
        requires
            self.wf(),
        ensures
            r == self.pos(),
    ;

    /// The maximum possible number of bytes in the source.
    fn limit(&self) -> (r: usize)
        requires
            self.wf(),
        ensures
            r == self.cap(),
    ;

    /// Reads one byte.
    fn read_u8_char(&mut self) -> (r: IoResult<u8>)
        requires
            old(self).wf(),
        ensures
            final(self).wf(),
            final(self).data() == old(self).data(),
            final(self).cap() == old(self).cap(),
            final(self).text() == old(self).text(),
            final(self).io_free() == old(self).io_free(),
            match r {
                Ok(b) => s_read_byte(final(self).data(), old(self).pos(), final(self).text()) == Ok::<
                    (u8, int),
                    Error,
                >((b, final(self).pos())),
                Err(IoError::Phpser(e)) => (s_read_byte(
                    final(self).data(),
                    old(self).pos(),
                    final(self).text(),
                ) == Err::<(u8, int), Error>(e) && final(self).pos() == old(self).pos()) || (
                !old(self).io_free() && e is BadEncoding && final(self).pos() == old(
                    self,
                ).pos()),
                Err(IoError::Io(_)) => !final(self).io_free() && final(self).pos() == old(self).pos(),
            },
    ;

    /// Reads exactly `n` bytes as the representation's string type.
    fn read_str(&mut self, n: usize) -> (r: IoResult<S>)
        requires
            old(self).wf(),
        ensures
            final(self).wf(),
            final(self).data() == old(self).data(),
            final(self).cap() == old(self).cap(),
            final(self).text() == old(self).text(),
            final(self).io_free() == old(self).io_free(),
            match r {
                Ok(s) => s.inv() && s.checked() == final(self).text() && s_read_str(
                    final(self).data(),
                    old(self).pos(),
                    n as int,
                    final(self).cap(),
                    final(self).text(),
                ) == Ok::<(Seq<u8>, int), Error>((s.sbytes(), final(self).pos())),
                Err(IoError::Phpser(e)) => (s_read_str(
                    final(self).data(),
                    old(self).pos(),
                    n as int,
                    final(self).cap(),
                    final(self).text(),
                ) == Err::<(Seq<u8>, int), Error>(e) && final(self).pos() == old(self).pos()) || (
                !old(self).io_free() && e is BadEncoding && final(self).pos() == old(
                    self,
                ).pos()),
                Err(IoError::Io(_)) => !final(self).io_free() && final(self).pos() == old(self).pos(),
            },
    ;

    /// Reads up to and including the first occurrence of the ASCII byte
    /// `byte` strictly after the current position, returning what came
    /// before it.
    fn read_until(&mut self, byte: u8) -> (r: IoResult<S>)
        requires
            old(self).wf(),
            byte < 0x80,
        ensures
            final(self).wf(),
            final(self).data() == old(self).data(),
            final(self).cap() == old(self).cap(),
            final(self).text() == old(self).text(),
            final(self).io_free() == old(self).io_free(),
            match r {
                Ok(s) => s.inv() && s.checked() == final(self).text() && s_read_until(
                    final(self).data(),
                    old(self).pos(),
                    byte,
                ) == Ok::<(Seq<u8>, int), Error>((s.sbytes(), final(self).pos())),
                Err(IoError::Phpser(e)) => (s_read_until(final(self).data(), old(self).pos(), byte)
                    == Err::<(Seq<u8>, int), Error>(e) && final(self).pos() == old(self).pos())
                    || (!old(self).io_free() && e is BadEncoding && final(self).pos() == old(
                        self,
                    ).pos()),
                Err(IoError::Io(_)) => !final(self).io_free() && final(self).pos() == old(self).pos(),
            },
    ;
}

/// Relies on `std::io::Read::take` and `read_to_end`: reads the transport to
/// its end, never yielding more than `limit` bytes.  What the bytes are
/// depends on the transport, so nothing is promised of them.
#[verifier::external_body]
fn read_all_limited<R: std::io::Read>(read: R, limit: usize) -> (r: Result<
    Vec<u8>,
    std::io::Error,
>)
    ensures
        match r {
            Ok(buf) => buf@.len() <= limit,
            Err(_) => true,
        },
{
    let mut buf: Vec<u8> = Vec::new();
    match read.take(limit as u64).read_to_end(&mut buf) {
        Ok(_) => Ok(buf),
        Err(e) => Err(e),
    }
}

/// Reads a byte-oriented input into raw owned byte strings, bounded by a
/// hard cap on the total bytes ever read.
///
/// The transport is drained (up to the cap) when the reader is created; a
/// transport failure is kept and surfaces at the first read.
pub struct ByteReader {
    buf: Vec<u8>,
    pos: usize,
    limit: usize,
    fault: Option<std::io::Error>,
}

impl ByteReader {
    /// Creates a new `ByteReader` over `read`.
    ///
    /// The `read` does not need to be buffered.  The `limit` value bounds
    /// the total bytes read, to avoid allocating arbitrarily large chunks
    /// of memory as requested by the serialization.
    pub fn new<R: std::io::Read>(read: R, limit: usize) -> (r: Self)
        ensures
            r.wf(),
            r.pos() == 0,
            r.cap() == limit as int,
    {
        match read_all_limited(read, limit) {
            Ok(buf) => ByteReader { buf, pos: 0, limit, fault: None },
            Err(e) => ByteReader { buf: Vec::new(), pos: 0, limit, fault: Some(e) },
        }
    }

    /// Takes the stored transport fault, if any.
    fn take_fault(&mut self) -> (r: Option<std::io::Error>)
        ensures
            final(self).buf == old(self).buf,
            final(self).pos == old(self).pos,
            final(self).limit == old(self).limit,
            final(self).fault is None,
            r == old(self).fault,
    {
        let mut f: Option<std::io::Error> = None;
        core::mem::swap(&mut self.fault, &mut f);
        f
    }
}

impl Source<Vec<u8>> for ByteReader {
    closed spec fn data(&self) -> Seq<u8> {
        self.buf@
    }

    closed spec fn pos(&self) -> int {
        self.pos as int
    }

    closed spec fn cap(&self) -> int {
        self.limit as int
    }

    closed spec fn text(&self) -> bool {
        false
    }

    closed spec fn io_free(&self) -> bool {
        false
    }

    closed spec fn wf(&self) -> bool {
        self.pos <= self.buf@.len() <= self.limit
    }

    proof fn lemma_wf(&self) {
    }

    fn offset(&self) -> (r: usize) {
        self.pos
    }

    fn limit(&self) -> (r: usize) {
        self.limit
    }

    fn read_u8_char(&mut self) -> (r: IoResult<u8>) {
        if let Some(e) = self.take_fault() {
            return Err(IoError::Io(e));
        }
        if self.pos >= self.buf.len() {
            return Err(IoError::Phpser(Error::UnexpectedEof));
        }
        let b = self.buf[self.pos];
        self.pos = self.pos + 1;
        Ok(b)
    }

    fn read_str(&mut self, n: usize) -> (r: IoResult<Vec<u8>>) {
        if let Some(e) = self.take_fault() {
            return Err(IoError::Io(e));
        }
        if n > self.limit {
            return Err(IoError::Phpser(Error::UnexpectedEof));
        }
        if n > self.buf.len() - self.pos {
            return Err(IoError::Phpser(Error::UnexpectedEof));
        }
        let s = vstd::slice::slice_to_vec(
            vstd::slice::slice_subrange(self.buf.as_slice(), self.pos, self.pos + n),
        );
        self.pos = self.pos + n;
        Ok(s)
    }

    fn read_until(&mut self, byte: u8) -> (r: IoResult<Vec<u8>>) {
        if let Some(e) = self.take_fault() {
            return Err(IoError::Io(e));
        }
        let n = self.buf.len();
        let start = self.pos;
        if start >= n {
            return Err(IoError::Phpser(Error::UnexpectedEof));
        }
        let mut k: usize = start + 1;
        while k < n
            invariant
                start < k <= n,
                n == self.buf@.len(),
                self.buf@ == old(self).buf@,
                self.pos == old(self).pos,
                self.limit == old(self).limit,
                start == old(self).pos,
                old(self).wf(),
                forall|m: int| start < m < k ==> self.buf@[m] != byte,
            decreases n - k,
        {
            if self.buf[k] == byte {
                proof {
                    lemma_scan_dist_exact(self.buf@, start + 1, byte, k as int);
                }
                let s = vstd::slice::slice_to_vec(
                    vstd::slice::slice_subrange(self.buf.as_slice(), start, k),
                );
                self.pos = k + 1;
                return Ok(s);
            }
            k = k + 1;
        }
        proof {
            lemma_scan_dist(self.buf@, start + 1, byte);
            if scan_dist(self.buf@, start + 1, byte) is Some {
                assert(false);
            }
        }
        Err(IoError::Phpser(Error::UnexpectedEof))
    }
}

} // verus!

use crate::utf8::Utf8String;

verus! {

/// Reads a byte-oriented input into checked UTF-8 text strings, bounded by
/// a hard cap on the total bytes ever read.
///
/// The transport is drained (up to the cap) when the reader is created and
/// validated as UTF-8 once; invalid text, like a transport failure, is kept
/// and surfaces at the first read.
pub struct StringReader {
    buf: Utf8String,
    pos: usize,
    limit: usize,
    fault: Option<IoError>,
}

impl StringReader {
    /// Creates a new `StringReader` over `read`.
    ///
    /// The `read` does not need to be buffered.  The `limit` value bounds
    /// the total bytes read, to avoid allocating arbitrarily large chunks
    /// of memory as requested by the serialization.
    pub fn new<R: std::io::Read>(read: R, limit: usize) -> (r: Self)
        ensures
            r.wf(),
            r.pos() == 0,
            r.cap() == limit as int,
    {
        match read_all_limited(read, limit) {
            Ok(bytes) => {
                let ghost blen = bytes@.len();
                match Utf8String::from_bytes(bytes) {
                    Some(buf) => StringReader { buf, pos: 0, limit, fault: None },
                    None => StringReader {
                        buf: Utf8String::empty(),
                        pos: 0,
                        limit,
                        fault: Some(IoError::Phpser(Error::BadEncoding(0))),
                    },
                }
            },
            Err(e) => StringReader {
                buf: Utf8String::empty(),
                pos: 0,
                limit,
                fault: Some(IoError::Io(e)),
            },
        }
    }

    /// Takes the stored fault, if any.
    fn take_fault(&mut self) -> (r: Option<IoError>)
        ensures
            final(self).buf == old(self).buf,
            final(self).pos == old(self).pos,
            final(self).limit == old(self).limit,
            final(self).fault is None,
            r == old(self).fault,
    {
        let mut f: Option<IoError> = None;
        core::mem::swap(&mut self.fault, &mut f);
        f
    }
}

impl Source<Utf8String> for StringReader {
    closed spec fn data(&self) -> Seq<u8> {
        self.buf.sbytes()
    }

    closed spec fn pos(&self) -> int {
        self.pos as int
    }

    closed spec fn cap(&self) -> int {
        self.limit as int
    }

    closed spec fn text(&self) -> bool {
        true
    }

    closed spec fn io_free(&self) -> bool {
        false
    }

    closed spec fn wf(&self) -> bool {
        self.buf.inv() && self.pos <= self.buf.sbytes().len() <= self.limit && rep_boundary(
            true,
            self.buf.sbytes(),
            self.pos as int,
        ) && match self.fault {
            Some(IoError::Phpser(e)) => e is BadEncoding,
            _ => true,
        }
    }

    proof fn lemma_wf(&self) {
    }

    fn offset(&self) -> (r: usize) {
        self.pos
    }

    fn limit(&self) -> (r: usize) {
        self.limit
    }

    fn read_u8_char(&mut self) -> (r: IoResult<u8>) {
        if let Some(e) = self.take_fault() {
            return Err(e);
        }
        let len = self.buf.len();
        if self.pos >= len {
            return Err(IoError::Phpser(Error::UnexpectedEof));
        }
        match self.buf.get_u8_char(self.pos) {
            Some(c) => {
                self.pos = self.pos + 1;
                Ok(c)
            },
            None => Err(IoError::Phpser(Error::BadEncoding(self.pos))),
        }
    }

    fn read_str(&mut self, n: usize) -> (r: IoResult<Utf8String>) {
        if let Some(e) = self.take_fault() {
            return Err(e);
        }
        if n > self.limit {
            return Err(IoError::Phpser(Error::UnexpectedEof));
        }
        let len = self.buf.len();
        if n > len - self.pos {
            return Err(IoError::Phpser(Error::UnexpectedEof));
        }
        match self.buf.clone_slice(self.pos, self.pos + n) {
            Some(s) => {
                self.pos = self.pos + n;
                Ok(s)
            },
            None => Err(IoError::Phpser(Error::BadEncoding(self.pos))),
        }
    }

    fn read_until(&mut self, byte: u8) -> (r: IoResult<Utf8String>) {
        if let Some(e) = self.take_fault() {
            return Err(e);
        }
        let len = self.buf.len();
        if self.pos >= len {
            return Err(IoError::Phpser(Error::UnexpectedEof));
        }
        match self.buf.find(self.pos, byte) {
            None => {
                proof {
                    lemma_scan_dist(self.buf.sbytes(), self.pos + 1, byte);
                    if scan_dist(self.buf.sbytes(), self.pos + 1, byte) is Some {
                        assert(false);
                    }
                }
                Err(IoError::Phpser(Error::UnexpectedEof))
            },
            Some(q) => {
                proof {
                    lemma_scan_dist_exact(self.buf.sbytes(), self.pos + 1, byte, q as int);
                }
                match self.buf.clone_slice(self.pos, q) {
                    Some(s) => {
                        self.pos = q + 1;
                        Ok(s)
                    },
                    None => {
                        proof {
                            assert(false);
                        }
                        Err(IoError::Phpser(Error::UnexpectedEof))
                    },
                }
            },
        }
    }
}

} // verus!
