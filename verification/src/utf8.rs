use vstd::prelude::*;

use crate::grammar::utf8_boundary;

verus! {

/// A UTF-8 continuation byte: `10xxxxxx`.
pub open spec fn is_cont(b: u8) -> bool {
    0x80 <= b < 0xc0
}

/// Strict UTF-8 validity of `s` from position `i` onward, assuming `i` is
/// the start of a code point: each lead byte is followed by the right
/// number of continuation bytes, with the restricted ranges that exclude
/// overlong forms, surrogates, and values past the last scalar.
pub open spec fn is_utf8_from(s: Seq<u8>, i: int) -> bool
    decreases s.len() - i,
{
    if i < 0 {
        false
    } else if i >= s.len() {
        true
    } else {
        let b = s[i];
        if b < 0x80 {
            is_utf8_from(s, i + 1)
        } else if 0xc2 <= b <= 0xdf {
            i + 2 <= s.len() && is_cont(s[i + 1]) && is_utf8_from(s, i + 2)
        } else if b == 0xe0 {
            i + 3 <= s.len() && 0xa0 <= s[i + 1] <= 0xbf && is_cont(s[i + 2]) && is_utf8_from(
                s,
                i + 3,
            )
        } else if 0xe1 <= b <= 0xec || b == 0xee || b == 0xef {
            i + 3 <= s.len() && is_cont(s[i + 1]) && is_cont(s[i + 2]) && is_utf8_from(s, i + 3)
        } else if b == 0xed {
            i + 3 <= s.len() && 0x80 <= s[i + 1] <= 0x9f && is_cont(s[i + 2]) && is_utf8_from(
                s,
                i + 3,
            )
        } else if b == 0xf0 {
            i + 4 <= s.len() && 0x90 <= s[i + 1] <= 0xbf && is_cont(s[i + 2]) && is_cont(s[i + 3])
                && is_utf8_from(s, i + 4)
        } else if 0xf1 <= b <= 0xf3 {
            i + 4 <= s.len() && is_cont(s[i + 1]) && is_cont(s[i + 2]) && is_cont(s[i + 3])
                && is_utf8_from(s, i + 4)
        } else if b == 0xf4 {
            i + 4 <= s.len() && 0x80 <= s[i + 1] <= 0x8f && is_cont(s[i + 2]) && is_cont(s[i + 3])
                && is_utf8_from(s, i + 4)
        } else {
            false
        }
    }
}

/// Strict UTF-8 validity of a whole byte sequence.
pub open spec fn is_utf8(s: Seq<u8>) -> bool {
    is_utf8_from(s, 0)
}

/// In a valid region, every boundary at or after a code-point start is
/// itself a code-point start: positions strictly inside a code point hold
/// continuation bytes.
pub proof fn lemma_utf8_suffix(s: Seq<u8>, i: int, j: int)
    requires
        0 <= i <= j <= s.len(),
        is_utf8_from(s, i),
        utf8_boundary(s, j),
    ensures
        is_utf8_from(s, j),
    decreases j - i,
{
    if i < j {
        let b = s[i];
        if b < 0x80 {
            lemma_utf8_suffix(s, i + 1, j);
        } else if 0xc2 <= b <= 0xdf {
            assert(j != i + 1);
            lemma_utf8_suffix(s, i + 2, j);
        } else if b == 0xe0 || (0xe1 <= b <= 0xec || b == 0xee || b == 0xef) || b == 0xed {
            assert(j != i + 1 && j != i + 2);
            lemma_utf8_suffix(s, i + 3, j);
        } else {
            assert(j != i + 1 && j != i + 2 && j != i + 3);
            lemma_utf8_suffix(s, i + 4, j);
        }
    }
}

/// A slice of a valid sequence between two boundaries is itself valid, from
/// any code-point start within it.
proof fn lemma_utf8_slice_from(s: Seq<u8>, i: int, j: int, k: int)
    requires
        0 <= i <= k <= j <= s.len(),
        is_utf8_from(s, k),
        utf8_boundary(s, j),
    ensures
        is_utf8_from(s.subrange(i, j), k - i),
    decreases j - k,
{
    let sub = s.subrange(i, j);
    if k < j {
        let b = s[k];
        assert(sub[k - i] == b);
        if b < 0x80 {
            lemma_utf8_slice_from(s, i, j, k + 1);
        } else if 0xc2 <= b <= 0xdf {
            assert(j != k + 1);
            assert(sub[k - i + 1] == s[k + 1]);
            lemma_utf8_slice_from(s, i, j, k + 2);
        } else if b == 0xe0 || (0xe1 <= b <= 0xec || b == 0xee || b == 0xef) || b == 0xed {
            assert(j != k + 1 && j != k + 2);
            assert(sub[k - i + 1] == s[k + 1]);
            assert(sub[k - i + 2] == s[k + 2]);
            lemma_utf8_slice_from(s, i, j, k + 3);
        } else {
            assert(j != k + 1 && j != k + 2 && j != k + 3);
            assert(sub[k - i + 1] == s[k + 1]);
            assert(sub[k - i + 2] == s[k + 2]);
            assert(sub[k - i + 3] == s[k + 3]);
            lemma_utf8_slice_from(s, i, j, k + 4);
        }
    }
}

/// A slice of a valid sequence between two boundaries is itself valid.
pub proof fn lemma_utf8_slice(s: Seq<u8>, i: int, j: int)
    requires
        0 <= i <= j <= s.len(),
        is_utf8(s),
        utf8_boundary(s, i),
        utf8_boundary(s, j),
    ensures
        is_utf8(s.subrange(i, j)),
{
    lemma_utf8_suffix(s, 0, i);
    lemma_utf8_slice_from(s, i, j, i);
}

/// Checks strict UTF-8 validity of a byte slice.
pub fn validate_utf8(s: &[u8]) -> (r: bool)
    ensures
        r == is_utf8(s@),
{
    let n = s.len();
    let mut i: usize = 0;
    while i < n
        invariant
            0 <= i <= n,
            n == s@.len(),
            is_utf8(s@) == is_utf8_from(s@, i as int),
        decreases n - i,
    {
        let b = s[i];
        if b < 0x80 {
            i = i + 1;
        } else if 0xc2 <= b && b <= 0xdf {
            if n - i < 2 || !(0x80 <= s[i + 1] && s[i + 1] < 0xc0) {
                return false;
            }
            i = i + 2;
        } else if b == 0xe0 {
            if n - i < 3 || !(0xa0 <= s[i + 1] && s[i + 1] <= 0xbf) || !(0x80 <= s[i + 2] && s[i
                + 2] < 0xc0) {
                return false;
            }
            i = i + 3;
        } else if (0xe1 <= b && b <= 0xec) || b == 0xee || b == 0xef {
            if n - i < 3 || !(0x80 <= s[i + 1] && s[i + 1] < 0xc0) || !(0x80 <= s[i + 2] && s[i
                + 2] < 0xc0) {
                return false;
            }
            i = i + 3;
        } else if b == 0xed {
            if n - i < 3 || !(0x80 <= s[i + 1] && s[i + 1] <= 0x9f) || !(0x80 <= s[i + 2] && s[i
                + 2] < 0xc0) {
                return false;
            }
            i = i + 3;
        } else if b == 0xf0 {
            if n - i < 4 || !(0x90 <= s[i + 1] && s[i + 1] <= 0xbf) || !(0x80 <= s[i + 2] && s[i
                + 2] < 0xc0) || !(0x80 <= s[i + 3] && s[i + 3] < 0xc0) {
                return false;
            }
            i = i + 4;
        } else if 0xf1 <= b && b <= 0xf3 {
            if n - i < 4 || !(0x80 <= s[i + 1] && s[i + 1] < 0xc0) || !(0x80 <= s[i + 2] && s[i
                + 2] < 0xc0) || !(0x80 <= s[i + 3] && s[i + 3] < 0xc0) {
                return false;
            }
            i = i + 4;
        } else if b == 0xf4 {
            if n - i < 4 || !(0x80 <= s[i + 1] && s[i + 1] <= 0x8f) || !(0x80 <= s[i + 2] && s[i
                + 2] < 0xc0) || !(0x80 <= s[i + 3] && s[i + 3] < 0xc0) {
                return false;
            }
            i = i + 4;
        } else {
            return false;
        }
    }
    true
}

} // verus!

use crate::grammar::rep_boundary;
use crate::str_trait::Str;

verus! {

/// Owned, checked UTF-8 text: the byte-string counterpart whose slicing is
/// restricted to code-point boundaries.
#[derive(Debug, Clone, PartialEq)]
pub struct Utf8String {
    bytes: Vec<u8>,
}

impl Utf8String {
    /// Validates `bytes` as strict UTF-8 and takes ownership of them.
    pub fn from_bytes(bytes: Vec<u8>) -> (r: Option<Utf8String>)
        ensures
            match r {
                Some(u) => u.inv() && u.sbytes() == bytes@,
                None => !is_utf8(bytes@),
            },
    {
        if validate_utf8(bytes.as_slice()) {
            Some(Utf8String { bytes })
        } else {
            None
        }
    }

    /// Gives the text up as its bytes.
    pub fn into_bytes(self) -> (r: Vec<u8>)
        ensures
            r@ == self.sbytes(),
    {
        self.bytes
    }
}

impl Str for Utf8String {
    closed spec fn sbytes(&self) -> Seq<u8> {
        self.bytes@
    }

    open spec fn checked(&self) -> bool {
        true
    }

    closed spec fn inv(&self) -> bool {
        is_utf8(self.bytes@)
    }

    proof fn lemma_len(&self) {
        broadcast use vstd::std_specs::vec::group_vec_axioms;

        assert(vstd::std_specs::vec::spec_vec_len(&self.bytes) == self.bytes@.len());
    }

    proof fn lemma_ascii_boundary(&self, i: int) {
        let s = self.bytes@;
        lemma_utf8_suffix(s, 0, i);
        assert(is_utf8_from(s, i));
        if i + 1 < s.len() && is_cont(s[i + 1]) {
            assert(is_utf8_from(s, i + 1));
            assert(false);
        }
    }

    fn len(&self) -> (n: usize) {
        self.bytes.len()
    }

    fn as_bytes(&self) -> (r: &[u8]) {
        self.bytes.as_slice()
    }

    fn is_empty(&self) -> (r: bool) {
        self.bytes.len() == 0
    }

    fn get_u8_char(&self, i: usize) -> (r: Option<u8>) {
        let n = self.bytes.len();
        if i + 1 == n || !(0x80 <= self.bytes[i + 1] && self.bytes[i + 1] < 0xc0) {
            Some(self.bytes[i])
        } else {
            None
        }
    }

    fn clone_slice(&self, i: usize, j: usize) -> (r: Option<Self>) {
        let n = self.bytes.len();
        if j < n && 0x80 <= self.bytes[j] && self.bytes[j] < 0xc0 {
            None
        } else {
            proof {
                lemma_utf8_slice(self.bytes@, i as int, j as int);
            }
            Some(
                Utf8String {
                    bytes: vstd::slice::slice_to_vec(
                        vstd::slice::slice_subrange(self.bytes.as_slice(), i, j),
                    ),
                },
            )
        }
    }

    fn find(&self, i: usize, target: u8) -> (r: Option<usize>) {
        let n = self.bytes.len();
        let mut k: usize = i + 1;
        while k < n
            invariant
                i < k <= n,
                n == self.bytes@.len(),
                self.inv(),
                target < 0x80,
                forall|m: int| i < m < k ==> self.bytes@[m] != target,
            decreases n - k,
        {
            if self.bytes[k] == target {
                proof {
                    self.lemma_ascii_boundary(k as int);
                }
                return Some(k);
            }
            k = k + 1;
        }
        None
    }

    fn range_from(&self, i: usize) -> (r: Self) {
        let n = self.bytes.len();
        proof {
            lemma_utf8_slice(self.bytes@, i as int, n as int);
            assert(self.bytes@.subrange(i as int, n as int) =~= self.bytes@.skip(i as int));
        }
        Utf8String {
            bytes: vstd::slice::slice_to_vec(
                vstd::slice::slice_subrange(self.bytes.as_slice(), i, n),
            ),
        }
    }

    fn range(&self, i: usize, j: usize) -> (r: Self) {
        proof {
            lemma_utf8_slice(self.bytes@, i as int, j as int);
        }
        Utf8String {
            bytes: vstd::slice::slice_to_vec(
                vstd::slice::slice_subrange(self.bytes.as_slice(), i, j),
            ),
        }
    }
}

} // verus!

verus! {

impl Utf8String {
    /// The empty text.
    pub fn empty() -> (r: Utf8String)
        ensures
            r.inv(),
            r.sbytes() == Seq::<u8>::empty(),
    {
        let r = Utf8String { bytes: Vec::new() };
        proof {
            assert(r.bytes@ =~= Seq::<u8>::empty());
        }
        r
    }
}

} // verus!

verus! {

/// Borrowed, checked UTF-8 text: a zero-copy slice of the original buffer
/// whose slicing is restricted to code-point boundaries.
#[derive(Debug, Clone, Copy, PartialEq)]
pub struct Utf8Str<'a> {
    bytes: &'a [u8],
}

impl<'a> Utf8Str<'a> {
    /// Validates `bytes` as strict UTF-8 and borrows them.
    pub fn from_slice(bytes: &'a [u8]) -> (r: Option<Utf8Str<'a>>)
        ensures
            match r {
                Some(u) => u.inv() && u.sbytes() == bytes@,
                None => !is_utf8(bytes@),
            },
    {
        if validate_utf8(bytes) {
            Some(Utf8Str { bytes })
        } else {
            None
        }
    }
}

impl<'a> Str for Utf8Str<'a> {
    closed spec fn sbytes(&self) -> Seq<u8> {
        self.bytes@
    }

    open spec fn checked(&self) -> bool {
        true
    }

    closed spec fn inv(&self) -> bool {
        is_utf8(self.bytes@)
    }

    proof fn lemma_len(&self) {
        broadcast use vstd::slice::axiom_spec_len;

        assert(vstd::slice::spec_slice_len(self.bytes) == self.bytes@.len());
    }

    proof fn lemma_ascii_boundary(&self, i: int) {
        let s = self.bytes@;
        lemma_utf8_suffix(s, 0, i);
        assert(is_utf8_from(s, i));
        if i + 1 < s.len() && is_cont(s[i + 1]) {
            assert(is_utf8_from(s, i + 1));
            assert(false);
        }
    }

    fn len(&self) -> (n: usize) {
        <[u8]>::len(self.bytes)
    }

    fn as_bytes(&self) -> (r: &[u8]) {
        self.bytes
    }

    fn is_empty(&self) -> (r: bool) {
        <[u8]>::len(self.bytes) == 0
    }

    fn get_u8_char(&self, i: usize) -> (r: Option<u8>) {
        let n = <[u8]>::len(self.bytes);
        if i + 1 == n || !(0x80 <= self.bytes[i + 1] && self.bytes[i + 1] < 0xc0) {
            Some(self.bytes[i])
        } else {
            None
        }
    }

    fn clone_slice(&self, i: usize, j: usize) -> (r: Option<Self>) {
        let n = <[u8]>::len(self.bytes);
        if j < n && 0x80 <= self.bytes[j] && self.bytes[j] < 0xc0 {
            None
        } else {
            proof {
                lemma_utf8_slice(self.bytes@, i as int, j as int);
            }
            Some(Utf8Str { bytes: vstd::slice::slice_subrange(self.bytes, i, j) })
        }
    }

    fn find(&self, i: usize, target: u8) -> (r: Option<usize>) {
        let n = <[u8]>::len(self.bytes);
        let mut k: usize = i + 1;
        while k < n
            invariant
                i < k <= n,
                n == self.bytes@.len(),
                self.inv(),
                target < 0x80,
                forall|m: int| i < m < k ==> self.bytes@[m] != target,
            decreases n - k,
        {
            if self.bytes[k] == target {
                proof {
                    self.lemma_ascii_boundary(k as int);
                }
                return Some(k);
            }
            k = k + 1;
        }
        None
    }

    fn range_from(&self, i: usize) -> (r: Self) {
        let n = <[u8]>::len(self.bytes);
        proof {
            lemma_utf8_slice(self.bytes@, i as int, n as int);
            assert(self.bytes@.subrange(i as int, n as int) =~= self.bytes@.skip(i as int));
        }
        Utf8Str { bytes: vstd::slice::slice_subrange(self.bytes, i, n) }
    }

    fn range(&self, i: usize, j: usize) -> (r: Self) {
        proof {
            lemma_utf8_slice(self.bytes@, i as int, j as int);
        }
        Utf8Str { bytes: vstd::slice::slice_subrange(self.bytes, i, j) }
    }
}

} // verus!
