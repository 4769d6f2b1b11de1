use vstd::prelude::*;

use crate::grammar::rep_boundary;

verus! {

/// A string of data, either owned or referenced, either raw bytes or
/// checked text.
///
/// Offsets into a representation are meaningful only at its boundaries
/// (every offset for raw bytes, code-point boundaries for checked text).
/// Each slicing method states the boundary conditions it needs as a
/// precondition, so a caller must have established them — typically from an
/// earlier call's postcondition — before slicing.
pub trait Str: Sized {
    /// The bytes of the string.
    spec fn sbytes(&self) -> Seq<u8>;

    /// Whether this representation validates text, so that only boundary
    /// offsets may split it.
    spec fn checked(&self) -> bool;

    /// The representation invariant.
    spec fn inv(&self) -> bool;

    /// The byte length of any representation fits a machine word.
    proof fn lemma_len(&self)
        requires
            self.inv(),
        ensures
            self.sbytes().len() <= usize::MAX,
    ;

    /// The offset after an ASCII byte is always a boundary: a multi-byte
    /// unit of a checked representation never starts right after one.
    proof fn lemma_ascii_boundary(&self, i: int)
        requires
            self.inv(),
            0 <= i < self.sbytes().len(),
            self.sbytes()[i] < 0x80,
        ensures
            rep_boundary(self.checked(), self.sbytes(), i + 1),
    ;

    /// Gets the length of the string in bytes.
    fn len(&self) -> (n: usize)
        requires
            self.inv(),
        ensures
            n == self.sbytes().len(),
    ;

    /// Expresses the string as a slice of bytes.
    fn as_bytes(&self) -> (r: &[u8])
        requires
            self.inv(),
        ensures
            r@ == self.sbytes(),
    ;

    /// Returns whether the string is empty.
    fn is_empty(&self) -> (r: bool)
        requires
            self.inv(),
        ensures
            r == (self.sbytes().len() == 0),
    ;

    /// Gets the byte at offset `i`, or `None` if `i + 1` is not a boundary.
    fn get_u8_char(&self, i: usize) -> (r: Option<u8>)
        requires
            self.inv(),
            rep_boundary(self.checked(), self.sbytes(), i as int),
            i < self.sbytes().len(),
        ensures
            match r {
                Some(b) => b == self.sbytes()[i as int] && rep_boundary(self.checked(), self.sbytes(), i + 1),
                None => !rep_boundary(self.checked(), self.sbytes(), i + 1),
            },
    ;

    /// Clones the bytes from offset `i` to offset `j`, or `None` if `j` is
    /// not a boundary.
    fn clone_slice(&self, i: usize, j: usize) -> (r: Option<Self>)
        requires
            self.inv(),
            rep_boundary(self.checked(), self.sbytes(), i as int),
            i <= j <= self.sbytes().len(),
        ensures
            match r {
                Some(s) => rep_boundary(self.checked(), self.sbytes(), j as int) && s.inv() && s.checked()
                    == self.checked() && s.sbytes() == self.sbytes().subrange(i as int, j as int),
                None => !rep_boundary(self.checked(), self.sbytes(), j as int),
            },
    ;

    /// Finds the offset of the first occurrence of the ASCII byte `target`
    /// strictly after offset `i`.  Because `target` is ASCII, a found
    /// offset, and the offset after it, are always boundaries.
    fn find(&self, i: usize, target: u8) -> (r: Option<usize>)
        requires
            self.inv(),
            i < self.sbytes().len(),
            target < 0x80,
        ensures
            match r {
                Some(q) => i < q < self.sbytes().len() && self.sbytes()[q as int] == target
                    && rep_boundary(self.checked(), self.sbytes(), q as int) && rep_boundary(self.checked(), self.sbytes(), q + 1) && forall|k: int|
                    i < k < q ==> self.sbytes()[k] != target,
                None => forall|k: int| i < k < self.sbytes().len() ==> self.sbytes()[k] != target,
            },
    ;

    /// Takes the subslice from boundary `i` to the end.
    fn range_from(&self, i: usize) -> (r: Self)
        requires
            self.inv(),
            rep_boundary(self.checked(), self.sbytes(), i as int),
            i <= self.sbytes().len(),
        ensures
            r.inv(),
            r.checked() == self.checked(),
            r.sbytes() == self.sbytes().skip(i as int),
    ;

    /// Takes the subslice between boundaries `i` and `j`.
    fn range(&self, i: usize, j: usize) -> (r: Self)
        requires
            self.inv(),
            rep_boundary(self.checked(), self.sbytes(), i as int),
            rep_boundary(self.checked(), self.sbytes(), j as int),
            i <= j <= self.sbytes().len(),
        ensures
            r.inv(),
            r.checked() == self.checked(),
            r.sbytes() == self.sbytes().subrange(i as int, j as int),
    ;
}

/// Whether offset `i` may split the representation of `s`.
pub open spec fn str_boundary<S: Str>(s: &S, i: int) -> bool {
    rep_boundary(s.checked(), s.sbytes(), i)
}

/// Raw owned bytes: every offset is a boundary.
impl Str for Vec<u8> {
    open spec fn sbytes(&self) -> Seq<u8> {
        self@
    }

    open spec fn checked(&self) -> bool {
        false
    }

    open spec fn inv(&self) -> bool {
        true
    }

    proof fn lemma_len(&self) {
        broadcast use vstd::std_specs::vec::group_vec_axioms;

        assert(vstd::std_specs::vec::spec_vec_len(self) == self@.len());
    }

    proof fn lemma_ascii_boundary(&self, i: int) {
    }

    fn len(&self) -> (n: usize) {
        self.len()
    }

    fn as_bytes(&self) -> (r: &[u8]) {
        self.as_slice()
    }

    fn is_empty(&self) -> (r: bool) {
        self.len() == 0
    }

    fn get_u8_char(&self, i: usize) -> (r: Option<u8>) {
        Some(self[i])
    }

    fn clone_slice(&self, i: usize, j: usize) -> (r: Option<Self>) {
        Some(vstd::slice::slice_to_vec(vstd::slice::slice_subrange(self.as_slice(), i, j)))
    }

    fn find(&self, i: usize, target: u8) -> (r: Option<usize>) {
        let n = self.len();
        let mut k: usize = i + 1;
        while k < n
            invariant
                i < k <= n,
                n == self@.len(),
                forall|m: int| i < m < k ==> self@[m] != target,
            decreases n - k,
        {
            if self[k] == target {
                return Some(k);
            }
            k = k + 1;
        }
        None
    }

    fn range_from(&self, i: usize) -> (r: Self) {
        let r = vstd::slice::slice_to_vec(
            vstd::slice::slice_subrange(self.as_slice(), i, self.len()),
        );
        proof {
            assert(r@ =~= self@.skip(i as int));
        }
        r
    }

    fn range(&self, i: usize, j: usize) -> (r: Self) {
        vstd::slice::slice_to_vec(vstd::slice::slice_subrange(self.as_slice(), i, j))
    }
}

} // verus!

verus! {

/// Raw borrowed bytes: a zero-copy slice of the original buffer, with every
/// offset a boundary.
impl<'a> Str for &'a [u8] {
    open spec fn sbytes(&self) -> Seq<u8> {
        self@
    }

    open spec fn checked(&self) -> bool {
        false
    }

    open spec fn inv(&self) -> bool {
        true
    }

    proof fn lemma_len(&self) {
        broadcast use vstd::slice::axiom_spec_len;

        assert(vstd::slice::spec_slice_len(*self) == self@.len());
    }

    proof fn lemma_ascii_boundary(&self, i: int) {
    }

    fn len(&self) -> (n: usize) {
        <[u8]>::len(self)
    }

    fn as_bytes(&self) -> (r: &[u8]) {
        self
    }

    fn is_empty(&self) -> (r: bool) {
        <[u8]>::len(self) == 0
    }

    fn get_u8_char(&self, i: usize) -> (r: Option<u8>) {
        Some(self[i])
    }

    fn clone_slice(&self, i: usize, j: usize) -> (r: Option<Self>) {
        Some(vstd::slice::slice_subrange(*self, i, j))
    }

    fn find(&self, i: usize, target: u8) -> (r: Option<usize>) {
        let n = <[u8]>::len(self);
        let mut k: usize = i + 1;
        while k < n
            invariant
                i < k <= n,
                n == self@.len(),
                forall|m: int| i < m < k ==> self@[m] != target,
            decreases n - k,
        {
            if self[k] == target {
                return Some(k);
            }
            k = k + 1;
        }
        None
    }

    fn range_from(&self, i: usize) -> (r: Self) {
        let r = vstd::slice::slice_subrange(*self, i, <[u8]>::len(self));
        proof {
            assert(r@ =~= self@.skip(i as int));
        }
        r
    }

    fn range(&self, i: usize, j: usize) -> (r: Self) {
        vstd::slice::slice_subrange(*self, i, j)
    }
}

} // verus!
