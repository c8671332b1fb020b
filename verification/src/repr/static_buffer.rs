//! Borrowed, immortal text referenced without owning it.
//!
//! A static buffer points at caller-provided bytes that live for the whole
//! program, and records a length packed beside the static tag, the same way
//! a heap length is packed beside the heap tag.  The bytes are never
//! modified; shortening the recorded length is the only permitted change.

use crate::reserve_error::ReserveError;
use crate::MAX_TEXT_SIZE;
use vstd::prelude::*;
use vstd::slice::slice_subrange;
use vstd::utf8::*;

verus! {

/// Tag bits in the top byte of a packed static length.
pub const STATIC_LENGTH_TAG: u64 = 0xFF00_0000_0000_0000;

/// Packing a length below the static tag leaves it recoverable.
proof fn lemma_pack_static_length(size: u64)
    by (bit_vector)
    requires
        size <= 0x00FF_FFFF_FFFF_FFFF,
    ensures
        (size | 0xFF00_0000_0000_0000) & 0x00FF_FFFF_FFFF_FFFF == size,
{
}

/// A borrowed, immortal byte sequence and the packed length of the prefix
/// this value exposes.
pub struct StaticBuffer {
    data: &'static [u8],
    len: u64,
}

impl View for StaticBuffer {
    type V = Seq<u8>;

    closed spec fn view(&self) -> Seq<u8> {
        self.data@.take(self.spec_len())
    }
}

impl StaticBuffer {
    /// The length recorded beside the tag.
    pub closed spec fn spec_len(&self) -> int {
        (self.len & 0x00FF_FFFF_FFFF_FFFF) as int
    }

    #[verifier::type_invariant]
    closed spec fn inv(&self) -> bool {
        &&& self.spec_len() <= self.data@.len()
        &&& self.spec_len() <= MAX_TEXT_SIZE
        &&& self.spec_len() <= usize::MAX as int
        &&& valid_utf8(self@)
    }

    /// Borrows immortal UTF-8 bytes, refusing a length that does not fit
    /// below the tag.
    pub fn new(text: &'static [u8]) -> (r: Result<StaticBuffer, ReserveError>)
        requires
            valid_utf8(text@),
        ensures
            r is Ok <==> text@.len() <= MAX_TEXT_SIZE,
            r matches Ok(b) ==> b@ =~= text@,
    {
        let text_len: usize = text.len();
        if text_len as u64 > MAX_TEXT_SIZE {
            return Err(ReserveError);
        }
        proof {
            lemma_pack_static_length(text_len as u64);
            assert(text@.take(text_len as int) =~= text@);
        }
        let r = StaticBuffer { data: text, len: (text_len as u64) | STATIC_LENGTH_TAG };
        proof {
            assert(r@ =~= text@);
        }
        Ok(r)
    }

    /// Length of the exposed prefix, recovered by masking the tag away.
    pub fn len(&self) -> (r: usize)
        ensures
            r == self@.len(),
            r as u64 <= MAX_TEXT_SIZE,
            valid_utf8(self@),
    {
        proof {
            use_type_invariant(self);
        }
        (self.len & 0x00FF_FFFF_FFFF_FFFF) as usize
    }

    /// Borrows the exposed prefix.
    pub fn as_bytes(&self) -> (r: &[u8])
        ensures
            r@ =~= self@,
            valid_utf8(self@),
            self@.len() <= MAX_TEXT_SIZE,
    {
        proof {
            use_type_invariant(self);
        }
        let n = self.len();
        slice_subrange(self.data, 0, n)
    }

    /// Shortens the exposed prefix; the borrowed bytes are untouched.
    pub fn set_len(&mut self, new_len: usize)
        requires
            new_len <= old(self)@.len(),
            valid_utf8(old(self)@.take(new_len as int)),
        ensures
            final(self)@ =~= old(self)@.take(new_len as int),
    {
        proof {
            use_type_invariant(&*self);
            lemma_pack_static_length(new_len as u64);
        }
        let ghost prev = *self;
        proof {
            assert(self.data@.take(new_len as int) =~= prev@.take(new_len as int));
        }
        let r = StaticBuffer { data: self.data, len: (new_len as u64) | STATIC_LENGTH_TAG };
        proof {
            assert(r@ =~= prev@.take(new_len as int));
        }
        *self = r;
    }
}

impl Clone for StaticBuffer {
    fn clone(&self) -> (r: Self)
        ensures
            r == *self,
    {
        proof {
            use_type_invariant(self);
        }
        StaticBuffer { data: self.data, len: self.len }
    }
}

} // verus!
