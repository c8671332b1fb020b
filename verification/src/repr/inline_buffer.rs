//! Short strings stored directly in the value.
//!
//! The sixteen bytes hold the text in the low positions; the final byte is a
//! tag.  A tag of `0xC0 + k` (for `k < 16`) marks an inline string of length
//! `k` whose unused bytes are zero.  A full sixteen-byte string stores its
//! final payload byte where the tag would sit: every byte that can end a
//! valid UTF-8 string is below `0xC0`, so such a value can never collide with
//! the heap and static markers (`0xFE`, `0xFF`).

use vstd::prelude::*;
use vstd::slice::slice_index_get;
use vstd::slice::slice_subrange;
use vstd::utf8::*;

verus! {

/// Tag value marking an empty inline string; `INLINE_TAG_BASE + k` marks
/// inline length `k`.
pub const INLINE_TAG_BASE: u8 = 0xC0;

pub struct InlineBuffer {
    data: [u8; 16],
}

impl InlineBuffer {
    /// The tag byte at the final position.
    pub closed spec fn spec_tag(&self) -> u8 {
        self.data@[15]
    }

    /// Stored length: the tag encodes it, and any tag below the base marks a
    /// full buffer.
    pub closed spec fn spec_len(&self) -> int {
        if self.spec_tag() < INLINE_TAG_BASE {
            16
        } else {
            self.spec_tag() - INLINE_TAG_BASE
        }
    }

    #[verifier::type_invariant]
    closed spec fn inv(&self) -> bool {
        &&& valid_utf8(self@)
        &&& (self.spec_tag() >= INLINE_TAG_BASE ==> {
            &&& self.spec_tag() <= 0xCF
            &&& forall|j: int| self.spec_len() <= j < 15 ==> self.data@[j] == 0
        })
    }

    /// An empty inline buffer: all zeroes, tag set to the base.
    pub fn empty() -> (r: Self)
        ensures
            r@ =~= Seq::<u8>::empty(),
    {
        let mut data: [u8; 16] = [0u8; 16];
        data[15] = INLINE_TAG_BASE;
        proof {
            assert(data@.take(0) =~= Seq::<u8>::empty());
        }
        let r = InlineBuffer { data };
        proof {
            assert(r@ =~= Seq::<u8>::empty());
        }
        r
    }

    /// Copies a short UTF-8 byte sequence into a fresh inline buffer.
    pub fn from_bytes(b: &[u8]) -> (r: Self)
        requires
            b@.len() <= 16,
            valid_utf8(b@),
        ensures
            r@ =~= b@,
    {
        let len: usize = b.len();
        let mut data: [u8; 16] = [0u8; 16];
        let mut i: usize = 0;
        while i < len
            invariant
                len == b@.len() <= 16,
                0 <= i <= len,
                forall|j: int| 0 <= j < i ==> data@[j] == b@[j],
                forall|j: int| i <= j < 16 ==> data@[j] == 0,
            decreases len - i,
        {
            data[i] = *slice_index_get(b, i);
            i = i + 1;
        }
        if len < 16 {
            data[15] = INLINE_TAG_BASE + (len as u8);
        } else {
            proof {
                broadcast use vstd::utf8::valid_utf8_last;

                assert(b@.last() == b@[15]);
                assert(!is_continuation_byte(b@[15]) ==> is_leading_byte_width_1(b@[15]));
                assert(b@[15] < 0xC0);
            }
        }
        proof {
            assert(data@.take(b@.len() as int) =~= b@);
        }
        let r = InlineBuffer { data };
        proof {
            assert(r@ =~= b@);
        }
        r
    }

    /// Length in bytes, extracted from the tag by the clamped wrapping
    /// subtraction described in the layout notes.
    pub fn len(&self) -> (n: usize)
        ensures
            n == self@.len(),
            n <= 16,
            valid_utf8(self@),
    {
        proof {
            use_type_invariant(self);
        }
        let tag: u8 = self.data[15];
        let l: u8 = tag.wrapping_sub(INLINE_TAG_BASE);
        if l < 16 {
            l as usize
        } else {
            16
        }
    }

    /// Borrows the stored bytes.
    pub fn as_bytes(&self) -> (r: &[u8])
        ensures
            r@ =~= self@,
            valid_utf8(self@),
            self@.len() <= 16,
    {
        proof {
            use_type_invariant(self);
        }
        let n = self.len();
        slice_subrange(self.data.as_slice(), 0, n)
    }

    /// Shortens the stored text to `new_len` bytes, zeroing the tail.
    pub fn set_len(&mut self, new_len: usize)
        requires
            new_len <= old(self)@.len(),
            valid_utf8(old(self)@.take(new_len as int)),
        ensures
            final(self)@ =~= old(self)@.take(new_len as int),
    {
        proof {
            use_type_invariant(&*self);
        }
        if new_len < 16 {
            let mut data: [u8; 16] = [0u8; 16];
            let mut i: usize = 0;
            while i < new_len
                invariant
                    new_len <= old(self)@.len() <= 16,
                    *self == *old(self),
                    0 <= i <= new_len < 16,
                    forall|j: int| 0 <= j < i ==> data@[j] == old(self)@[j],
                    forall|j: int| i <= j < 16 ==> data@[j] == 0,
                decreases new_len - i,
            {
                proof {
                    use_type_invariant(&*self);
                    assert(self.data@[i as int] == self@[i as int]);
                }
                data[i] = self.data[i];
                i = i + 1;
            }
            data[15] = INLINE_TAG_BASE + (new_len as u8);
            proof {
                assert(data@.take(new_len as int) =~= old(self)@.take(new_len as int));
            }
            let r = InlineBuffer { data };
            proof {
                assert(r@ =~= old(self)@.take(new_len as int));
            }
            *self = r;
        } else {
            // `new_len` is 16, so the whole buffer is kept.
            proof {
                assert(self@ =~= old(self)@.take(new_len as int));
            }
        }
    }
}

impl View for InlineBuffer {
    type V = Seq<u8>;

    closed spec fn view(&self) -> Seq<u8> {
        self.data@.take(self.spec_len())
    }
}

impl Clone for InlineBuffer {
    fn clone(&self) -> (r: Self)
        ensures
            r == *self,
    {
        proof {
            use_type_invariant(self);
        }
        InlineBuffer { data: self.data }
    }
}

} // verus!
