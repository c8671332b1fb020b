//! The shared, reference-counted heap buffer.
//!
//! A heap-backed value holds a shared byte buffer of a fixed capacity
//! together with a packed length.  The byte payload of a shared buffer is
//! never written: every mutation either proves that this reference is the
//! only one and rebuilds a buffer of the same capacity, or allocates a fresh
//! one, so other owners of the same buffer always observe their bytes
//! unchanged.  The length is packed into a 64-bit word whose top byte holds
//! the heap tag, exactly as the two-word layout stores it.

use crate::reserve_error::ReserveError;
use crate::MAX_TEXT_SIZE;
use std::sync::Arc;
use vstd::prelude::*;
use vstd::slice::slice_index_get;
use vstd::slice::slice_subrange;
use vstd::utf8::*;

verus! {

/// Tag bits in the top byte of a packed heap length.
pub const HEAP_LENGTH_TAG: u64 = 0xFE00_0000_0000_0000;

/// Largest of two machine words.
pub fn max(x: usize, y: usize) -> (r: usize)
    ensures
        r == if x > y {
            x
        } else {
            y
        },
{
    if x > y {
        x
    } else {
        y
    }
}

/// Capacity chosen when a buffer grows: at least what is required, and at
/// least one and a half times the current length, both saturating.
pub open spec fn spec_amortized_growth(cur_len: usize, additional: usize) -> usize {
    let required = cur_len.saturating_add(additional);
    let amortized = if cur_len * 3 > usize::MAX {
        (usize::MAX / 2) as usize
    } else {
        ((cur_len * 3) / 2) as usize
    };
    if amortized > required {
        amortized
    } else {
        required
    }
}

/// A heap buffer grows at an amortized rate of 1.5x.
pub fn amortized_growth(cur_len: usize, additional: usize) -> (r: usize)
    ensures
        r == spec_amortized_growth(cur_len, additional),
        r >= cur_len,
        cur_len + additional <= usize::MAX ==> r >= cur_len + additional,
{
    let required = cur_len.saturating_add(additional);
    let amortized = match cur_len.checked_mul(3) {
        Some(v) => v / 2,
        None => usize::MAX / 2,
    };
    max(amortized, required)
}

/// The growth policy never reserves less than what is required, and as long
/// as the tripled length still fits a machine word it reserves at least one
/// and a half times the current length.  The second bound is what makes a
/// run of single-byte appends take only logarithmically many allocations.
pub proof fn lemma_amortized_growth_bounds(cur_len: usize, additional: usize)
    ensures
        spec_amortized_growth(cur_len, additional) >= cur_len.saturating_add(additional),
        cur_len * 3 <= usize::MAX ==> spec_amortized_growth(cur_len, additional) >= (cur_len * 3)
            / 2,
{
}

/// Packing a length below the tag leaves it recoverable, and keeps the top
/// byte equal to the tag.
proof fn lemma_pack_heap_length(size: u64)
    by (bit_vector)
    requires
        size <= 0x00FF_FFFF_FFFF_FFFF,
    ensures
        (size | 0xFE00_0000_0000_0000) ^ 0xFE00_0000_0000_0000 == size,
{
}

/// The length of a heap buffer, packed beside the heap tag in one word.
#[derive(Clone, Copy)]
pub struct TextSize {
    packed: u64,
}

impl TextSize {
    /// The length this value records.
    pub closed spec fn spec_value(&self) -> u64 {
        self.packed ^ HEAP_LENGTH_TAG
    }

    #[verifier::type_invariant]
    closed spec fn inv(&self) -> bool {
        &&& self.spec_value() <= MAX_TEXT_SIZE
        &&& self.spec_value() <= usize::MAX as u64
    }

    /// Packs a byte length, refusing one that does not fit below the tag.
    pub fn new(size: usize) -> (r: Result<TextSize, ReserveError>)
        ensures
            r is Ok <==> size as u64 <= MAX_TEXT_SIZE,
            r matches Ok(t) ==> t.spec_value() == size as u64,
    {
        if size as u64 > MAX_TEXT_SIZE {
            return Err(ReserveError);
        }
        proof {
            lemma_pack_heap_length(size as u64);
        }
        Ok(TextSize { packed: (size as u64) | HEAP_LENGTH_TAG })
    }

    /// Recovers the packed length.
    pub fn as_usize(self) -> (r: usize)
        ensures
            r as u64 == self.spec_value(),
    {
        proof {
            use_type_invariant(&self);
        }
        (self.packed ^ HEAP_LENGTH_TAG) as usize
    }
}

/// Relies on `std::sync::Arc::strong_count`: the result tells whether this
/// reference was the only one at the moment of the call.  Nothing is assumed
/// about the value: other references are created and dropped outside this
/// buffer's view of the world, so callers must be correct for either answer.
#[verifier::external_body]
fn arc_is_unique(buf: &Arc<Vec<u8>>) -> bool {
    Arc::strong_count(buf) == 1
}

/// A reference-counted byte buffer of fixed capacity holding a UTF-8 prefix.
pub struct HeapBuffer {
    buf: Arc<Vec<u8>>,
    len: TextSize,
}

impl View for HeapBuffer {
    type V = Seq<u8>;

    closed spec fn view(&self) -> Seq<u8> {
        self.buf@.take(self.len.spec_value() as int)
    }
}

impl HeapBuffer {
    /// Total capacity of the allocation, in bytes.
    pub closed spec fn spec_capacity(&self) -> int {
        self.buf@.len() as int
    }

    #[verifier::type_invariant]
    closed spec fn inv(&self) -> bool {
        &&& self.len.spec_value() <= self.buf@.len()
        &&& self.buf@.len() <= MAX_TEXT_SIZE
        &&& valid_utf8(self@)
    }

    /// Builds a fresh buffer of exactly `capacity` bytes holding `b`.
    #[verifier::loop_isolation(false)]
    pub(crate) fn build(b: &[u8], capacity: usize) -> (r: Result<HeapBuffer, ReserveError>)
        requires
            b@.len() <= capacity,
            valid_utf8(b@),
        ensures
            r is Ok <==> capacity as u64 <= MAX_TEXT_SIZE,
            r matches Ok(h) ==> h@ =~= b@ && h.spec_capacity() == capacity,
    {
        if capacity as u64 > MAX_TEXT_SIZE {
            return Err(ReserveError);
        }
        let n: usize = b.len();
        let mut v: Vec<u8> = Vec::with_capacity(capacity);
        let mut i: usize = 0;
        while i < n
            invariant
                n == b@.len(),
                0 <= i <= n,
                v@ =~= b@.take(i as int),
            decreases n - i,
        {
            v.push(*slice_index_get(b, i));
            proof {
                assert(v@ =~= b@.take(i + 1));
            }
            i = i + 1;
        }
        proof {
            assert(v@ =~= b@);
        }
        while v.len() < capacity
            invariant
                v@.len() <= capacity,
                v@.take(n as int) =~= b@,
                n <= v@.len(),
            decreases capacity - v@.len(),
        {
            v.push(0u8);
            proof {
                assert(v@.take(n as int) =~= b@);
            }
        }
        let len = match TextSize::new(n) {
            Ok(t) => t,
            Err(_) => vstd::pervasive::unreached(),
        };
        proof {
            assert(v@.take(n as int) =~= b@);
        }
        let r = HeapBuffer { buf: Arc::new(v), len };
        proof {
            assert(r@ =~= b@);
        }
        Ok(r)
    }

    /// A buffer holding a copy of `text`, with capacity equal to its length.
    pub fn new(text: &[u8]) -> (r: Result<HeapBuffer, ReserveError>)
        requires
            valid_utf8(text@),
        ensures
            r is Ok <==> text@.len() <= MAX_TEXT_SIZE,
            r matches Ok(h) ==> h@ =~= text@ && h.spec_capacity() == text@.len(),
    {
        HeapBuffer::build(text, text.len())
    }

    /// An empty buffer of the given capacity.
    pub fn with_capacity(capacity: usize) -> (r: Result<HeapBuffer, ReserveError>)
        ensures
            r is Ok <==> capacity as u64 <= MAX_TEXT_SIZE,
            r matches Ok(h) ==> h@ =~= Seq::<u8>::empty() && h.spec_capacity() == capacity,
    {
        let empty: [u8; 0] = [0u8; 0];
        HeapBuffer::build(empty.as_slice(), capacity)
    }

    /// A buffer holding a copy of `text` with room to grow: its capacity is
    /// the amortized growth of the text length by `additional`.
    pub fn with_additional(text: &[u8], additional: usize) -> (r: Result<HeapBuffer, ReserveError>)
        requires
            valid_utf8(text@),
        ensures
            r is Ok <==> spec_amortized_growth(text@.len() as usize, additional) as u64
                <= MAX_TEXT_SIZE,
            r matches Ok(h) ==> h@ =~= text@ && h.spec_capacity() == spec_amortized_growth(
                text@.len() as usize,
                additional,
            ),
    {
        let new_capacity = amortized_growth(text.len(), additional);
        HeapBuffer::build(text, new_capacity)
    }

    /// Capacity of the allocation, in bytes.
    pub fn capacity(&self) -> (r: usize)
        ensures
            r == self.spec_capacity(),
            self@.len() <= r,
            r as u64 <= MAX_TEXT_SIZE,
    {
        proof {
            use_type_invariant(self);
        }
        let v: &Vec<u8> = &*self.buf;
        v.len()
    }

    /// Length of the stored text, in bytes.
    pub fn len(&self) -> (r: usize)
        ensures
            r == self@.len(),
            r <= self.spec_capacity(),
            self.spec_capacity() <= MAX_TEXT_SIZE,
            valid_utf8(self@),
    {
        proof {
            use_type_invariant(self);
        }
        self.len.as_usize()
    }

    /// Borrows the stored text.
    pub fn as_bytes(&self) -> (r: &[u8])
        ensures
            r@ =~= self@,
            valid_utf8(self@),
            self@.len() <= self.spec_capacity(),
            self.spec_capacity() <= MAX_TEXT_SIZE,
    {
        proof {
            use_type_invariant(self);
        }
        let n = self.len();
        let v: &Vec<u8> = &*self.buf;
        slice_subrange(v.as_slice(), 0, n)
    }

    /// Whether this reference is the only owner of the buffer, observed at
    /// the moment of the call.  Nothing is known about the answer: other
    /// owners may appear or disappear concurrently.
    pub fn is_unique(&self) -> bool {
        arc_is_unique(&self.buf)
    }

    /// Replaces the allocation by one of capacity `new_capacity` holding the
    /// same text.
    pub fn realloc(&mut self, new_capacity: usize) -> (r: Result<(), ReserveError>)
        requires
            old(self)@.len() <= new_capacity,
        ensures
            r is Ok <==> new_capacity as u64 <= MAX_TEXT_SIZE,
            r is Ok ==> final(self)@ =~= old(self)@ && final(self).spec_capacity()
                == new_capacity,
            r is Err ==> *final(self) == *old(self),
    {
        let copied = match HeapBuffer::build(self.as_bytes(), new_capacity) {
            Ok(h) => h,
            Err(e) => {
                return Err(e);
            },
        };
        *self = copied;
        Ok(())
    }

    /// Shortens the stored text, leaving the allocation in place.
    pub fn set_len(&mut self, new_len: usize)
        requires
            new_len <= old(self)@.len(),
            valid_utf8(old(self)@.take(new_len as int)),
        ensures
            final(self)@ =~= old(self)@.take(new_len as int),
            final(self).spec_capacity() == old(self).spec_capacity(),
    {
        proof {
            use_type_invariant(&*self);
            assert(old(self)@.len() == old(self).len.spec_value());
            assert(old(self).len.spec_value() <= old(self).buf@.len());
            assert(new_len as u64 <= MAX_TEXT_SIZE);
        }
        let len = match TextSize::new(new_len) {
            Ok(t) => t,
            Err(_) => vstd::pervasive::unreached(),
        };
        let ghost prev = *self;
        let buf = self.buf.clone();
        proof {
            assert(buf@.take(new_len as int) =~= prev@.take(new_len as int));
        }
        let r = HeapBuffer { buf, len };
        *self = r;
    }

    /// A second handle to the same allocation: the bytes are shared, only
    /// the reference count changes.
    pub fn share(&self) -> (r: HeapBuffer)
        ensures
            r == *self,
    {
        proof {
            use_type_invariant(self);
        }
        HeapBuffer { buf: self.buf.clone(), len: self.len }
    }
}

impl Clone for HeapBuffer {
    fn clone(&self) -> (r: Self)
        ensures
            r == *self,
    {
        self.share()
    }
}

} // verus!
