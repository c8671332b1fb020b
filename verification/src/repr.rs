//! The tagged two-word representation.
//!
//! A [`Repr`] is always in exactly one of three storage variants: short text
//! inline in the value, borrowed immortal text, or a shared reference-counted
//! heap buffer.  Read-only operations dispatch on the variant; mutating
//! operations first make the value modifiable (never static, and sole owner
//! of its heap buffer) and then work in place.

pub mod heap_buffer;
pub mod inline_buffer;
pub mod static_buffer;

use crate::reserve_error::ReserveError;
use crate::unicode::bytes_to_str;
use crate::unicode::decode_char_at;
use crate::unicode::decode_last_char;
use crate::unicode::lemma_concat_utf8;
use crate::unicode::lemma_mask_push;
use crate::unicode::lemma_remove_scalar;
use crate::unicode::mask_chars;
use crate::MAX_INLINE_SIZE;
use crate::MAX_TEXT_SIZE;
use heap_buffer::amortized_growth;
use heap_buffer::max;
use heap_buffer::spec_amortized_growth;
use heap_buffer::HeapBuffer;
use inline_buffer::InlineBuffer;
use static_buffer::StaticBuffer;
use vstd::prelude::*;
use vstd::string::StringSliceAdditionalSpecFns;
use vstd::utf8::*;

verus! {

/// Whether growing a text of these bytes by `additional` stays within the
/// representable sizes, whichever storage and sharing situation the growth
/// path runs into.
pub open spec fn growth_fits(s: Seq<u8>, additional: usize) -> bool {
    &&& s.len() + additional <= usize::MAX
    &&& spec_amortized_growth(s.len() as usize, additional) <= MAX_TEXT_SIZE
}

/// A fresh vector holding one byte sequence followed by another.
fn concat_bytes(a: &[u8], b: &[u8]) -> (v: Vec<u8>)
    ensures
        v@ =~= a@ + b@,
{
    let mut v: Vec<u8> = vstd::slice::slice_to_vec(a);
    let n: usize = b.len();
    let mut i: usize = 0;
    while i < n
        invariant
            n == b@.len(),
            0 <= i <= n,
            v@ =~= a@ + b@.take(i as int),
        decreases n - i,
    {
        v.push(*vstd::slice::slice_index_get(b, i));
        proof {
            assert(v@ =~= a@ + b@.take(i + 1));
        }
        i = i + 1;
    }
    proof {
        assert(v@ =~= a@ + b@);
    }
    v
}

/// Appends `src[from..to]` to `dst`.
fn push_subrange(dst: &mut Vec<u8>, src: &[u8], from: usize, to: usize)
    requires
        from <= to <= src@.len(),
    ensures
        final(dst)@ =~= old(dst)@ + src@.subrange(from as int, to as int),
{
    let ghost dst0 = dst@;
    let mut j: usize = from;
    while j < to
        invariant
            from <= j <= to <= src@.len(),
            dst@ =~= dst0 + src@.subrange(from as int, j as int),
        decreases to - j,
    {
        dst.push(*vstd::slice::slice_index_get(src, j));
        proof {
            assert(dst@ =~= dst0 + src@.subrange(from as int, j + 1));
        }
        j = j + 1;
    }
    proof {
        assert(dst@ =~= dst0 + src@.subrange(from as int, to as int));
    }
}

/// The two-word tagged union: the user-visible core of the crate.
pub enum Repr {
    Inline(InlineBuffer),
    Static(StaticBuffer),
    Heap(HeapBuffer),
}

impl View for Repr {
    type V = Seq<u8>;

    open spec fn view(&self) -> Seq<u8> {
        match self {
            Repr::Inline(b) => b@,
            Repr::Static(b) => b@,
            Repr::Heap(b) => b@,
        }
    }
}

impl Repr {
    /// Whether the text lives in a shared heap buffer.
    pub open spec fn is_heap(&self) -> bool {
        self is Heap
    }

    /// Whether the text is borrowed immortal bytes.
    pub open spec fn is_static(&self) -> bool {
        self is Static
    }

    /// Capacity in bytes: the inline size for inline values, the recorded
    /// length for static values, and the allocation size for heap values.
    pub open spec fn spec_capacity(&self) -> int {
        match self {
            Repr::Inline(_) => MAX_INLINE_SIZE as int,
            Repr::Static(b) => b@.len() as int,
            Repr::Heap(b) => b.spec_capacity(),
        }
    }

    /// An empty value, stored inline.
    pub fn new() -> (r: Repr)
        ensures
            r@ =~= Seq::<u8>::empty(),
            !r.is_heap(),
            !r.is_static(),
            r.spec_capacity() == MAX_INLINE_SIZE as int,
    {
        Repr::Inline(InlineBuffer::empty())
    }

    /// Copies a UTF-8 byte sequence: short text is stored inline, longer
    /// text goes to a fresh heap buffer of exactly its length.
    pub(crate) fn from_bytes(bytes: &[u8]) -> (r: Result<Repr, ReserveError>)
        requires
            valid_utf8(bytes@),
        ensures
            r is Ok <==> bytes@.len() <= MAX_TEXT_SIZE,
            r matches Ok(p) ==> {
                &&& p@ =~= bytes@
                &&& !p.is_static()
                &&& (p.is_heap() <==> bytes@.len() > MAX_INLINE_SIZE)
                &&& p.spec_capacity() == if bytes@.len() <= MAX_INLINE_SIZE {
                    MAX_INLINE_SIZE as int
                } else {
                    bytes@.len() as int
                }
            },
    {
        if bytes.len() <= MAX_INLINE_SIZE {
            Ok(Repr::Inline(InlineBuffer::from_bytes(bytes)))
        } else {
            match HeapBuffer::new(bytes) {
                Ok(h) => Ok(Repr::Heap(h)),
                Err(e) => Err(e),
            }
        }
    }

    /// Copies a string: short text is stored inline, longer text goes to a
    /// fresh heap buffer of exactly its length.
    pub fn from_str(text: &str) -> (r: Result<Repr, ReserveError>)
        ensures
            r is Ok <==> text.spec_bytes().len() <= MAX_TEXT_SIZE,
            r matches Ok(p) ==> {
                &&& p@ =~= text.spec_bytes()
                &&& !p.is_static()
                &&& (p.is_heap() <==> text.spec_bytes().len() > MAX_INLINE_SIZE)
                &&& p.spec_capacity() == if text.spec_bytes().len() <= MAX_INLINE_SIZE {
                    MAX_INLINE_SIZE as int
                } else {
                    text.spec_bytes().len() as int
                }
            },
    {
        proof {
            broadcast use vstd::utf8::encode_utf8_valid_utf8;

        }
        Repr::from_bytes(text.as_bytes())
    }

    /// Borrows a string that lives for the whole program.  Short text is
    /// still copied inline; longer text is referenced without allocating,
    /// and its capacity equals its length.
    pub fn from_static_str(text: &'static str) -> (r: Result<Repr, ReserveError>)
        ensures
            r is Ok <==> text.spec_bytes().len() <= MAX_TEXT_SIZE,
            r matches Ok(p) ==> {
                &&& p@ =~= text.spec_bytes()
                &&& !p.is_heap()
                &&& (p.is_static() <==> text.spec_bytes().len() > MAX_INLINE_SIZE)
                &&& p.spec_capacity() == if text.spec_bytes().len() <= MAX_INLINE_SIZE {
                    MAX_INLINE_SIZE as int
                } else {
                    text.spec_bytes().len() as int
                }
            },
    {
        proof {
            broadcast use vstd::utf8::encode_utf8_valid_utf8;

        }
        let bytes: &'static [u8] = text.as_bytes();
        if bytes.len() <= MAX_INLINE_SIZE {
            Ok(Repr::Inline(InlineBuffer::from_bytes(bytes)))
        } else {
            match StaticBuffer::new(bytes) {
                Ok(b) => Ok(Repr::Static(b)),
                Err(e) => Err(e),
            }
        }
    }

    /// An empty value able to hold `capacity` bytes: inline when the inline
    /// area suffices, else a heap buffer of exactly that capacity.
    pub fn with_capacity(capacity: usize) -> (r: Result<Repr, ReserveError>)
        ensures
            r is Ok <==> capacity <= MAX_TEXT_SIZE,
            r matches Ok(p) ==> {
                &&& p@ =~= Seq::<u8>::empty()
                &&& !p.is_static()
                &&& (p.is_heap() <==> capacity > MAX_INLINE_SIZE)
                &&& p.spec_capacity() == if capacity <= MAX_INLINE_SIZE {
                    MAX_INLINE_SIZE as int
                } else {
                    capacity as int
                }
            },
    {
        if capacity <= MAX_INLINE_SIZE {
            Ok(Repr::new())
        } else {
            match HeapBuffer::with_capacity(capacity) {
                Ok(h) => Ok(Repr::Heap(h)),
                Err(e) => Err(e),
            }
        }
    }

    /// Length of the stored text in bytes.
    pub fn len(&self) -> (n: usize)
        ensures
            n == self@.len(),
            valid_utf8(self@),
            self@.len() <= self.spec_capacity(),
            self.spec_capacity() <= MAX_TEXT_SIZE,
    {
        match self {
            Repr::Inline(b) => b.len(),
            Repr::Static(b) => b.len(),
            Repr::Heap(b) => b.len(),
        }
    }

    /// Whether the stored text is empty.
    pub fn is_empty(&self) -> (r: bool)
        ensures
            r == (self@.len() == 0),
    {
        self.len() == 0
    }

    /// Capacity in bytes.
    pub fn capacity(&self) -> (r: usize)
        ensures
            r == self.spec_capacity(),
            self@.len() <= r,
    {
        match self {
            Repr::Inline(b) => {
                // The stored length never exceeds the inline area.
                let n = b.len();
                MAX_INLINE_SIZE
            },
            Repr::Static(b) => b.len(),
            Repr::Heap(b) => b.capacity(),
        }
    }

    /// Borrows the stored text as bytes.
    pub fn as_bytes(&self) -> (r: &[u8])
        ensures
            r@ =~= self@,
            valid_utf8(self@),
    {
        match self {
            Repr::Inline(b) => b.as_bytes(),
            Repr::Static(b) => b.as_bytes(),
            Repr::Heap(b) => b.as_bytes(),
        }
    }

    /// Borrows the stored text as a string slice.
    pub fn as_str(&self) -> (r: &str)
        ensures
            r@ == decode_utf8(self@),
            r.spec_bytes() =~= self@,
            valid_utf8(self@),
    {
        proof {
            broadcast use vstd::utf8::decode_utf8_encode_utf8;

        }
        let bytes = self.as_bytes();
        bytes_to_str(bytes)
    }

    /// Whether the text lives in a shared heap buffer.
    pub fn is_heap_buffer(&self) -> (r: bool)
        ensures
            r == self.is_heap(),
    {
        match self {
            Repr::Heap(_) => true,
            _ => false,
        }
    }

    /// Whether the text is borrowed immortal bytes.
    pub(crate) fn is_static_buffer(&self) -> (r: bool)
        ensures
            r == self.is_static(),
    {
        match self {
            Repr::Static(_) => true,
            _ => false,
        }
    }

    /// Whether no other value shares this text's heap buffer, observed at
    /// the moment of the call.  Inline and static values are always unique.
    /// For a heap value nothing is known about the answer: other owners may
    /// appear or disappear concurrently.
    pub fn is_unique(&self) -> (r: bool)
        ensures
            !self.is_heap() ==> r,
    {
        match self {
            Repr::Heap(b) => b.is_unique(),
            _ => true,
        }
    }

    /// A copy that shares the heap buffer instead of duplicating it: only
    /// the reference count changes.  Inline and static values are plain
    /// copies.
    pub fn make_shallow_clone(&self) -> (r: Repr)
        ensures
            r == *self,
    {
        match self {
            Repr::Inline(b) => Repr::Inline(b.clone()),
            Repr::Static(b) => Repr::Static(b.clone()),
            Repr::Heap(b) => Repr::Heap(b.share()),
        }
    }

    /// Shortens the stored text in place.  The variant is kept; a static
    /// value merely records the smaller length, and a heap value keeps its
    /// allocation.
    pub(crate) fn set_len(&mut self, new_len: usize)
        requires
            new_len <= old(self)@.len(),
            valid_utf8(old(self)@.take(new_len as int)),
        ensures
            final(self)@ =~= old(self)@.take(new_len as int),
            final(self).is_heap() == old(self).is_heap(),
            final(self).is_static() == old(self).is_static(),
            old(self).is_heap() ==> final(self).spec_capacity() == old(self).spec_capacity(),
            !old(self).is_heap() && !old(self).is_static() ==> final(self).spec_capacity()
                == MAX_INLINE_SIZE as int,
    {
        match self {
            Repr::Inline(b) => b.set_len(new_len),
            Repr::Static(b) => b.set_len(new_len),
            Repr::Heap(b) => b.set_len(new_len),
        }
    }

    /// The modifiability transition: afterwards the value is not static,
    /// and a heap value believed shared has been replaced by a fresh buffer
    /// of exactly the text's length.
    fn ensure_modifiable(&mut self) -> (r: Result<(), ReserveError>)
        ensures
            r is Ok,
            final(self)@ =~= old(self)@,
            !final(self).is_static(),
            old(self).is_heap() ==> final(self).is_heap() && (final(self).spec_capacity()
                == old(self).spec_capacity() || final(self).spec_capacity() == old(self)@.len()
                as int),
            !old(self).is_heap() && !old(self).is_static() ==> *final(self) == *old(self),
            old(self).is_static() ==> (if old(self)@.len() <= MAX_INLINE_SIZE {
                !final(self).is_heap() && final(self).spec_capacity() == MAX_INLINE_SIZE as int
            } else {
                final(self).is_heap() && final(self).spec_capacity() == old(self)@.len() as int
            }),
    {
        match self {
            Repr::Heap(b) => {
                if b.is_unique() {
                    Ok(())
                } else {
                    // The buffer is shared: break the sharing by copying the
                    // text into a buffer this value owns alone.
                    let new_heap = match HeapBuffer::new(b.as_bytes()) {
                        Ok(h) => h,
                        Err(_) => vstd::pervasive::unreached(),
                    };
                    *self = Repr::Heap(new_heap);
                    Ok(())
                }
            },
            Repr::Static(b) => {
                // Borrowed bytes cannot be modified in place: copy them out.
                let next = match Repr::from_bytes(b.as_bytes()) {
                    Ok(p) => p,
                    Err(_) => vstd::pervasive::unreached(),
                };
                *self = next;
                Ok(())
            },
            Repr::Inline(_) => Ok(()),
        }
    }

    /// Makes room for `additional` more bytes, following the growth policy:
    /// a value that already has room and sole ownership is untouched; a
    /// static value converts to inline or heap; any new heap buffer gets the
    /// amortized capacity.  The text itself never changes.
    pub fn reserve(&mut self, additional: usize) -> (r: Result<(), ReserveError>)
        ensures
            final(self)@ =~= old(self)@,
            r is Err ==> *final(self) == *old(self),
            r is Ok ==> final(self).spec_capacity() >= old(self)@.len() + additional,
            (old(self)@.len() + additional <= usize::MAX && spec_amortized_growth(
                old(self)@.len() as usize,
                additional,
            ) <= MAX_TEXT_SIZE) ==> r is Ok,
            r is Err ==> (old(self)@.len() + additional > usize::MAX || spec_amortized_growth(
                old(self)@.len() as usize,
                additional,
            ) > MAX_TEXT_SIZE),
            r is Ok ==> !final(self).is_static(),
            r is Ok ==> (final(self).is_heap() <==> (old(self).is_heap() || old(self)@.len()
                + additional > MAX_INLINE_SIZE)),
            // Reserving never decreases the capacity, except possibly for a
            // heap buffer that turns out to be shared and is replaced by a
            // fresh allocation sized to the text.
            r is Ok && !old(self).is_heap() ==> final(self).spec_capacity() >= old(
                self,
            ).spec_capacity(),
            r is Ok ==> ({
                let needed = old(self)@.len() + additional;
                let amortized = spec_amortized_growth(old(self)@.len() as usize, additional)
                    as int;
                if old(self).is_heap() {
                    (final(self).spec_capacity() == old(self).spec_capacity()
                        && old(self).spec_capacity() >= needed) || final(self).spec_capacity()
                        == amortized
                } else {
                    if needed <= MAX_INLINE_SIZE {
                        final(self).spec_capacity() == MAX_INLINE_SIZE as int
                    } else {
                        final(self).spec_capacity() == amortized
                    }
                }
            }),
    {
        let len = self.len();
        let needed_capacity = match len.checked_add(additional) {
            Some(n) => n,
            None => {
                return Err(ReserveError);
            },
        };
        match self {
            Repr::Heap(b) => {
                if b.is_unique() {
                    if b.capacity() >= needed_capacity {
                        // Enough room already, and no other owner.
                        Ok(())
                    } else {
                        let amortized = amortized_growth(len, additional);
                        match b.realloc(amortized) {
                            Ok(u) => Ok(()),
                            Err(e) => Err(e),
                        }
                    }
                } else {
                    // The buffer is shared: a fresh buffer replaces it, and
                    // the old one keeps serving the other owners.
                    match HeapBuffer::with_additional(b.as_bytes(), additional) {
                        Ok(h) => {
                            *self = Repr::Heap(h);
                            Ok(())
                        },
                        Err(e) => Err(e),
                    }
                }
            },
            Repr::Static(b) => {
                // Borrowed bytes cannot grow in place.
                if needed_capacity <= MAX_INLINE_SIZE {
                    let inline = InlineBuffer::from_bytes(b.as_bytes());
                    *self = Repr::Inline(inline);
                    Ok(())
                } else {
                    match HeapBuffer::with_additional(b.as_bytes(), additional) {
                        Ok(h) => {
                            *self = Repr::Heap(h);
                            Ok(())
                        },
                        Err(e) => Err(e),
                    }
                }
            },
            Repr::Inline(b) => {
                if needed_capacity > MAX_INLINE_SIZE {
                    match HeapBuffer::with_additional(b.as_bytes(), additional) {
                        Ok(h) => {
                            *self = Repr::Heap(h);
                            Ok(())
                        },
                        Err(e) => Err(e),
                    }
                } else {
                    // The inline area already has room.
                    Ok(())
                }
            },
        }
    }

    /// Appends UTF-8 bytes, reserving room first.
    pub(crate) fn push_bytes(&mut self, s: &[u8]) -> (r: Result<(), ReserveError>)
        requires
            valid_utf8(s@),
        ensures
            r is Ok ==> final(self)@ =~= old(self)@ + s@,
            r is Err ==> *final(self) == *old(self),
            s@.len() == 0 ==> r is Ok && *final(self) == *old(self),
            (old(self)@.len() + s@.len() <= usize::MAX && spec_amortized_growth(
                old(self)@.len() as usize,
                s@.len() as usize,
            ) <= MAX_TEXT_SIZE) ==> r is Ok,
            r is Err ==> (old(self)@.len() + s@.len() > usize::MAX || spec_amortized_growth(
                old(self)@.len() as usize,
                s@.len() as usize,
            ) > MAX_TEXT_SIZE),
            r is Ok && s@.len() > 0 ==> !final(self).is_static() && (final(self).is_heap()
                <==> (old(self).is_heap() || old(self)@.len() + s@.len() > MAX_INLINE_SIZE)),
    {
        if s.len() == 0 {
            return Ok(());
        }
        match self.reserve(s.len()) {
            Ok(u) => (),
            Err(e) => {
                return Err(e);
            },
        }
        match self {
            Repr::Inline(b) => {
                let v = concat_bytes(b.as_bytes(), s);
                proof {
                    lemma_concat_utf8(b@, s@);
                }
                let nb = InlineBuffer::from_bytes(v.as_slice());
                *self = Repr::Inline(nb);
                Ok(())
            },
            Repr::Heap(b) => {
                let cap = b.capacity();
                let v = concat_bytes(b.as_bytes(), s);
                proof {
                    lemma_concat_utf8(b@, s@);
                }
                let h = match HeapBuffer::build(v.as_slice(), cap) {
                    Ok(h) => h,
                    Err(_) => vstd::pervasive::unreached(),
                };
                *self = Repr::Heap(h);
                Ok(())
            },
            Repr::Static(_) => vstd::pervasive::unreached(),
        }
    }

    /// Appends a string, reserving room first.
    pub fn push_str(&mut self, string: &str) -> (r: Result<(), ReserveError>)
        ensures
            r is Ok ==> final(self)@ =~= old(self)@ + string.spec_bytes(),
            r is Err ==> *final(self) == *old(self),
            string.spec_bytes().len() == 0 ==> r is Ok && *final(self) == *old(self),
            (old(self)@.len() + string.spec_bytes().len() <= usize::MAX
                && spec_amortized_growth(
                old(self)@.len() as usize,
                string.spec_bytes().len() as usize,
            ) <= MAX_TEXT_SIZE) ==> r is Ok,
            r is Ok && string.spec_bytes().len() > 0 ==> !final(self).is_static()
                && (final(self).is_heap() <==> (old(self).is_heap() || old(self)@.len()
                + string.spec_bytes().len() > MAX_INLINE_SIZE)),
    {
        proof {
            broadcast use vstd::utf8::encode_utf8_valid_utf8;

        }
        self.push_bytes(string.as_bytes())
    }

    /// Removes and returns the final character.  An empty value returns
    /// `None` and is untouched.  Inline and static values simply record the
    /// smaller length; a uniquely owned heap value shrinks in place, and a
    /// shared one is replaced by a fresh value of the shorter text.
    pub fn pop(&mut self) -> (r: Result<Option<char>, ReserveError>)
        ensures
            r is Ok,
            old(self)@.len() == 0 ==> (r matches Ok(None)) && *final(self) == *old(self),
            old(self)@.len() > 0 ==> r matches Ok(Some(_)),
            r matches Ok(Some(c)) ==> ({
                let s = old(self)@;
                let k = length_of_last_scalar(s);
                &&& s.len() > 0
                &&& c as u32 == decode_last_scalar(s)
                &&& final(self)@ =~= s.take(s.len() - k)
                &&& decode_utf8(s) =~= decode_utf8(final(self)@).push(c)
            }),
            old(self)@.len() > 0 ==> ({
                let new_len = old(self)@.len() - length_of_last_scalar(old(self)@);
                &&& final(self).is_static() == old(self).is_static()
                &&& (!old(self).is_heap() && !old(self).is_static() ==> !final(self).is_heap()
                    && final(self).spec_capacity() == MAX_INLINE_SIZE as int)
                &&& (old(self).is_heap() ==> ((final(self).is_heap()
                    && final(self).spec_capacity() == old(self).spec_capacity())
                    || ((final(self).is_heap()
                    <==> new_len > MAX_INLINE_SIZE) && final(self).spec_capacity() == (
                if new_len <= MAX_INLINE_SIZE {
                    MAX_INLINE_SIZE as int
                } else {
                    new_len as int
                }))))
            }),
    {
        let len = self.len();
        if len == 0 {
            return Ok(None);
        }
        let (ch, ch_len) = decode_last_char(self.as_bytes());
        let new_len = len - ch_len;
        match self {
            Repr::Heap(b) => {
                if b.is_unique() {
                    b.set_len(new_len);
                } else {
                    // Shared: leave the buffer to the other owners and keep
                    // only the shorter text.
                    let next = {
                        let prefix = vstd::slice::slice_subrange(b.as_bytes(), 0, new_len);
                        match Repr::from_bytes(prefix) {
                            Ok(p) => p,
                            Err(_) => vstd::pervasive::unreached(),
                        }
                    };
                    *self = next;
                }
            },
            Repr::Static(b) => b.set_len(new_len),
            Repr::Inline(b) => b.set_len(new_len),
        }
        Ok(Some(ch))
    }

    /// Removes and returns the character whose encoding starts at byte
    /// `idx`, shifting the rest of the text left.
    pub fn remove(&mut self, idx: usize) -> (r: Result<char, ReserveError>)
        requires
            is_char_boundary(old(self)@, idx as int),
            idx < old(self)@.len(),
        ensures
            r is Ok,
            r matches Ok(c) ==> ({
                let s = old(self)@;
                let n = s.len() as int;
                let k = length_of_first_scalar(s.subrange(idx as int, n));
                &&& c as u32 == decode_first_scalar(s.subrange(idx as int, n))
                &&& final(self)@ =~= s.subrange(0, idx as int) + s.subrange(idx + k, n)
                &&& decode_utf8(s) =~= decode_utf8(s.subrange(0, idx as int)) + seq![c]
                    + decode_utf8(s.subrange(idx + k, n))
                &&& decode_utf8(final(self)@) =~= decode_utf8(s.subrange(0, idx as int))
                    + decode_utf8(s.subrange(idx + k, n))
            }),
            !final(self).is_static(),
            old(self).is_heap() ==> final(self).is_heap() && (final(self).spec_capacity()
                == old(self).spec_capacity() || final(self).spec_capacity() == old(self)@.len()
                as int),
            !old(self).is_heap() && !old(self).is_static() ==> !final(self).is_heap()
                && final(self).spec_capacity() == MAX_INLINE_SIZE as int,
    {
        let len = self.len();
        match self.ensure_modifiable() {
            Ok(u) => (),
            Err(e) => {
                return Err(e);
            },
        }
        proof {
            lemma_remove_scalar(self@, idx as int);
        }
        let (ch, ch_len) = decode_char_at(self.as_bytes(), idx);
        let ghost s0 = old(self)@;
        let ghost n0 = s0.len() as int;
        let ghost k0 = length_of_first_scalar(s0.subrange(idx as int, n0));
        proof {
            assert(self@ == s0);
            assert(ch_len == k0);
            assert(ch as u32 == decode_first_scalar(s0.subrange(idx as int, n0)));
        }
        let bytes = self.as_bytes();
        let prefix = vstd::slice::slice_subrange(bytes, 0, idx);
        let tail = vstd::slice::slice_subrange(bytes, idx + ch_len, len);
        let v = concat_bytes(prefix, tail);
        proof {
            assert(prefix@ =~= s0.subrange(0, idx as int));
            assert(tail@ =~= s0.subrange(idx + k0, n0));
            assert(v@ =~= s0.subrange(0, idx as int) + s0.subrange(idx + k0, n0));
            assert(valid_utf8(v@));
        }
        match self {
            Repr::Inline(b) => {
                let nb = InlineBuffer::from_bytes(v.as_slice());
                *self = Repr::Inline(nb);
            },
            Repr::Heap(b) => {
                let cap = b.capacity();
                let h = match HeapBuffer::build(v.as_slice(), cap) {
                    Ok(h) => h,
                    Err(_) => vstd::pervasive::unreached(),
                };
                *self = Repr::Heap(h);
            },
            Repr::Static(_) => vstd::pervasive::unreached(),
        }
        proof {
            char_u32_cast(ch, decode_first_scalar(s0.subrange(idx as int, n0)));
            assert(ch == decode_first_scalar(s0.subrange(idx as int, n0)) as char);
            assert(self@ =~= s0.subrange(0, idx as int) + s0.subrange(idx + k0, n0));
        }
        Ok(ch)
    }

    /// Inserts a string at the character boundary `idx`, shifting the rest
    /// of the text right.
    pub fn insert_str(&mut self, idx: usize, string: &str) -> (r: Result<(), ReserveError>)
        requires
            is_char_boundary(old(self)@, idx as int),
            idx <= old(self)@.len(),
        ensures
            r is Ok ==> final(self)@ =~= old(self)@.subrange(0, idx as int)
                + string.spec_bytes() + old(self)@.subrange(
                idx as int,
                old(self)@.len() as int,
            ),
            r is Ok ==> decode_utf8(final(self)@) =~= decode_utf8(
                old(self)@.subrange(0, idx as int),
            ) + string@ + decode_utf8(old(self)@.subrange(idx as int, old(self)@.len() as int)),
            r is Err ==> *final(self) == *old(self),
            (old(self)@.len() + string.spec_bytes().len() <= usize::MAX
                && spec_amortized_growth(
                old(self)@.len() as usize,
                string.spec_bytes().len() as usize,
            ) <= MAX_TEXT_SIZE) ==> r is Ok,
            r is Err ==> (old(self)@.len() + string.spec_bytes().len() > usize::MAX
                || spec_amortized_growth(
                old(self)@.len() as usize,
                string.spec_bytes().len() as usize,
            ) > MAX_TEXT_SIZE),
            r is Ok ==> !final(self).is_static(),
            r is Ok ==> (final(self).is_heap() <==> (old(self).is_heap() || old(self)@.len()
                + string.spec_bytes().len() > MAX_INLINE_SIZE)),
    {
        let ghost orig = self@;
        let len = self.len();
        let s_bytes = string.as_bytes();
        proof {
            broadcast use vstd::utf8::encode_utf8_valid_utf8;
            broadcast use vstd::utf8::encode_utf8_decode_utf8;

            valid_utf8_split(orig, idx as int);
        }
        match self.reserve(s_bytes.len()) {
            Ok(u) => (),
            Err(e) => {
                return Err(e);
            },
        }
        let bytes = self.as_bytes();
        let prefix = vstd::slice::slice_subrange(bytes, 0, idx);
        let tail = vstd::slice::slice_subrange(bytes, idx, len);
        let v1 = concat_bytes(prefix, s_bytes);
        let v = concat_bytes(v1.as_slice(), tail);
        proof {
            lemma_concat_utf8(prefix@, s_bytes@);
            lemma_concat_utf8(prefix@ + s_bytes@, tail@);
        }
        match self {
            Repr::Inline(b) => {
                let nb = InlineBuffer::from_bytes(v.as_slice());
                *self = Repr::Inline(nb);
            },
            Repr::Heap(b) => {
                let cap = b.capacity();
                let h = match HeapBuffer::build(v.as_slice(), cap) {
                    Ok(h) => h,
                    Err(_) => vstd::pervasive::unreached(),
                };
                *self = Repr::Heap(h);
            },
            Repr::Static(_) => vstd::pervasive::unreached(),
        }
        Ok(())
    }

    /// Shrinks a heap allocation towards `max(len, min_capacity)`.  Inline
    /// and static values are untouched; a heap value whose target fits the
    /// inline area becomes inline.
    pub fn shrink_to(&mut self, min_capacity: usize) -> (r: Result<(), ReserveError>)
        ensures
            final(self)@ =~= old(self)@,
            r is Err ==> *final(self) == *old(self),
            !old(self).is_heap() ==> *final(self) == *old(self) && r is Ok,
            r is Err ==> ({
                let len = old(self)@.len() as int;
                let target = if min_capacity > len {
                    min_capacity as int
                } else {
                    len
                };
                &&& old(self).is_heap()
                &&& target > MAX_INLINE_SIZE
                &&& target < old(self).spec_capacity()
                &&& spec_amortized_growth(old(self)@.len() as usize, (target - len) as usize)
                    > MAX_TEXT_SIZE
            }),
            old(self).is_heap() ==> ({
                let len = old(self)@.len() as int;
                let target = if min_capacity > len {
                    min_capacity as int
                } else {
                    len
                };
                &&& (target <= MAX_INLINE_SIZE ==> r is Ok && !final(self).is_heap()
                    && !final(self).is_static() && final(self).spec_capacity()
                    == MAX_INLINE_SIZE as int)
                &&& (target > MAX_INLINE_SIZE && target >= old(self).spec_capacity() ==> r is Ok
                    && *final(self) == *old(self))
                &&& (target > MAX_INLINE_SIZE && target < old(self).spec_capacity() && r is Ok
                    ==> final(self).is_heap() && (final(self).spec_capacity() == target
                    || final(self).spec_capacity() == spec_amortized_growth(
                    old(self)@.len() as usize,
                    (target - len) as usize,
                ) as int))
            }),
    {
        match self {
            Repr::Heap(b) => {
                let len = b.len();
                let new_capacity = max(len, min_capacity);
                let old_capacity = b.capacity();
                if new_capacity <= MAX_INLINE_SIZE {
                    // The text fits the inline area: the heap reference is
                    // given up.
                    let nb = InlineBuffer::from_bytes(b.as_bytes());
                    *self = Repr::Inline(nb);
                    Ok(())
                } else if new_capacity >= old_capacity {
                    Ok(())
                } else if b.is_unique() {
                    match b.realloc(new_capacity) {
                        Ok(u) => Ok(()),
                        Err(e) => Err(e),
                    }
                } else {
                    // Shared: the other owners keep the old buffer.
                    match HeapBuffer::with_additional(b.as_bytes(), new_capacity - len) {
                        Ok(h) => {
                            *self = Repr::Heap(h);
                            Ok(())
                        },
                        Err(e) => Err(e),
                    }
                }
            },
            _ => Ok(()),
        }
    }

    /// Keeps only the characters the predicate accepts, compacting the text
    /// in place.  The kept characters appear in their original order; for
    /// every character, the mask records what the predicate returned for it.
    #[verifier::loop_isolation(false)]
    pub fn retain<F: Fn(char) -> bool>(&mut self, predicate: F) -> (r: Result<
        (),
        ReserveError,
    >)
        requires
            forall|c: char| predicate.requires((c,)),
        ensures
            r is Ok,
            exists|keep: Seq<bool>|
                #![auto]
                {
                    &&& keep.len() == decode_utf8(old(self)@).len()
                    &&& decode_utf8(final(self)@) =~= mask_chars(decode_utf8(old(self)@), keep)
                    &&& forall|i: int|
                        0 <= i < keep.len() ==> predicate.ensures(
                            (decode_utf8(old(self)@)[i],),
                            keep[i],
                        )
                },
            !final(self).is_static(),
            old(self).is_heap() ==> final(self).is_heap() && (final(self).spec_capacity()
                == old(self).spec_capacity() || final(self).spec_capacity() == old(self)@.len()
                as int),
            !old(self).is_heap() && !old(self).is_static() ==> !final(self).is_heap()
                && final(self).spec_capacity() == MAX_INLINE_SIZE as int,
    {
        match self.ensure_modifiable() {
            Ok(u) => (),
            Err(e) => {
                return Err(e);
            },
        }
        let len = self.len();
        let ghost orig = self@;
        let mut dst: Vec<u8> = Vec::new();
        let mut src_idx: usize = 0;
        let ghost mut kept: Seq<bool> = Seq::empty();
        proof {
            broadcast use vstd::utf8::is_char_boundary_start_end_of_seq;

            assert(orig.take(0) =~= Seq::<u8>::empty());
            assert(decode_utf8(orig.take(0)) =~= Seq::<char>::empty());
            assert(decode_utf8(dst@) =~= mask_chars(decode_utf8(orig.take(0)), kept));
        }
        while src_idx < len
            invariant
                self@ == orig,
                is_char_boundary(orig, src_idx as int),
                0 <= src_idx <= len,
                valid_utf8(dst@),
                dst@.len() <= src_idx,
                kept.len() == decode_utf8(orig.take(src_idx as int)).len(),
                decode_utf8(dst@) =~= mask_chars(decode_utf8(orig.take(src_idx as int)), kept),
                forall|i: int|
                    0 <= i < kept.len() ==> predicate.ensures(
                        (decode_utf8(orig.take(src_idx as int))[i],),
                        kept[i],
                    ),
            decreases len - src_idx,
        {
            proof {
                lemma_remove_scalar(orig, src_idx as int);
            }
            let (ch, ch_len) = decode_char_at(self.as_bytes(), src_idx);
            let ghost k = ch_len as int;
            let ghost chars_before = decode_utf8(orig.take(src_idx as int));
            let ghost kept0 = kept;
            let ghost dst0 = dst@;
            let keep_this = predicate(ch);
            if keep_this {
                let bytes = self.as_bytes();
                push_subrange(&mut dst, bytes, src_idx, src_idx + ch_len);
            }
            proof {
                kept = kept.push(keep_this);
                let scalar = orig.subrange(src_idx as int, src_idx + k);
                char_u32_cast(ch, decode_first_scalar(orig.subrange(src_idx as int, orig.len() as int)));
                assert(decode_utf8(scalar) =~= seq![ch]);
                // The decoded prefix grows by exactly this character.
                lemma_concat_utf8(orig.take(src_idx as int), scalar);
                assert(orig.take(src_idx as int) + scalar =~= orig.take(src_idx + k));
                assert(decode_utf8(orig.take(src_idx + k)) =~= chars_before.push(ch));
                lemma_mask_push(chars_before, kept0, ch, keep_this);
                if keep_this {
                    assert(dst@ =~= dst0 + scalar);
                    lemma_concat_utf8(dst0, scalar);
                    assert(decode_utf8(dst@) =~= decode_utf8(dst0) + seq![ch]);
                    assert(decode_utf8(dst@) =~= mask_chars(chars_before.push(ch), kept));
                } else {
                    assert(decode_utf8(dst@) =~= mask_chars(chars_before.push(ch), kept));
                }
                assert(forall|i: int|
                    0 <= i < kept.len() ==> predicate.ensures(
                        (decode_utf8(orig.take(src_idx + k))[i],),
                        kept[i],
                    ));
            }
            src_idx = src_idx + ch_len;
        }
        proof {
            assert(orig.take(len as int) =~= orig);
        }
        match self {
            Repr::Inline(b) => {
                let nb = InlineBuffer::from_bytes(dst.as_slice());
                *self = Repr::Inline(nb);
            },
            Repr::Heap(b) => {
                let cap = b.capacity();
                let h = match HeapBuffer::build(dst.as_slice(), cap) {
                    Ok(h) => h,
                    Err(_) => vstd::pervasive::unreached(),
                };
                *self = Repr::Heap(h);
            },
            Repr::Static(_) => vstd::pervasive::unreached(),
        }
        proof {
            assert({
                &&& kept.len() == decode_utf8(old(self)@).len()
                &&& decode_utf8(self@) =~= mask_chars(decode_utf8(old(self)@), kept)
                &&& forall|i: int|
                    0 <= i < kept.len() ==> predicate.ensures(
                        (decode_utf8(old(self)@)[i],),
                        kept[i],
                    )
            });
        }
        Ok(())
    }

    /// Replaces the value; the old buffer gives up its reference.
    pub(crate) fn replace_inner(&mut self, other: Repr)
        ensures
            *final(self) == other,
    {
        *self = other;
    }
}

impl Clone for Repr {
    fn clone(&self) -> (r: Self)
        ensures
            r == *self,
    {
        self.make_shallow_clone()
    }
}

} // verus!
