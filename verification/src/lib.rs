//! A compact, reference-counted, UTF-8 text container.
//!
//! A [`LeanString`] keeps short text inline in the value, references
//! `'static` text without allocating, and shares longer text through a
//! reference-counted heap buffer with copy-on-write on mutation.  Every
//! operation's behaviour is stated in its contract over the byte view of the
//! value, and every stored byte sequence is verified to remain valid UTF-8.

pub mod errors;
pub mod repr;
pub mod reserve_error;
pub mod unicode;

pub use errors::from_utf16_error::FromUtf16Error;
pub use errors::to_lean_string_error::ToLeanStringError;
pub use reserve_error::ReserveError;

use crate::repr::growth_fits;
use crate::repr::heap_buffer::spec_amortized_growth;
use crate::repr::Repr;
use crate::unicode::encode_char;
use vstd::prelude::*;
use vstd::string::StringSliceAdditionalSpecFns;
use vstd::utf8::*;

verus! {

/// Inline capacity in bytes: the size of two 64-bit machine words.
pub const MAX_INLINE_SIZE: usize = 16;

/// Largest byte length that the packed heap and static layouts can record:
/// the length occupies the low seven bytes of a 64-bit word, the top byte
/// being reserved for the tag.
pub const MAX_TEXT_SIZE: u64 = 0x00FF_FFFF_FFFF_FFFF;

/// A compact, reference-counted, UTF-8 string.
///
/// The view of a `LeanString` is the byte sequence it stores;
/// [`chars`](Self::chars) gives the decoded character sequence.
pub struct LeanString(Repr);

impl View for LeanString {
    type V = Seq<u8>;

    closed spec fn view(&self) -> Seq<u8> {
        self.0@
    }
}

impl LeanString {
    /// Whether the text lives in a heap allocation.
    pub closed spec fn spec_is_heap(&self) -> bool {
        self.0.is_heap()
    }

    /// Whether the text is borrowed immortal bytes.
    pub closed spec fn spec_is_static(&self) -> bool {
        self.0.is_static()
    }

    /// Capacity in bytes.
    pub closed spec fn spec_capacity(&self) -> int {
        self.0.spec_capacity()
    }

    /// The stored text as a character sequence.
    pub open spec fn chars(&self) -> Seq<char> {
        decode_utf8(self@)
    }

    /// Creates a new empty `LeanString`, without a heap allocation.
    pub fn new() -> (r: Self)
        ensures
            r@ =~= Seq::<u8>::empty(),
            !r.spec_is_heap(),
            !r.spec_is_static(),
            r.spec_capacity() == MAX_INLINE_SIZE as int,
    {
        LeanString(Repr::new())
    }

    /// Creates a `LeanString` by copying a string slice.  Text no longer
    /// than the inline area is stored inline; longer text gets a heap
    /// buffer of exactly its length.
    pub fn from(text: &str) -> (r: Self)
        requires
            text.spec_bytes().len() <= MAX_TEXT_SIZE,
        ensures
            r@ =~= text.spec_bytes(),
            r.chars() =~= text@,
            !r.spec_is_static(),
            r.spec_is_heap() <==> text.spec_bytes().len() > MAX_INLINE_SIZE,
            r.spec_capacity() == if text.spec_bytes().len() <= MAX_INLINE_SIZE {
                MAX_INLINE_SIZE as int
            } else {
                text.spec_bytes().len() as int
            },
    {
        proof {
            broadcast use vstd::utf8::encode_utf8_decode_utf8;

        }
        match Repr::from_str(text) {
            Ok(p) => LeanString(p),
            Err(_) => vstd::pervasive::unreached(),
        }
    }

    /// Fallible version of [`LeanString::from()`]: refuses text whose length
    /// the packed length field could not record.
    pub fn try_from_str(text: &str) -> (r: Result<Self, ReserveError>)
        ensures
            r is Ok <==> text.spec_bytes().len() <= MAX_TEXT_SIZE,
            r matches Ok(p) ==> {
                &&& p@ =~= text.spec_bytes()
                &&& p.chars() =~= text@
                &&& !p.spec_is_static()
                &&& (p.spec_is_heap() <==> text.spec_bytes().len() > MAX_INLINE_SIZE)
            },
    {
        proof {
            broadcast use vstd::utf8::encode_utf8_decode_utf8;

        }
        match Repr::from_str(text) {
            Ok(p) => Ok(LeanString(p)),
            Err(e) => Err(e),
        }
    }

    /// Creates a `LeanString` holding one character; it always fits inline.
    pub fn from_char(ch: char) -> (r: Self)
        ensures
            r@ =~= encode_scalar(ch as u32),
            r.chars() =~= seq![ch],
            !r.spec_is_heap(),
            !r.spec_is_static(),
    {
        let v = encode_char(ch);
        match Repr::from_bytes(v.as_slice()) {
            Ok(p) => LeanString(p),
            Err(_) => vstd::pervasive::unreached(),
        }
    }

    /// Creates a `LeanString` from a string that lives for the whole
    /// program.  Short text is copied inline; longer text is referenced
    /// without allocating, and its capacity equals its length.
    pub fn from_static_str(text: &'static str) -> (r: Self)
        requires
            text.spec_bytes().len() <= MAX_TEXT_SIZE,
        ensures
            r@ =~= text.spec_bytes(),
            r.chars() =~= text@,
            !r.spec_is_heap(),
            r.spec_is_static() <==> text.spec_bytes().len() > MAX_INLINE_SIZE,
            r.spec_capacity() == if text.spec_bytes().len() <= MAX_INLINE_SIZE {
                MAX_INLINE_SIZE as int
            } else {
                text.spec_bytes().len() as int
            },
    {
        proof {
            broadcast use vstd::utf8::encode_utf8_decode_utf8;

        }
        match Repr::from_static_str(text) {
            Ok(p) => LeanString(p),
            Err(_) => vstd::pervasive::unreached(),
        }
    }

    /// Creates a new empty `LeanString` with at least `capacity` bytes of
    /// room.  The inline area bounds the capacity from below.
    pub fn with_capacity(capacity: usize) -> (r: Self)
        requires
            capacity <= MAX_TEXT_SIZE,
        ensures
            r@ =~= Seq::<u8>::empty(),
            !r.spec_is_static(),
            r.spec_is_heap() <==> capacity > MAX_INLINE_SIZE,
            r.spec_capacity() == if capacity <= MAX_INLINE_SIZE {
                MAX_INLINE_SIZE as int
            } else {
                capacity as int
            },
    {
        match Repr::with_capacity(capacity) {
            Ok(p) => LeanString(p),
            Err(_) => vstd::pervasive::unreached(),
        }
    }

    /// Fallible version of [`LeanString::with_capacity()`]: refuses a
    /// capacity that the packed length field could not record.
    pub fn try_with_capacity(capacity: usize) -> (r: Result<Self, ReserveError>)
        ensures
            r is Ok <==> capacity <= MAX_TEXT_SIZE,
            r matches Ok(p) ==> {
                &&& p@ =~= Seq::<u8>::empty()
                &&& !p.spec_is_static()
                &&& (p.spec_is_heap() <==> capacity > MAX_INLINE_SIZE)
                &&& p.spec_capacity() == if capacity <= MAX_INLINE_SIZE {
                    MAX_INLINE_SIZE as int
                } else {
                    capacity as int
                }
            },
    {
        match Repr::with_capacity(capacity) {
            Ok(p) => Ok(LeanString(p)),
            Err(e) => Err(e),
        }
    }

    /// Length of the string in bytes, not characters.
    pub fn len(&self) -> (n: usize)
        ensures
            n == self@.len(),
            valid_utf8(self@),
            self@.len() <= self.spec_capacity(),
            self.spec_capacity() <= MAX_TEXT_SIZE,
    {
        self.0.len()
    }

    /// Whether the string is empty.
    pub fn is_empty(&self) -> (r: bool)
        ensures
            r == (self@.len() == 0),
    {
        self.0.is_empty()
    }

    /// Capacity of the string in bytes.
    pub fn capacity(&self) -> (r: usize)
        ensures
            r == self.spec_capacity(),
            self@.len() <= r,
            r <= MAX_TEXT_SIZE,
    {
        // Establishes the bound on the capacity.
        let n = self.0.len();
        self.0.capacity()
    }

    /// The whole string as a string slice.
    pub fn as_str(&self) -> (r: &str)
        ensures
            r@ =~= self.chars(),
            r.spec_bytes() =~= self@,
            valid_utf8(self@),
    {
        self.0.as_str()
    }

    /// The whole string as a byte slice.
    pub fn as_bytes(&self) -> (r: &[u8])
        ensures
            r@ =~= self@,
            valid_utf8(self@),
    {
        self.0.as_bytes()
    }

    /// Whether `idx` is the start of a character's encoding or the end of
    /// the string.  Indices past the end are not boundaries.
    pub fn is_char_boundary(&self, idx: usize) -> (r: bool)
        ensures
            r == is_char_boundary(self@, idx as int),
    {
        let n = self.len();
        if idx > n {
            proof {
                assert(!is_char_boundary(self@, idx as int));
            }
            false
        } else if idx == n {
            proof {
                broadcast use vstd::utf8::is_char_boundary_start_end_of_seq;

            }
            true
        } else {
            let b = *vstd::slice::slice_index_get(self.as_bytes(), idx);
            proof {
                vstd::utf8::is_char_boundary_iff_not_is_continuation_byte(self@, idx as int);
            }
            !(0x80 <= b && b <= 0xBF)
        }
    }

    /// Makes room for at least `additional` more bytes; see
    /// [`LeanString::try_reserve()`].  The precondition keeps the grown
    /// capacity representable, so the reservation cannot fail.
    pub fn reserve(&mut self, additional: usize)
        requires
            growth_fits(old(self)@, additional),
        ensures
            final(self)@ =~= old(self)@,
            final(self).spec_capacity() >= old(self)@.len() + additional,
            !final(self).spec_is_static(),
            final(self).spec_is_heap() <==> (old(self).spec_is_heap() || old(self)@.len()
                + additional > MAX_INLINE_SIZE),
            !old(self).spec_is_heap() ==> final(self).spec_capacity() >= old(self).spec_capacity(),
    {
        match self.0.reserve(additional) {
            Ok(u) => (),
            Err(_) => vstd::pervasive::unreached(),
        }
    }

    /// Makes room for at least `additional` more bytes.  A value that
    /// already has room and sole ownership of it is untouched; a static
    /// value converts to inline or heap; any new heap buffer gets the
    /// amortized growth capacity.
    pub fn try_reserve(&mut self, additional: usize) -> (r: Result<(), ReserveError>)
        ensures
            final(self)@ =~= old(self)@,
            r is Err ==> *final(self) == *old(self),
            r is Ok ==> final(self).spec_capacity() >= old(self)@.len() + additional,
            growth_fits(old(self)@, additional) ==> r is Ok,
            r is Ok ==> !final(self).spec_is_static(),
            r is Ok ==> (final(self).spec_is_heap() <==> (old(self).spec_is_heap() || old(self)@.len() + additional > MAX_INLINE_SIZE)),
            // Reserving never decreases the capacity, except possibly for a
            // heap buffer that turns out to be shared.
            r is Ok && !old(self).spec_is_heap() ==> final(self).spec_capacity() >= old(self).spec_capacity(),
    {
        self.0.reserve(additional)
    }

    /// Appends a character; see [`LeanString::try_push()`].
    pub fn push(&mut self, ch: char)
        requires
            growth_fits(old(self)@, 4),
        ensures
            final(self)@ =~= old(self)@ + encode_scalar(ch as u32),
            final(self).chars() =~= old(self).chars().push(ch),
    {
        match self.try_push(ch) {
            Ok(u) => (),
            Err(_) => vstd::pervasive::unreached(),
        }
    }

    /// Appends a character, encoded in one to four bytes.
    pub fn try_push(&mut self, ch: char) -> (r: Result<(), ReserveError>)
        ensures
            r is Ok ==> final(self)@ =~= old(self)@ + encode_scalar(ch as u32),
            r is Ok ==> final(self).chars() =~= old(self).chars().push(ch),
            r is Err ==> *final(self) == *old(self),
            growth_fits(old(self)@, 4) ==> r is Ok,
    {
        let v = encode_char(ch);
        let ghost orig = self@;
        // Establishes that the current bytes are valid UTF-8.
        let n0: usize = self.0.len();
        proof {
            if growth_fits(orig, 4) {
                assert(growth_fits(orig, v@.len() as usize));
            }
        }
        let r = self.0.push_bytes(v.as_slice());
        proof {
            if r is Ok {
                crate::unicode::lemma_concat_utf8(orig, v@);
                assert(self@ =~= orig + encode_scalar(ch as u32));
                assert(decode_utf8(self@) =~= decode_utf8(orig) + seq![ch]);
                assert(decode_utf8(orig).push(ch) =~= decode_utf8(orig) + seq![ch]);
            }
        }
        r
    }

    /// Removes the final character and returns it; see
    /// [`LeanString::try_pop()`].
    pub fn pop(&mut self) -> (r: Option<char>)
        ensures
            old(self)@.len() == 0 ==> r is None && *final(self) == *old(self),
            old(self)@.len() > 0 ==> r is Some,
            r matches Some(c) ==> ({
                &&& old(self)@.len() > 0
                &&& c as u32 == decode_last_scalar(old(self)@)
                &&& final(self)@ =~= old(self)@.take(
                    old(self)@.len() - length_of_last_scalar(old(self)@),
                )
                &&& old(self).chars() =~= final(self).chars().push(c)
            }),
    {
        match self.try_pop() {
            Ok(c) => c,
            Err(_) => vstd::pervasive::unreached(),
        }
    }

    /// Removes the final character and returns it, or `None` from an empty
    /// string.  Inline and static values record the smaller length; a
    /// uniquely owned heap buffer shrinks in place; a shared one is left to
    /// the other owners and replaced by the shorter text.
    pub fn try_pop(&mut self) -> (r: Result<Option<char>, ReserveError>)
        ensures
            r is Ok,
            old(self)@.len() == 0 ==> (r matches Ok(None)) && *final(self) == *old(self),
            old(self)@.len() > 0 ==> (r matches Ok(Some(_))),
            r matches Ok(Some(c)) ==> ({
                &&& old(self)@.len() > 0
                &&& c as u32 == decode_last_scalar(old(self)@)
                &&& final(self)@ =~= old(self)@.take(
                    old(self)@.len() - length_of_last_scalar(old(self)@),
                )
                &&& old(self).chars() =~= final(self).chars().push(c)
            }),
            old(self)@.len() > 0 && old(self).spec_is_static() ==> final(self).spec_is_static(),
            old(self)@.len() > 0 && !old(self).spec_is_heap() && !old(self).spec_is_static()
                ==> !final(self).spec_is_heap() && final(self).spec_capacity()
                == MAX_INLINE_SIZE as int,
            old(self)@.len() > 0 && old(self).spec_is_heap() ==> ({
                let new_len = old(self)@.len() - length_of_last_scalar(old(self)@);
                ||| (final(self).spec_is_heap() && final(self).spec_capacity() == old(self).spec_capacity())
                ||| ((final(self).spec_is_heap() <==> new_len > MAX_INLINE_SIZE) && final(self).spec_capacity() == (if new_len <= MAX_INLINE_SIZE {
                    MAX_INLINE_SIZE as int
                } else {
                    new_len as int
                }))
            }),
    {
        // Establishes that the current bytes are valid UTF-8, and how long
        // the final character's encoding is.
        let n0: usize = self.0.len();
        proof {
            if n0 > 0 {
                crate::unicode::lemma_last_scalar(self@);
            }
        }
        let r = self.0.pop();
        proof {
            if n0 > 0 {
                assert(self@.len() == n0 - length_of_last_scalar(old(self)@));
            }
        }
        r
    }

    /// Appends a string slice; see [`LeanString::try_push_str()`].
    pub fn push_str(&mut self, string: &str)
        requires
            growth_fits(old(self)@, string.spec_bytes().len() as usize),
        ensures
            final(self)@ =~= old(self)@ + string.spec_bytes(),
            final(self).chars() =~= old(self).chars() + string@,
    {
        match self.try_push_str(string) {
            Ok(u) => (),
            Err(_) => vstd::pervasive::unreached(),
        }
    }

    /// Appends a string slice, reserving room first.
    pub fn try_push_str(&mut self, string: &str) -> (r: Result<(), ReserveError>)
        ensures
            r is Ok ==> final(self)@ =~= old(self)@ + string.spec_bytes(),
            r is Ok ==> final(self).chars() =~= old(self).chars() + string@,
            r is Err ==> *final(self) == *old(self),
            growth_fits(old(self)@, string.spec_bytes().len() as usize) ==> r is Ok,
            r is Ok && string.spec_bytes().len() > 0 ==> !final(self).spec_is_static() && (
            final(self).spec_is_heap() <==> (old(self).spec_is_heap() || old(self)@.len()
                + string.spec_bytes().len() > MAX_INLINE_SIZE)),
    {
        let ghost orig = self@;
        let n0: usize = self.0.len();
        proof {
            broadcast use vstd::utf8::encode_utf8_valid_utf8;

        }
        let sb = string.as_bytes();
        // Pins the appended byte length to a machine word.
        let m: usize = sb.len();
        let r = self.0.push_bytes(sb);
        proof {
            broadcast use vstd::utf8::encode_utf8_decode_utf8;

            if r is Ok {
                crate::unicode::lemma_concat_utf8(orig, string.spec_bytes());
            }
        }
        r
    }

    /// Empties the string.  A sole owner keeps its buffer and capacity; a
    /// value sharing a heap buffer leaves it to the other owners and
    /// becomes an empty inline value.
    pub fn clear(&mut self)
        ensures
            final(self)@ =~= Seq::<u8>::empty(),
            !old(self).spec_is_heap() ==> final(self).spec_is_heap() == old(self).spec_is_heap()
                && final(self).spec_is_static() == old(self).spec_is_static(),
            old(self).spec_is_heap() ==> ((final(self).spec_is_heap() && final(self).spec_capacity() == old(self).spec_capacity()) || (!final(self).spec_is_heap()
                && !final(self).spec_is_static() && final(self).spec_capacity()
                == MAX_INLINE_SIZE as int)),
            !old(self).spec_is_heap() && !old(self).spec_is_static() ==> final(self).spec_capacity() == MAX_INLINE_SIZE as int,
    {
        proof {
            assert(old(self)@.take(0) =~= Seq::<u8>::empty());
            assert(valid_utf8(Seq::<u8>::empty()));
        }
        if self.0.is_unique() {
            self.0.set_len(0);
        } else {
            self.0.replace_inner(Repr::new());
        }
    }

    /// Whether the text lives in a heap allocation.
    pub fn is_heap_allocated(&self) -> (r: bool)
        ensures
            r == self.spec_is_heap(),
    {
        self.0.is_heap_buffer()
    }

    /// Removes and returns the character at the byte position `idx`, which
    /// must be a character boundary inside the string.
    pub fn remove(&mut self, idx: usize) -> (r: char)
        requires
            is_char_boundary(old(self)@, idx as int),
            idx < old(self)@.len(),
        ensures
            ({
                let s = old(self)@;
                let n = s.len() as int;
                let k = length_of_first_scalar(s.subrange(idx as int, n));
                &&& r as u32 == decode_first_scalar(s.subrange(idx as int, n))
                &&& final(self)@ =~= s.subrange(0, idx as int) + s.subrange(idx + k, n)
                &&& old(self).chars() =~= decode_utf8(s.subrange(0, idx as int)) + seq![r]
                    + decode_utf8(s.subrange(idx + k, n))
                &&& final(self).chars() =~= decode_utf8(s.subrange(0, idx as int))
                    + decode_utf8(s.subrange(idx + k, n))
            }),
            !final(self).spec_is_static(),
    {
        match self.0.remove(idx) {
            Ok(c) => c,
            Err(_) => vstd::pervasive::unreached(),
        }
    }

    /// Inserts a string at the byte position `idx`, which must be a
    /// character boundary.
    pub fn insert_str(&mut self, idx: usize, string: &str)
        requires
            is_char_boundary(old(self)@, idx as int),
            idx <= old(self)@.len(),
            growth_fits(old(self)@, string.spec_bytes().len() as usize),
        ensures
            final(self)@ =~= old(self)@.subrange(0, idx as int) + string.spec_bytes() + old(self)@.subrange(idx as int, old(self)@.len() as int),
            final(self).chars() =~= decode_utf8(old(self)@.subrange(0, idx as int)) + string@
                + decode_utf8(old(self)@.subrange(idx as int, old(self)@.len() as int)),
            !final(self).spec_is_static(),
    {
        // Pins the inserted byte length to a machine word.
        let sb_len: usize = string.as_bytes().len();
        match self.0.insert_str(idx, string) {
            Ok(u) => (),
            Err(_) => vstd::pervasive::unreached(),
        }
    }

    /// Keeps only the characters the predicate accepts, in their original
    /// order.  The mask in the contract records, for every original
    /// character, what the predicate returned for it.
    pub fn retain<F: Fn(char) -> bool>(&mut self, predicate: F)
        requires
            forall|c: char| predicate.requires((c,)),
        ensures
            exists|keep: Seq<bool>|
                #![auto]
                {
                    &&& keep.len() == old(self).chars().len()
                    &&& final(self).chars() =~= crate::unicode::mask_chars(
                        old(self).chars(),
                        keep,
                    )
                    &&& forall|i: int|
                        0 <= i < keep.len() ==> predicate.ensures(
                            (old(self).chars()[i],),
                            keep[i],
                        )
                },
            !final(self).spec_is_static(),
    {
        match self.0.retain(predicate) {
            Ok(u) => (),
            Err(_) => vstd::pervasive::unreached(),
        }
        proof {
            let keep0 = choose|keep: Seq<bool>|
                #![auto]
                {
                    &&& keep.len() == decode_utf8(old(self).0@).len()
                    &&& decode_utf8(self.0@) =~= crate::unicode::mask_chars(
                        decode_utf8(old(self).0@),
                        keep,
                    )
                    &&& forall|i: int|
                        0 <= i < keep.len() ==> predicate.ensures(
                            (decode_utf8(old(self).0@)[i],),
                            keep[i],
                        )
                };
            assert({
                &&& keep0.len() == old(self).chars().len()
                &&& self.chars() =~= crate::unicode::mask_chars(old(self).chars(), keep0)
                &&& forall|i: int|
                    0 <= i < keep0.len() ==> predicate.ensures((old(self).chars()[i],), keep0[i])
            });
        }
    }

    /// Shrinks a heap allocation towards `max(len, min_capacity)`; see
    /// [`LeanString::try_shrink_to()`].  The precondition keeps the target
    /// capacity representable even when the buffer turns out to be shared.
    pub fn shrink_to(&mut self, min_capacity: usize)
        requires
            old(self)@.len() * 3 <= MAX_TEXT_SIZE * 2,
        ensures
            final(self)@ =~= old(self)@,
            !old(self).spec_is_heap() ==> *final(self) == *old(self),
    {
        match self.try_shrink_to(min_capacity) {
            Ok(u) => (),
            Err(_) => vstd::pervasive::unreached(),
        }
    }

    /// Shrinks a heap allocation towards `max(len, min_capacity)`.  Inline
    /// and static values are untouched; a heap value whose target fits the
    /// inline area becomes inline; otherwise a sole owner reallocates to
    /// the target and a sharing owner copies out.
    pub fn try_shrink_to(&mut self, min_capacity: usize) -> (r: Result<(), ReserveError>)
        ensures
            final(self)@ =~= old(self)@,
            r is Err ==> *final(self) == *old(self),
            !old(self).spec_is_heap() ==> *final(self) == *old(self) && r is Ok,
            old(self).spec_is_heap() ==> ({
                let len = old(self)@.len() as int;
                let target = if min_capacity > len {
                    min_capacity as int
                } else {
                    len
                };
                &&& (target <= MAX_INLINE_SIZE ==> r is Ok && !final(self).spec_is_heap()
                    && !final(self).spec_is_static() && final(self).spec_capacity()
                    == MAX_INLINE_SIZE as int)
                &&& (target > MAX_INLINE_SIZE && target >= old(self).spec_capacity() ==> r is Ok
                    && *final(self) == *old(self))
                &&& (target > MAX_INLINE_SIZE && target < old(self).spec_capacity() && r is Ok
                    ==> final(self).spec_is_heap() && final(self).spec_capacity() >= target)
            }),
            r is Err ==> old(self)@.len() * 3 / 2 > MAX_TEXT_SIZE,
    {
        // Bounds the current length and capacity for the error analysis.
        let n0: usize = self.0.len();
        let r = self.0.shrink_to(min_capacity);
        proof {
            if r is Err {
                let len = old(self)@.len() as int;
                let target = if min_capacity > len {
                    min_capacity as int
                } else {
                    len
                };
                let d = (target - len) as usize;
                assert(n0 == len);
                assert(target <= usize::MAX as int);
                assert(d == target - len);
                assert(n0.saturating_add(d) == target);
                assert(spec_amortized_growth(n0, d) > MAX_TEXT_SIZE);
                assert(target <= MAX_TEXT_SIZE);
                if n0 * 3 > usize::MAX {
                    // Tripling the length overflows a machine word only
                    // when the word is narrower than the packed length
                    // field, and then the halved fallback fits it easily.
                    assert(usize::MAX < 3 * (MAX_TEXT_SIZE as int) + 3);
                    assert((usize::MAX / 2) as int <= MAX_TEXT_SIZE);
                    assert(false);
                } else {
                    assert(n0 * 3 / 2 > MAX_TEXT_SIZE);
                }
            }
        }
        r
    }
}

impl Clone for LeanString {
    /// A clone shares a heap buffer with the original instead of copying
    /// it; only the reference count changes.
    fn clone(&self) -> (r: Self)
        ensures
            r == *self,
    {
        LeanString(self.0.make_shallow_clone())
    }
}

impl Default for LeanString {
    fn default() -> (r: Self)
        ensures
            r@ =~= Seq::<u8>::empty(),
            !r.spec_is_heap(),
            !r.spec_is_static(),
    {
        LeanString::new()
    }
}

} // verus!
