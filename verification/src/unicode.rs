//! Byte-level UTF-8 helpers: encoding a `char`, decoding the first or last
//! character of a valid UTF-8 byte sequence, and lemmas that relate those
//! operations to the sequence-level specifications in `vstd::utf8`.

use vstd::prelude::*;
use vstd::slice::slice_index_get;
use vstd::utf8::*;

verus! {

/// Relies on `char::from_u32`: it returns `Some` exactly for Unicode scalar
/// values (everything up to `0x10FFFF` except the surrogate range), and the
/// returned character has the given numeric value.
pub assume_specification[ char::from_u32 ](v: u32) -> (r: Option<char>)
    ensures
        r is Some <==> is_scalar(v),
        r matches Some(c) ==> c as u32 == v,
;

/// Relies on `core::str::from_utf8`: on UTF-8 input it returns `Ok` of a
/// string slice whose characters are the decoding of exactly those bytes.
/// The precondition rules out the `Err` case.
#[verifier::external_body]
pub fn bytes_to_str(v: &[u8]) -> (r: &str)
    requires
        valid_utf8(v@),
    ensures
        r@ == decode_utf8(v@),
{
    core::str::from_utf8(v).unwrap()
}

/// UTF-8 encoding of a single character, as a fresh byte vector.
pub fn encode_char(c: char) -> (v: Vec<u8>)
    ensures
        v@ =~= encode_scalar(c as u32),
        1 <= v@.len() <= 4,
        valid_utf8(v@),
        decode_utf8(v@) =~= seq![c],
{
    proof {
        char_is_scalar(c);
    }
    let u = c as u32;
    let mut v: Vec<u8> = Vec::new();
    if u <= 0x7F {
        v.push((u & 0x7F) as u8);
    } else if u <= 0x7FF {
        v.push(0xC0u8 | (((u >> 6) & 0x1F) as u8));
        v.push(0x80u8 | ((u & 0x3F) as u8));
    } else if u <= 0xFFFF {
        v.push(0xE0u8 | (((u >> 12) & 0x0F) as u8));
        v.push(0x80u8 | (((u >> 6) & 0x3F) as u8));
        v.push(0x80u8 | ((u & 0x3F) as u8));
    } else {
        v.push(0xF0u8 | (((u >> 18) & 0x7) as u8));
        v.push(0x80u8 | (((u >> 12) & 0x3F) as u8));
        v.push(0x80u8 | (((u >> 6) & 0x3F) as u8));
        v.push(0x80u8 | ((u & 0x3F) as u8));
    }
    proof {
        assert(v@ =~= encode_scalar(u));
        let single = seq![c];
        assert(encode_utf8(single) =~= encode_scalar(u)) by {
            assert(single.drop_first() =~= Seq::<char>::empty());
            assert(encode_utf8(single.drop_first()) =~= Seq::<u8>::empty());
        }
        encode_utf8_valid_utf8(single);
        encode_utf8_decode_utf8(single);
        assert(v@ =~= encode_utf8(single));
    }
    v
}

/// Concatenating two valid UTF-8 sequences yields a valid sequence whose
/// decoding is the concatenation of the decodings, with a character boundary
/// at the seam.
pub proof fn lemma_concat_utf8(a: Seq<u8>, b: Seq<u8>)
    requires
        valid_utf8(a),
        valid_utf8(b),
    ensures
        valid_utf8(a + b),
        is_char_boundary(a + b, a.len() as int),
        decode_utf8(a + b) =~= decode_utf8(a) + decode_utf8(b),
    decreases a.len(),
{
    valid_utf8_concat(a, b);
    if a.len() == 0 {
        assert(a + b =~= b);
        assert(decode_utf8(a) =~= Seq::<char>::empty());
    } else {
        let t = a + b;
        let k1 = length_of_first_scalar(a);
        assert(forall|i: int| 0 <= i < a.len() ==> t[i] == a[i]);
        assert(valid_first_scalar(t));
        assert(length_of_first_scalar(t) == k1);
        assert(decode_first_scalar(t) == decode_first_scalar(a));
        let rest_a = pop_first_scalar(a);
        assert(pop_first_scalar(t) =~= rest_a + b);
        lemma_concat_utf8(rest_a, b);
        assert(is_char_boundary(t, a.len() as int)) by {
            assert(is_char_boundary(rest_a + b, a.len() - k1));
        }
        assert(decode_utf8(t) =~= decode_utf8(a) + decode_utf8(b)) by {
            assert(decode_utf8(t) =~= seq![decode_first_scalar(t) as char] + decode_utf8(
                rest_a + b,
            ));
            assert(decode_utf8(a) =~= seq![decode_first_scalar(a) as char] + decode_utf8(rest_a));
        }
    }
}

/// Bounds on decoded codepoints, stated over the raw bit expressions used by
/// the width-specific decoders.
proof fn lemma_codepoint_bit_bounds(b1: u8, b2: u8, b3: u8, b4: u8)
    by (bit_vector)
    ensures
        ((b1 & 0x7F) as u32) <= 0x7F,
        (((((b1 & 0x1F) as u32)) << 6) | ((b2 & 0x3F) as u32)) <= 0x7FF,
        (((((b1 & 0x0F) as u32)) << 12) | (((b2 & 0x3F) as u32) << 6) | ((b3 & 0x3F) as u32))
            <= 0xFFFF,
        (((((b1 & 0x07) as u32)) << 18) | (((b2 & 0x3F) as u32) << 12) | (((b3 & 0x3F) as u32)
            << 6) | ((b4 & 0x3F) as u32)) <= 0x1FFFFF,
{
}

/// A valid first scalar decodes to a Unicode scalar value.
pub proof fn lemma_first_scalar_is_scalar(s: Seq<u8>)
    requires
        valid_first_scalar(s),
    ensures
        is_scalar(decode_first_scalar(s)),
{
    let b1 = s[0];
    if is_leading_byte_width_1(b1) {
        lemma_codepoint_bit_bounds(b1, 0, 0, 0);
    } else if is_leading_byte_width_2(b1) {
        lemma_codepoint_bit_bounds(b1, s[1], 0, 0);
    } else if is_leading_byte_width_3(b1) {
        lemma_codepoint_bit_bounds(b1, s[1], s[2], 0);
    } else {
        lemma_codepoint_bit_bounds(b1, s[1], s[2], s[3]);
    }
}

/// Facts about the final character of a valid UTF-8 sequence: where its
/// encoding starts, that the front of the sequence remains valid without it,
/// and how the decoding splits off the final character.
pub proof fn lemma_last_scalar(s: Seq<u8>)
    requires
        valid_utf8(s),
        s.len() > 0,
    ensures
        ({
            let n = s.len() as int;
            let k = length_of_last_scalar(s);
            &&& 1 <= k <= 4
            &&& k <= n
            &&& is_char_boundary(s, n - k)
            &&& valid_utf8(s.subrange(0, n - k))
            &&& valid_utf8(s.subrange(n - k, n))
            &&& !is_continuation_byte(s[n - k])
            &&& forall|j: int| n - k < j < n ==> is_continuation_byte(s[j])
            &&& is_scalar(decode_last_scalar(s))
            &&& length_of_first_scalar(s.subrange(n - k, n)) == k
            &&& decode_first_scalar(s.subrange(n - k, n)) == decode_last_scalar(s)
            &&& decode_utf8(s.subrange(n - k, n)) =~= seq![decode_last_scalar(s) as char]
            &&& decode_utf8(s) =~= decode_utf8(s.subrange(0, n - k)).push(
                decode_last_scalar(s) as char,
            )
        }),
    decreases s.len(),
{
    let n = s.len() as int;
    let k1 = length_of_first_scalar(s);
    let rest = pop_first_scalar(s);
    if rest.len() == 0 {
        // The whole sequence is a single scalar encoding.
        assert(k1 == n);
        let k = length_of_last_scalar(s);
        assert(k == n);
        assert(decode_last_scalar(s) == decode_first_scalar(s));
        lemma_first_scalar_is_scalar(s);
        assert(s.subrange(0, 0) =~= Seq::<u8>::empty());
        assert(s.subrange(0, n) =~= s);
        assert(length_of_first_scalar(s.subrange(n - k, n)) == k);
        assert(decode_first_scalar(s.subrange(n - k, n)) == decode_last_scalar(s));
        assert(decode_utf8(rest) =~= Seq::<char>::empty());
        assert(decode_utf8(s) =~= seq![decode_first_scalar(s) as char]);
        assert(decode_utf8(s) =~= decode_utf8(s.subrange(0, n - k)).push(
            decode_last_scalar(s) as char,
        ));
    } else {
        let m = rest.len() as int;
        lemma_last_scalar(rest);
        let k = length_of_last_scalar(rest);
        assert(forall|j: int| 0 <= j < m ==> rest[j] == s[k1 + j]);
        assert(length_of_last_scalar(s) == k);
        assert(decode_last_scalar(s) == decode_last_scalar(rest));
        assert(is_char_boundary(s, n - k)) by {
            assert(is_char_boundary(rest, m - k));
            assert(n - k == k1 + (m - k));
        }
        valid_utf8_split(s, n - k);
        assert(s.subrange(n - k, n) =~= rest.subrange(m - k, m));
        assert(decode_utf8(s) =~= decode_utf8(s.subrange(0, n - k)).push(
            decode_last_scalar(s) as char,
        )) by {
            decode_utf8_split(s, n - k);
            assert(decode_utf8(s.subrange(n - k, n)) =~= seq![decode_last_scalar(s) as char]);
        }
    }
}

/// The subsequence of `cs` selected by the boolean mask `keep`.
pub open spec fn mask_chars(cs: Seq<char>, keep: Seq<bool>) -> Seq<char>
    decreases cs.len(),
{
    if cs.len() == 0 {
        Seq::empty()
    } else {
        let rest = mask_chars(cs.drop_first(), keep.drop_first());
        if keep.len() > 0 && keep[0] {
            seq![cs[0]] + rest
        } else {
            rest
        }
    }
}

/// Extending the sequence and the mask by one element extends the selection
/// accordingly.
pub proof fn lemma_mask_push(cs: Seq<char>, keep: Seq<bool>, c: char, b: bool)
    requires
        keep.len() == cs.len(),
    ensures
        mask_chars(cs.push(c), keep.push(b)) =~= mask_chars(cs, keep) + (if b {
            seq![c]
        } else {
            Seq::<char>::empty()
        }),
    decreases cs.len(),
{
    if cs.len() == 0 {
        assert(cs.push(c).drop_first() =~= Seq::<char>::empty());
        assert(keep.push(b).drop_first() =~= Seq::<bool>::empty());
        assert(mask_chars(cs.push(c).drop_first(), keep.push(b).drop_first())
            =~= Seq::<char>::empty());
        assert(mask_chars(cs, keep) =~= Seq::<char>::empty());
    } else {
        assert(cs.push(c).drop_first() =~= cs.drop_first().push(c));
        assert(keep.push(b).drop_first() =~= keep.drop_first().push(b));
        lemma_mask_push(cs.drop_first(), keep.drop_first(), c, b);
        assert(cs.push(c)[0] == cs[0]);
        assert(keep.push(b)[0] == keep[0]);
    }
}

/// A byte sequence that is exactly one scalar encoding is valid UTF-8 and
/// decodes to that one character.
pub proof fn lemma_single_scalar(s: Seq<u8>)
    requires
        valid_first_scalar(s),
        s.len() == length_of_first_scalar(s),
    ensures
        valid_utf8(s),
        decode_utf8(s) =~= seq![decode_first_scalar(s) as char],
{
    assert(pop_first_scalar(s) =~= Seq::<u8>::empty());
    assert(valid_utf8(pop_first_scalar(s)));
    assert(valid_utf8(s));
    assert(decode_utf8(pop_first_scalar(s)) =~= Seq::<char>::empty());
}

/// Facts about removing the character whose encoding starts at a given
/// boundary: the bytes before it, the bytes after it, and their
/// concatenation are all valid UTF-8, and the decodings relate as the
/// character sequence with one element cut out.
pub proof fn lemma_remove_scalar(s: Seq<u8>, idx: int)
    requires
        valid_utf8(s),
        is_char_boundary(s, idx),
        0 <= idx < s.len(),
    ensures
        ({
            let n = s.len() as int;
            let suffix = s.subrange(idx, n);
            let k = length_of_first_scalar(suffix);
            &&& valid_utf8(suffix)
            &&& valid_first_scalar(suffix)
            &&& 1 <= k <= 4
            &&& idx + k <= n
            &&& is_char_boundary(s, idx + k)
            &&& valid_utf8(s.subrange(0, idx))
            &&& valid_utf8(s.subrange(idx + k, n))
            &&& valid_utf8(s.subrange(0, idx) + s.subrange(idx + k, n))
            &&& valid_utf8(s.subrange(idx, idx + k))
            &&& decode_utf8(s.subrange(idx, idx + k)) =~= seq![decode_first_scalar(suffix) as char]
            &&& decode_utf8(s) =~= decode_utf8(s.subrange(0, idx)) + seq![
                decode_first_scalar(suffix) as char,
            ] + decode_utf8(s.subrange(idx + k, n))
            &&& decode_utf8(s.subrange(0, idx) + s.subrange(idx + k, n)) =~= decode_utf8(
                s.subrange(0, idx),
            ) + decode_utf8(s.subrange(idx + k, n))
        }),
{
    let n = s.len() as int;
    let suffix = s.subrange(idx, n);
    valid_utf8_split(s, idx);
    decode_utf8_split(s, idx);
    assert(valid_utf8(suffix));
    assert(suffix.len() > 0);
    assert(valid_first_scalar(suffix));
    let k = length_of_first_scalar(suffix);
    let rest = pop_first_scalar(suffix);
    assert(rest =~= s.subrange(idx + k, n));
    assert(valid_utf8(s.subrange(idx + k, n)));
    assert(is_char_boundary(s, idx + k)) by {
        if idx + k == n {
            is_char_boundary_start_end_of_seq(s);
        } else {
            assert(rest.len() > 0);
            assert(valid_first_scalar(rest));
            assert(s[idx + k] == rest[0]);
            assert(!is_continuation_byte(s[idx + k]));
            is_char_boundary_iff_not_is_continuation_byte(s, idx + k);
        }
    }
    assert(s.subrange(idx, idx + k) =~= suffix.subrange(0, k));
    assert(forall|i: int| 0 <= i < k ==> suffix.subrange(0, k)[i] == suffix[i]);
    assert(valid_first_scalar(suffix.subrange(0, k)));
    assert(length_of_first_scalar(suffix.subrange(0, k)) == k);
    assert(decode_first_scalar(suffix.subrange(0, k)) == decode_first_scalar(suffix));
    lemma_single_scalar(suffix.subrange(0, k));
    assert(decode_utf8(suffix) =~= seq![decode_first_scalar(suffix) as char] + decode_utf8(rest));
    lemma_concat_utf8(s.subrange(0, idx), s.subrange(idx + k, n));
}

/// Decodes the character whose encoding starts at byte `start`.
/// Returns the character and the width of its encoding.
pub fn decode_char_at(bytes: &[u8], start: usize) -> (r: (char, usize))
    requires
        valid_utf8(bytes@.subrange(start as int, bytes@.len() as int)),
        start < bytes@.len(),
    ensures
        ({
            let suffix = bytes@.subrange(start as int, bytes@.len() as int);
            &&& r.1 == length_of_first_scalar(suffix)
            &&& 1 <= r.1 <= 4
            &&& start + r.1 <= bytes@.len()
            &&& r.0 as u32 == decode_first_scalar(suffix)
        }),
{
    let ghost suffix = bytes@.subrange(start as int, bytes@.len() as int);
    let n: usize = bytes.len();
    let b1 = *slice_index_get(bytes, start);
    assert(b1 == suffix[0]);
    assert(valid_first_scalar(suffix));
    proof {
        lemma_first_scalar_is_scalar(suffix);
    }
    let (v, width): (u32, usize) = if b1 <= 0x7F {
        (((b1 & 0x7F) as u32), 1)
    } else if 0xC0 <= b1 && b1 <= 0xDF {
        let b2 = *slice_index_get(bytes, start + 1);
        assert(b2 == suffix[1]);
        (((((b1 & 0x1F) as u32)) << 6) | ((b2 & 0x3F) as u32), 2)
    } else if 0xE0 <= b1 && b1 <= 0xEF {
        let b2 = *slice_index_get(bytes, start + 1);
        let b3 = *slice_index_get(bytes, start + 2);
        assert(b2 == suffix[1] && b3 == suffix[2]);
        (((((b1 & 0x0F) as u32)) << 12) | (((b2 & 0x3F) as u32) << 6) | ((b3 & 0x3F) as u32), 3)
    } else {
        assert(0xF0 <= b1 && b1 <= 0xF7);
        let b2 = *slice_index_get(bytes, start + 1);
        let b3 = *slice_index_get(bytes, start + 2);
        let b4 = *slice_index_get(bytes, start + 3);
        assert(b2 == suffix[1] && b3 == suffix[2] && b4 == suffix[3]);
        (
            ((((b1 & 0x07) as u32)) << 18) | (((b2 & 0x3F) as u32) << 12) | (((b3 & 0x3F) as u32)
                << 6) | ((b4 & 0x3F) as u32),
            4,
        )
    };
    assert(v == decode_first_scalar(suffix));
    assert(width == length_of_first_scalar(suffix));
    match char::from_u32(v) {
        Some(c) => (c, width),
        None => vstd::pervasive::unreached(),
    }
}

/// Decodes the final character of a valid, non-empty UTF-8 sequence.
/// Returns the character and the width of its encoding.
#[verifier::loop_isolation(false)]
pub fn decode_last_char(bytes: &[u8]) -> (r: (char, usize))
    requires
        valid_utf8(bytes@),
        bytes@.len() > 0,
    ensures
        r.1 == length_of_last_scalar(bytes@),
        1 <= r.1 <= bytes@.len(),
        r.0 as u32 == decode_last_scalar(bytes@),
        is_char_boundary(bytes@, bytes@.len() - r.1),
        valid_utf8(bytes@.subrange(0, bytes@.len() - r.1)),
        decode_utf8(bytes@) =~= decode_utf8(bytes@.subrange(0, bytes@.len() - r.1)).push(r.0),
{
    let ghost s = bytes@;
    proof {
        lemma_last_scalar(s);
    }
    let n: usize = bytes.len();
    let ghost k = length_of_last_scalar(s);
    let mut p: usize = n - 1;
    while 0x80 <= *slice_index_get(bytes, p) && *slice_index_get(bytes, p) <= 0xBF
        invariant
            valid_utf8(s),
            s.len() == n,
            0 < n <= usize::MAX,
            s.len() - k <= p <= n - 1,
            forall|j: int| p < j < n ==> is_continuation_byte(s[j]),
        decreases p,
    {
        assert(is_continuation_byte(s[p as int]));
        assert(p as int != s.len() - k);
        p = p - 1;
    }
    assert(!is_continuation_byte(s[p as int]));
    assert(p as int == s.len() - k);
    proof {
        valid_utf8_split(s, p as int);
    }
    let (c, width) = decode_char_at(bytes, p);
    let ghost suffix = s.subrange(p as int, n as int);
    proof {
        assert(decode_utf8(suffix) =~= seq![decode_last_scalar(s) as char]);
        assert(decode_utf8(suffix) == seq![decode_first_scalar(suffix) as char] + decode_utf8(
            pop_first_scalar(suffix),
        ));
        assert(decode_utf8(suffix)[0] == decode_first_scalar(suffix) as char);
        assert(decode_first_scalar(suffix) as char == decode_last_scalar(s) as char);
        lemma_first_scalar_is_scalar(suffix);
        char_u32_cast(c, decode_first_scalar(suffix));
        assert(c as u32 == decode_last_scalar(s)) by {
            assert(decode_first_scalar(suffix) == (decode_first_scalar(suffix) as char) as u32);
        }
        assert(width == k) by {
            assert(length_of_first_scalar(suffix) == k);
        }
        char_u32_cast(c, decode_last_scalar(s));
    }
    (c, width)
}

} // verus!
