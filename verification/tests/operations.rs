use lean_string::repr::Repr;
use lean_string::{LeanString, ReserveError, MAX_INLINE_SIZE, MAX_TEXT_SIZE};

#[test]
fn round_trip_bytes() {
    let cases = ["", "a", "0123456789abcdef", "0123456789abcdefg", "héllo wörld 👍"];
    for s in cases {
        let lean = LeanString::from(s);
        assert_eq!(lean.as_bytes(), s.as_bytes());
        assert_eq!(lean.as_str(), s);
        assert_eq!(lean.len(), s.len());
    }
}

#[test]
fn variant_classification() {
    // At most the inline size: never heap allocated.
    let short = LeanString::from("0123456789abcdef");
    assert!(!short.is_heap_allocated());

    // Longer, from ordinary bytes: heap allocated.
    let long = LeanString::from("0123456789abcdefg");
    assert!(long.is_heap_allocated());

    // Longer, from static bytes: not heap allocated, capacity equals length.
    let static_ = LeanString::from_static_str("0123456789abcdefg");
    assert!(!static_.is_heap_allocated());
    assert_eq!(static_.capacity(), static_.len());
}

#[test]
fn with_capacity_too_large() {
    let too_big = (MAX_TEXT_SIZE as usize) + 1;
    let r = LeanString::try_with_capacity(too_big);
    assert!(matches!(r, Err(ReserveError)));
    assert!(LeanString::try_with_capacity(MAX_INLINE_SIZE).is_ok());
}

#[test]
fn reserve_amortized_growth() {
    // Growing a full inline string by two bytes allocates the amortized
    // capacity: max(16 + 2, 16 * 3 / 2) = 24.
    let mut s = LeanString::from("abcdefgh12345678");
    assert_eq!(s.capacity(), 16);
    s.push_str("90");
    assert!(s.is_heap_allocated());
    assert_eq!(s.capacity(), 24);
    assert_eq!(s.as_str(), "abcdefgh1234567890");

    // A unique heap value with room left is untouched by reserve.
    s.reserve(6);
    assert_eq!(s.capacity(), 24);

    // Asking for more room grows to max(18 + 10, 18 * 3 / 2) = 28.
    s.reserve(10);
    assert_eq!(s.capacity(), 28);
}

#[test]
fn reserve_capacity_covers_request() {
    let mut s = LeanString::new();
    s.reserve(40);
    assert!(s.capacity() >= 40);
    assert_eq!(s.len(), 0);

    let mut t = LeanString::from("hello");
    t.reserve(100);
    assert!(t.capacity() >= 105);
    assert_eq!(t.as_str(), "hello");
}

#[test]
fn shrink_heap_to_inline() {
    let mut s = LeanString::with_capacity(40);
    s.push_str("short");
    assert!(s.is_heap_allocated());
    s.shrink_to(0);
    assert!(!s.is_heap_allocated());
    assert_eq!(s.capacity(), MAX_INLINE_SIZE);
    assert_eq!(s.as_str(), "short");
}

#[test]
fn shrink_unique_heap_in_place() {
    let mut s = LeanString::with_capacity(64);
    s.push_str("abcdefghijklmnopqrstuvwxyz");
    assert_eq!(s.capacity(), 64);
    s.shrink_to(30);
    assert_eq!(s.capacity(), 30);
    assert_eq!(s.as_str(), "abcdefghijklmnopqrstuvwxyz");

    // Shrinking below the length stops at the length.
    s.shrink_to(20);
    assert_eq!(s.capacity(), 26);
    // Growing via shrink_to is a no-op.
    s.shrink_to(100);
    assert_eq!(s.capacity(), 26);
}

#[test]
fn shrink_shared_heap() {
    let mut a = LeanString::with_capacity(64);
    a.push_str("abcdefghijklmnopqrstuvwxyz");
    let b = a.clone();
    a.shrink_to(30);
    assert_eq!(a.as_str(), "abcdefghijklmnopqrstuvwxyz");
    assert!(a.capacity() >= 30);
    assert!(a.capacity() < 64);
    // The other owner still sees its buffer untouched.
    assert_eq!(b.capacity(), 64);
    assert_eq!(b.as_str(), "abcdefghijklmnopqrstuvwxyz");
}

#[test]
fn insert_str_middle() {
    let mut s = LeanString::from("Hello!");
    s.insert_str(5, ", world");
    assert_eq!(s.as_str(), "Hello, world!");

    let mut t = LeanString::from("abcdefghijklmnopqrstuvwxyz");
    let u = t.clone();
    t.insert_str(0, ">>");
    assert_eq!(t.as_str(), ">>abcdefghijklmnopqrstuvwxyz");
    assert_eq!(u.as_str(), "abcdefghijklmnopqrstuvwxyz");

    let mut m = LeanString::from("a👍b");
    m.insert_str(1, "x");
    assert_eq!(m.as_str(), "ax👍b");
}

#[test]
fn remove_multibyte() {
    let mut s = LeanString::from("a👍b\u{e68b}c");
    assert_eq!(s.remove(1), '👍');
    assert_eq!(s.as_str(), "ab\u{e68b}c");
    assert_eq!(s.remove(2), '\u{e68b}');
    assert_eq!(s.as_str(), "abc");
}

#[test]
fn pop_multibyte() {
    let mut s = LeanString::from("ab👍");
    assert_eq!(s.pop(), Some('👍'));
    assert_eq!(s.as_str(), "ab");
    assert_eq!(s.len(), 2);
}

#[test]
fn retain_keeps_order() {
    let mut s = LeanString::from("a1b2c3d4");
    s.retain(|c: char| c.is_ascii_alphabetic());
    assert_eq!(s.as_str(), "abcd");

    let mut t = LeanString::from("keep nothing");
    t.retain(|_c: char| false);
    assert_eq!(t.as_str(), "");

    let mut u = LeanString::from("abcdefghijklmnopqrstuvwxyz");
    let v = u.clone();
    u.retain(|c: char| c != 'm');
    assert_eq!(u.as_str(), "abcdefghijklnopqrstuvwxyz");
    assert_eq!(v.as_str(), "abcdefghijklmnopqrstuvwxyz");
}

#[test]
fn retain_multibyte() {
    let mut s = LeanString::from("a👍b👍c");
    s.retain(|c: char| c != '👍');
    assert_eq!(s.as_str(), "abc");
}

#[test]
fn clear_unique_heap_keeps_capacity() {
    let mut s = LeanString::with_capacity(50);
    s.push_str("some contents here");
    assert!(s.is_heap_allocated());
    assert_eq!(s.capacity(), 50);
    s.clear();
    assert_eq!(s.len(), 0);
    assert!(s.is_heap_allocated());
    assert_eq!(s.capacity(), 50);
}

#[test]
fn char_boundaries() {
    let s = LeanString::from("a👍b");
    assert!(s.is_char_boundary(0));
    assert!(s.is_char_boundary(1));
    assert!(!s.is_char_boundary(2));
    assert!(!s.is_char_boundary(3));
    assert!(!s.is_char_boundary(4));
    assert!(s.is_char_boundary(5));
    assert!(s.is_char_boundary(6));
    assert!(!s.is_char_boundary(7));
}

#[test]
fn default_is_empty_inline() {
    let s = LeanString::default();
    assert!(s.is_empty());
    assert!(!s.is_heap_allocated());
    assert_eq!(s.capacity(), MAX_INLINE_SIZE);
}

#[test]
fn error_messages() {
    let e = ReserveError;
    assert!(!e.message().is_empty());
    let f = lean_string::ToLeanStringError::from(e);
    assert_eq!(f, lean_string::ToLeanStringError::Reserve(ReserveError));
    assert!(!f.message().is_empty());
    assert!(!lean_string::FromUtf16Error.message().is_empty());
}

#[test]
fn inline_boundary_pop() {
    // One byte past the inline limit: heap allocated with capacity equal to
    // the length, and popping shrinks in place without giving the buffer up.
    let mut r = LeanString::from("01234567890123456");
    assert_eq!(r.len(), 17);
    assert!(r.is_heap_allocated());
    assert_eq!(r.capacity(), 17);

    assert_eq!(r.pop(), Some('6'));
    assert_eq!(r.len(), 16);
    assert!(r.is_heap_allocated());
    assert_eq!(r.capacity(), 17);
}

#[test]
fn refcount_uniqueness() {
    let a = match Repr::from_str("abcdefghijklmnopqrstuvwxyz") {
        Ok(p) => p,
        Err(_) => panic!("construction failed"),
    };
    assert!(a.is_unique());
    let b = a.make_shallow_clone();
    assert!(!a.is_unique());
    assert!(!b.is_unique());
    drop(b);
    // The last remaining owner sees the count back at one.
    assert!(a.is_unique());
}

#[test]
fn try_from_str_round_trip() {
    let s = LeanString::try_from_str("hello world, long enough to heap!").unwrap();
    assert_eq!(s.as_str(), "hello world, long enough to heap!");
    assert!(s.is_heap_allocated());

    let t = LeanString::try_from_str("tiny").unwrap();
    assert!(!t.is_heap_allocated());
}

#[test]
fn cow_independence() {
    // Mutating either owner of a shared buffer never changes the other.
    let mut a = LeanString::from("abcdefghijklmnopqrstuvwxyz");
    let mut b = a.clone();
    a.push_str("123");
    assert_eq!(b.as_str(), "abcdefghijklmnopqrstuvwxyz");
    b.pop();
    assert_eq!(a.as_str(), "abcdefghijklmnopqrstuvwxyz123");
    assert_eq!(b.as_str(), "abcdefghijklmnopqrstuvwxy");
}
