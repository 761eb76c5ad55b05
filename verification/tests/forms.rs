use sso_string::long_string::LongString;
use sso_string::raw_buf::RawBuf;
use sso_string::short_string::{ShortString64, MAX_CAPACITY};
use sso_string::unified_alloc::{new_slice_layout, padding_needed_for, repeat, Layout};

#[test]
fn raw_buf_clones_correctly() {
    let (buf, granted) = RawBuf::<i32>::new(16);
    let copy = buf.clone();
    assert_eq!(granted, copy.granted());
    assert_eq!(buf.granted(), copy.granted());
}

#[test]
fn raw_buf_capacity_is_correct() {
    let (_, granted) = RawBuf::<i32>::new(16);
    assert!(granted >= 16);

    let (buf, granted) = RawBuf::<i32>::new(0);
    assert_eq!(buf.granted(), 0);
    assert_eq!(granted, 0);
}

#[test]
fn raw_buf_dealloc_requires_exact_size() {
    let (buf, granted) = RawBuf::<u8>::new(16);
    assert!(buf.dealloc(granted + 1).is_err());

    let (buf, granted) = RawBuf::<u8>::new(16);
    let sentinel = buf.dealloc(granted).unwrap();
    assert_eq!(sentinel.granted(), 0);
    assert!(sentinel.dealloc(0).is_err());
}

#[test]
fn short_form_footprint_is_24_bytes() {
    assert_eq!(core::mem::size_of::<ShortString64>(), 24);
}

#[test]
fn short_string_64_fills_to_max_capacity() {
    assert_eq!(MAX_CAPACITY, 23);

    let mut s = ShortString64::new();
    assert_eq!(s.len(), 0);

    let tail = "Hello, world!";
    assert_eq!(tail.len(), 13);
    s.push_str(tail);
    assert_eq!(s.len(), 13);

    let tail = " It's hot.";
    assert_eq!(tail.len(), 10);
    s.push_str(tail);
    assert_eq!(s.len(), 23);

    assert_eq!(s.as_str(), "Hello, world! It's hot.");

    s.push_str("something else");
    assert_eq!(s.as_str(), "Hello, world! It's hot.");
}

#[test]
fn short_string_64_upgrades_correctly() {
    let mut s = ShortString64::new();
    s.push_str("Hello, world!");

    for capacity in (0..32).step_by(8) {
        let mut ls = s.into_long(capacity);
        assert_eq!(ls.len(), s.len());
        assert_eq!(ls.as_str(), s.as_str());
        assert!(ls.capacity() >= MAX_CAPACITY + capacity);
        ls.free();
    }
}

#[test]
fn short_string_push_works() {
    let mut s = ShortString64::new();
    s.push('a');
    assert_eq!(s.as_str(), "a");

    s.push('あ');
    assert_eq!(s.as_str(), "aあ");

    s.push_str("much too long to fit in a short string");
    assert_eq!(s.as_str(), "aあ");
}

#[test]
fn long_string_extends_within_capacity() {
    let mut s = LongString::with_capacity(16);
    let capacity = s.capacity();
    assert!(capacity >= 16);

    let tail_1 = "I know that";
    assert_eq!(tail_1.len(), 11);
    s.push_str(tail_1);
    assert_eq!(s.as_str(), tail_1);

    assert_eq!(s.capacity() - tail_1.len(), s.remaining_capacity());
    let tail_2 = ".".repeat(s.remaining_capacity());
    s.push_str(&tail_2);

    let mut correct_s = String::from(tail_1);
    correct_s.push_str(&tail_2);

    assert_eq!(s.as_str(), &correct_s);
    assert_eq!(s.remaining_capacity(), 0);
    assert_eq!(s.capacity(), capacity);

    s.free();
}

#[test]
fn long_string_can_clone_with_additional_capacity() {
    let mut s = LongString::with_capacity(16);
    s.push_str("Hello, world!");
    let mut cloned = s.clone_with_additional_capacity(16);
    assert_eq!(s.len(), cloned.len());
    assert_eq!(s.as_str(), cloned.as_str());
    assert!(cloned.capacity() >= s.capacity() + 16);
    s.free();
    cloned.free();
}

#[test]
fn long_string_reallocs_automatically() {
    let mut s = LongString::with_capacity(16);
    let initial_capacity = s.capacity();
    let tail = ".".repeat(s.remaining_capacity());
    s.push_str(&tail);
    let len = s.len();
    assert_eq!(s.remaining_capacity(), 0);
    assert_eq!(s.len(), tail.len());

    s.push_str(".");
    assert!(s.capacity() > initial_capacity);
    assert_eq!(len + 1, s.len());

    let mut correct_s = String::from(&tail);
    correct_s.push_str(".");
    assert_eq!(s.as_str(), &correct_s);
    s.free();
}

#[test]
fn growth_policy_doubles_or_fits_exactly() {
    let mut s = LongString::with_capacity(16);
    s.push_str("0123456789abcdef");
    s.push_str("!");
    assert_eq!(s.len(), 17);
    assert_eq!(s.capacity(), 32);
    s.free();

    let mut s = LongString::with_capacity(4);
    s.push_str("abcdefghijklmnopqrst");
    assert_eq!(s.len(), 20);
    assert_eq!(s.capacity(), 20);
    s.free();
}

#[test]
fn long_string_constructs_from_str() {
    let long = LongString::from_str("💁👌🎍😍");
    assert_eq!(long.as_str(), "💁👌🎍😍");
}

#[test]
fn long_string_copy_from_replaces_text() {
    let mut s = LongString::with_capacity(32);
    s.push_str("hello");
    s.copy_from("world!");
    assert_eq!(s.as_str(), "world!");
    assert_eq!(s.capacity(), 32);
    s.free();
}

#[test]
fn long_string_free_leaves_sentinel() {
    let mut s = LongString::from_str("some heap text");
    assert!(s.capacity() > 0);
    s.free();
    assert_eq!(s.len(), 0);
    assert_eq!(s.capacity(), 0);
    assert_eq!(s.as_str(), "");
    s.free();
    assert_eq!(s.capacity(), 0);
}

#[test]
fn layout_arithmetic_is_exact() {
    let layout = Layout::from_size_align(10, 4).unwrap();
    assert_eq!(padding_needed_for(&layout, 4), 2);
    let (repeated, stride) = repeat(&layout, 3).unwrap();
    assert_eq!(stride, 12);
    assert_eq!(repeated.size(), 36);
    assert_eq!(repeated.align(), 4);

    assert!(Layout::from_size_align(8, 0).is_none());

    let aligned = Layout::from_size_align(8, 8).unwrap();
    assert_eq!(padding_needed_for(&aligned, 8), 0);

    let (slice_layout, stride) = new_slice_layout::<u32>(5);
    assert_eq!(slice_layout.size(), 20);
    assert_eq!(stride, 4);
}
