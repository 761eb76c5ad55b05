use sso_string::short_string::MAX_CAPACITY;
use sso_string::sso_string::SsoString;

#[test]
fn test_sso_string_upgrades() {
    let mut s = SsoString::from("Hello, world,");
    assert!(s.is_short());
    s.push_str(" my name i");
    assert!(s.is_short());
    assert_eq!(s.len(), MAX_CAPACITY);
    s.push_str("s");
    assert!(s.is_long());
    assert_eq!(&s, "Hello, world, my name is");
    s.push_str(" George!");
    assert_eq!("Hello, world, my name is George!", &s);
}

#[test]
fn push_works() {
    let mut s = SsoString::from("Hello, world");
    s.push('!');
    assert_eq!(&s, "Hello, world!");

    let mut s = SsoString::from("こんにちは世界");
    s.push('！');
    assert_eq!(&s, "こんにちは世界！")
}

#[test]
fn boost_coverage() {
    let s = SsoString::new();
    assert!(s.is_short());
    assert_eq!(s.capacity(), MAX_CAPACITY);
}

#[test]
fn retain_works() {
    let mut s = SsoString::from("Hello, world! I am Gregory.");
    s.retain(|ch| ch != ' ');
    assert_eq!(&s, "Hello,world!IamGregory.")
}

#[test]
fn retain_preserves_form_and_capacity() {
    let mut s = SsoString::from("aあbあc");
    s.retain(|ch| ch != 'あ');
    assert_eq!(&s, "abc");
    assert!(s.is_short());

    let mut heap = SsoString::from("keep every single character");
    heap.reserve(64);
    let capacity = heap.capacity();
    heap.retain(|_| true);
    assert_eq!(&heap, "keep every single character");
    assert!(heap.is_long());
    assert_eq!(heap.capacity(), capacity);

    heap.retain(|_| false);
    assert_eq!(heap.len(), 0);
    assert_eq!(heap.capacity(), capacity);
}

#[test]
fn pop_works() {
    let mut s = SsoString::from("Hi!");
    assert_eq!(Some('!'), s.pop());
    assert_eq!(Some('i'), s.pop());
    assert_eq!(Some('H'), s.pop());
    assert_eq!(None, s.pop());
}

#[test]
fn pop_handles_multibyte_and_heap() {
    let mut s = SsoString::from("aあ💁");
    s.reserve(64);
    assert!(s.is_long());
    assert_eq!(Some('💁'), s.pop());
    assert_eq!(Some('あ'), s.pop());
    assert_eq!(Some('a'), s.pop());
    assert_eq!(None, s.pop());
    assert!(s.is_long());

    let mut inline = SsoString::from("xあ");
    assert_eq!(Some('あ'), inline.pop());
    assert_eq!(inline.len(), 1);
    assert!(inline.is_short());
}

#[test]
fn round_trip_view() {
    for text in ["", "a", "hello", "こんにちは世界", "💁👌🎍😍", "a longer piece of text that cannot stay inline"] {
        let mut s = SsoString::new();
        s.push_str(text);
        assert_eq!(s.as_str(), text);
        assert_eq!(s.len(), text.len());
    }
}

#[test]
fn len_counts_bytes() {
    let mut s = SsoString::new();
    s.push('あ');
    assert_eq!(s.len(), 3);
    assert_eq!(s.as_str().chars().count(), 1);
}

#[test]
fn capacity_monotonic_across_pushes() {
    let mut s = SsoString::new();
    let mut last_capacity = s.capacity();
    for i in 0..50 {
        if i % 3 == 0 {
            s.push_str("chunk of text ");
        } else {
            s.push('x');
        }
        assert!(s.len() <= s.capacity());
        assert!(s.capacity() >= last_capacity);
        last_capacity = s.capacity();
    }
}

#[test]
fn reserve_promotes_to_heap() {
    let mut s = SsoString::from("Hello, world!");
    assert!(s.is_short());
    s.reserve(100);
    assert!(s.is_long());
    assert_eq!(&s, "Hello, world!");
    assert!(s.capacity() >= s.len() + 100);
}

#[test]
fn reserve_exact_gives_exact_capacity() {
    let mut s = SsoString::from("abc");
    s.reserve_exact(10);
    assert!(s.is_long());
    assert_eq!(s.capacity(), 13);
    assert_eq!(&s, "abc");
}

#[test]
fn shrink_to_demotes_when_content_fits() {
    let mut s = SsoString::from("short text");
    s.reserve(200);
    assert!(s.is_long());
    s.shrink_to(0);
    assert!(s.is_short());
    assert_eq!(&s, "short text");
    assert_eq!(s.capacity(), MAX_CAPACITY);
}

#[test]
fn shrink_to_reallocates_heap_downwards() {
    let mut s = SsoString::from("a string too long to ever fit inline again");
    s.reserve(500);
    assert!(s.is_long());
    let len = s.len();
    s.shrink_to(50);
    assert!(s.is_long());
    assert_eq!(s.capacity(), 50.max(len));
    assert_eq!(&s, "a string too long to ever fit inline again");
    let before = s.capacity();
    s.shrink_to(1000);
    assert_eq!(s.capacity(), before);
}

#[test]
fn clear_preserves_form_and_capacity() {
    let mut inline = SsoString::from("hi");
    inline.clear();
    assert!(inline.is_short());
    assert_eq!(inline.len(), 0);
    assert_eq!(inline.capacity(), MAX_CAPACITY);

    let mut heap = SsoString::from("hello");
    heap.reserve(64);
    let capacity = heap.capacity();
    heap.clear();
    assert!(heap.is_long());
    assert_eq!(heap.len(), 0);
    assert_eq!(heap.capacity(), capacity);
    heap.push_str("fresh");
    assert_eq!(&heap, "fresh");
}

#[test]
fn with_capacity_zero_is_inline() {
    let s = SsoString::with_capacity(0);
    assert!(s.is_short());
    assert_eq!(s.len(), 0);
    assert_eq!(s.capacity(), MAX_CAPACITY);
}

#[test]
fn with_capacity_large_is_heap() {
    let s = SsoString::with_capacity(100);
    assert!(s.is_long());
    assert_eq!(s.len(), 0);
    assert_eq!(s.capacity(), 100);
}

#[test]
fn equality_is_form_independent() {
    let text = "exactly the same text";
    let inline = SsoString::from(text);
    let mut heap = SsoString::from(text);
    heap.reserve(64);
    assert!(inline.is_short());
    assert!(heap.is_long());
    assert!(inline == heap);
    assert!(heap == inline);
    assert_eq!(&inline, text);
    assert_eq!(text, &heap);
    assert_eq!(inline.display_string(), heap.display_string());

    let other = SsoString::from("different text");
    assert!(inline != other);
}

#[test]
fn display_and_debug_strings() {
    let mut s = SsoString::from("abc");
    assert_eq!(s.display_string(), "abc");
    assert_eq!(s.debug_string(), "Short(\"abc\")");
    s.reserve(30);
    assert_eq!(s.display_string(), "abc");
    assert_eq!(s.debug_string(), "Long(\"abc\")");
}

#[test]
fn clone_independence_inline() {
    let source = SsoString::from("inline text");
    let mut copy = source.clone();
    copy.push_str(" grows");
    assert_eq!(&source, "inline text");
    assert_eq!(&copy, "inline text grows");
}

#[test]
fn clone_independence_heap() {
    let mut source = SsoString::from("text that is long enough to need the heap");
    source.reserve(10);
    assert!(source.is_long());
    let mut copy = source.clone();
    assert!(copy.is_long());
    assert_eq!(copy.capacity(), source.capacity());
    copy.push_str(" and more");
    copy.clear();
    assert_eq!(&source, "text that is long enough to need the heap");
    assert_eq!(copy.len(), 0);
}

#[test]
fn chars_iterates_text() {
    let s = SsoString::from("aあ!");
    let collected: Vec<char> = s.chars().collect();
    assert_eq!(collected, vec!['a', 'あ', '!']);
}

#[test]
fn chars_indices_give_byte_offsets() {
    let s = SsoString::from("aあ!💁b");
    assert_eq!(
        s.chars_indices(),
        vec![(0, 'a'), (1, 'あ'), (4, '!'), (5, '💁'), (9, 'b')]
    );
    let expected: Vec<(usize, char)> = s.as_str().char_indices().collect();
    assert_eq!(s.chars_indices(), expected);
}

#[test]
fn mixed_operations_match_std_string() {
    let mut ours = SsoString::new();
    let mut reference = String::new();
    let mut state: u64 = 0x2545F4914F6CDD1D;
    for _ in 0..400 {
        state = state.wrapping_mul(6364136223846793005).wrapping_add(1442695040888963407);
        match (state >> 33) % 7 {
            0 => {
                ours.push_str("word ");
                reference.push_str("word ");
            }
            1 => {
                ours.push('あ');
                reference.push('あ');
            }
            2 => {
                ours.reserve(((state >> 40) % 64) as usize);
            }
            3 => {
                ours.shrink_to(((state >> 40) % 32) as usize);
            }
            4 => {
                let copy = ours.clone();
                assert_eq!(copy.as_str(), reference.as_str());
                drop(copy);
            }
            5 => {
                ours.push('!');
                reference.push('!');
            }
            _ => {
                if (state >> 40) % 11 == 0 {
                    ours.clear();
                    reference.clear();
                }
            }
        }
        assert_eq!(ours.as_str(), reference.as_str());
        assert_eq!(ours.len(), reference.len());
        assert!(ours.len() <= ours.capacity());
    }
}
