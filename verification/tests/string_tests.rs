use mold_console::string::String;

#[test]
fn new_string_is_empty() {
    let s = String::new();
    assert!(s.is_empty());
    assert_eq!(s.len(), 0);
    assert_eq!(s.as_str(), "");
}

#[test]
fn push_and_read_back() {
    let mut s = String::new();
    s.push('h');
    s.push('i');
    assert_eq!(s.as_str(), "hi");
    assert_eq!(s.len(), 2);
    assert!(!s.is_empty());
}

#[test]
fn from_str_round_trips() {
    let s = String::from_str("hello world");
    assert_eq!(s.as_str(), "hello world");
    assert_eq!(s.len(), 11);
}

#[test]
fn push_str_appends() {
    let mut s = String::from_str("abc");
    s.push_str("def");
    assert_eq!(s.as_str(), "abcdef");
}

#[test]
fn pop_returns_last_character() {
    let mut s = String::from_str("abc");
    assert_eq!(s.pop(), Some('c'));
    assert_eq!(s.as_str(), "ab");
    assert_eq!(s.pop(), Some('b'));
    assert_eq!(s.pop(), Some('a'));
    assert_eq!(s.pop(), None);
    assert!(s.is_empty());
}

#[test]
fn pop_removes_whole_multibyte_character() {
    let mut s = String::new();
    s.push('a');
    s.push('\u{e9}');
    assert_eq!(s.len(), 3);
    assert_eq!(s.pop(), Some('\u{e9}'));
    assert_eq!(s.len(), 1);
    assert_eq!(s.as_str(), "a");
}

#[test]
fn pop_handles_three_and_four_byte_characters() {
    let mut s = String::new();
    s.push('\u{20ac}');
    s.push('\u{1d11e}');
    assert_eq!(s.len(), 3 + 4);
    assert_eq!(s.pop(), Some('\u{1d11e}'));
    assert_eq!(s.pop(), Some('\u{20ac}'));
    assert_eq!(s.pop(), None);
}

#[test]
fn push_past_capacity_is_dropped() {
    let mut s = String::new();
    let mut i = 0;
    while i < 256 {
        s.push('x');
        i += 1;
    }
    assert_eq!(s.len(), 256);
    s.push('y');
    assert_eq!(s.len(), 256);
    assert_eq!(s.pop(), Some('x'));
}

#[test]
fn push_multibyte_at_capacity_boundary_is_dropped() {
    let mut s = String::new();
    let mut i = 0;
    while i < 255 {
        s.push('x');
        i += 1;
    }
    // a two-byte character no longer fits, a one-byte one still does
    s.push('\u{e9}');
    assert_eq!(s.len(), 255);
    s.push('y');
    assert_eq!(s.len(), 256);
}

#[test]
fn length_tracks_pushes_and_pops() {
    let mut s = String::new();
    s.push('a');
    s.push('b');
    s.push('c');
    s.pop();
    s.push('d');
    s.pop();
    s.pop();
    // four pushes, three effective pops
    assert_eq!(s.len(), 4 - 3);
    assert_eq!(s.as_str(), "a");
    // a pop on an empty string is a no-op
    s.pop();
    s.pop();
    assert_eq!(s.pop(), None);
    assert_eq!(s.len(), 0);
}

#[test]
fn as_str_is_always_valid_text() {
    let mut s = String::from_str("caf\u{e9}");
    assert_eq!(s.as_str().chars().count(), 4);
    s.pop();
    assert_eq!(s.as_str(), "caf");
    s.push('\u{1d11e}');
    assert_eq!(s.as_str(), "caf\u{1d11e}");
}

#[test]
fn clear_empties_the_string() {
    let mut s = String::from_str("abc");
    s.clear();
    assert!(s.is_empty());
    assert_eq!(s.as_str(), "");
}

#[test]
fn equality_compares_content() {
    let a = String::from_str("abc");
    let b = String::from_str("abc");
    let c = String::from_str("abd");
    assert!(a == b);
    assert!(a != c);
}

#[test]
fn clone_copies_content() {
    let a = String::from_str("xyz");
    let b = a.clone();
    assert_eq!(b.as_str(), "xyz");
    assert!(a == b);
}

#[test]
fn default_is_empty() {
    let s: String = Default::default();
    assert!(s.is_empty());
}

#[test]
fn from_str_truncates_past_capacity() {
    let long: std::string::String = core::iter::repeat('z').take(300).collect();
    let s = String::from_str(&long);
    assert_eq!(s.len(), 256);
}
