use pacfront::text::{contains_filter, push_decimal, to_lower};

fn decimal(n: usize) -> String {
    let mut out = String::new();
    push_decimal(&mut out, n);
    out
}

#[test]
fn decimal_notation() {
    assert_eq!(decimal(0), "0");
    assert_eq!(decimal(7), "7");
    assert_eq!(decimal(10), "10");
    assert_eq!(decimal(109), "109");
    assert_eq!(decimal(12345), "12345");
    assert_eq!(decimal(usize::MAX), usize::MAX.to_string());
}

#[test]
fn decimal_is_appended() {
    let mut out = String::from("n = ");
    push_decimal(&mut out, 42);
    assert_eq!(out, "n = 42");
}

#[test]
fn lower_case_of_bytes() {
    assert_eq!(to_lower(b'A'), b'a');
    assert_eq!(to_lower(b'Z'), b'z');
    assert_eq!(to_lower(b'a'), b'a');
    assert_eq!(to_lower(b'@'), b'@');
    assert_eq!(to_lower(b'['), b'[');
    assert_eq!(to_lower(0xc9), 0xc9);
    for b in 0..=255u8 {
        assert_eq!(to_lower(b), b.to_ascii_lowercase());
    }
}

#[test]
fn the_filter_is_always_folded() {
    assert!(contains_filter(b"linux-firmware", b"FIRM", false));
    assert!(contains_filter(b"linux-firmware", b"firm", false));
}

#[test]
fn the_text_is_folded_only_on_request() {
    assert!(!contains_filter(b"Linux", b"linux", false));
    assert!(contains_filter(b"Linux", b"linux", true));
    assert!(contains_filter(b"The Linux kernel", b"LINUX K", true));
}

#[test]
fn the_filter_may_stand_anywhere() {
    assert!(contains_filter(b"abc", b"", false));
    assert!(contains_filter(b"", b"", true));
    assert!(contains_filter(b"abc", b"a", false));
    assert!(contains_filter(b"abc", b"c", false));
    assert!(contains_filter(b"abc", b"abc", false));
    assert!(!contains_filter(b"abc", b"abcd", false));
    assert!(!contains_filter(b"", b"a", false));
    assert!(contains_filter(b"aab", b"ab", false));
    assert!(!contains_filter(b"abab", b"abb", false));
}

#[test]
fn search_agrees_with_the_standard_library() {
    let texts = ["", "a", "A", "ab", "aB", "Ba", "abc", "xAbCx", "aab", "abab", "\u{c9}a"];
    for hay in texts {
        for filter in texts {
            let folded = filter.to_ascii_lowercase();
            assert_eq!(
                contains_filter(hay.as_bytes(), filter.as_bytes(), false),
                hay.contains(&folded)
            );
            assert_eq!(
                contains_filter(hay.as_bytes(), filter.as_bytes(), true),
                hay.to_ascii_lowercase().contains(&folded)
            );
        }
    }
}
