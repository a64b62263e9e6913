use sorcerer::text::{bytes_le, contains_bytes, str_contains, str_le};

#[test]
fn byte_order_puts_a_prefix_first() {
    assert!(str_le("", ""));
    assert!(str_le("", "a"));
    assert!(!str_le("a", ""));
    assert!(str_le("doc", "doc-1"));
    assert!(!str_le("doc-1", "doc"));
}

#[test]
fn byte_order_goes_by_the_first_difference() {
    assert!(str_le("a", "b"));
    assert!(!str_le("b", "a"));
    assert!(str_le("abc", "abd"));
    assert!(str_le("abc", "abc"));
    assert!(str_le("Z", "a"));
    assert!(bytes_le(&[1, 2, 3], &[1, 3]));
    assert!(!bytes_le(&[1, 3], &[1, 2, 3]));
}

#[test]
fn byte_order_agrees_with_the_standard_order() {
    let words = ["", "a", "ab", "b", "ba", "é", "z", "~", "A", "doc-10", "doc-2"];
    for a in words {
        for b in words {
            assert_eq!(str_le(a, b), a <= b);
        }
    }
}

#[test]
fn occurrence_of_a_run() {
    assert!(str_contains("Rust ownership model", "ownership"));
    assert!(str_contains("Rust ownership model", "Rust"));
    assert!(str_contains("Rust ownership model", "model"));
    assert!(str_contains("Rust ownership model", ""));
    assert!(str_contains("", ""));
    assert!(!str_contains("", "x"));
    assert!(!str_contains("Rust ownership model", "borrow"));
    assert!(!str_contains("own", "ownership"));
    assert!(!str_contains("Rust ownership model", "Ownership"));
    assert!(contains_bytes(&[1, 2, 1, 2, 3], &[1, 2, 3]));
    assert!(!contains_bytes(&[1, 2, 1, 2], &[1, 2, 3]));
}
