use secreto::message::messages_match;
use secreto::message::trim_bytes;

#[test]
fn trim_removes_ascii_whitespace_at_both_ends() {
    assert_eq!(trim_bytes(&b" \t\r\n x y \n\t ".to_vec()), b"x y".to_vec());
}

#[test]
fn trim_keeps_interior_whitespace() {
    assert_eq!(trim_bytes(&b"a  \n  b".to_vec()), b"a  \n  b".to_vec());
}

#[test]
fn trim_of_all_whitespace_is_empty() {
    assert_eq!(trim_bytes(&b" \n\t\r ".to_vec()), Vec::<u8>::new());
}

#[test]
fn trim_of_empty_is_empty() {
    assert_eq!(trim_bytes(&Vec::new()), Vec::<u8>::new());
}

#[test]
fn match_ignores_edge_whitespace() {
    assert!(messages_match(&b"  hello  ".to_vec(), &b"hello".to_vec()));
    assert!(messages_match(&b"\nhello\n".to_vec(), &b"hello".to_vec()));
}

#[test]
fn match_is_exact_inside() {
    assert!(!messages_match(&b"hello".to_vec(), &b"hell o".to_vec()));
    assert!(!messages_match(&b"hello".to_vec(), &b"Hello".to_vec()));
}
