use secreto::delta::diff;
use secreto::message::Message;

fn msg(s: &str) -> Message {
    Message { body: s.as_bytes().to_vec() }
}

fn msgs(ss: &[&str]) -> Vec<Message> {
    ss.iter().map(|s| msg(s)).collect()
}

fn diff_bodies(extracted: &[&str], history: &[&str]) -> Vec<Vec<u8>> {
    diff(&msgs(extracted), &msgs(history)).into_iter().map(|m| m.body).collect()
}

#[test]
fn empty_history_keeps_all_in_order() {
    assert_eq!(
        diff_bodies(&["A", "B", "C"], &[]),
        vec![b"A".to_vec(), b"B".to_vec(), b"C".to_vec()]
    );
}

#[test]
fn known_messages_are_dropped() {
    assert_eq!(diff_bodies(&["X", "X", "Y"], &["X"]), vec![b"Y".to_vec()]);
}

#[test]
fn siblings_are_not_deduplicated() {
    // Extracted messages are checked only against history, never against
    // each other: a message the page repeats is reported once per copy.
    assert_eq!(diff_bodies(&["X", "X"], &[]), vec![b"X".to_vec(), b"X".to_vec()]);
}

#[test]
fn comparison_trims_both_sides() {
    assert_eq!(diff_bodies(&["X"], &["  X  "]), Vec::<Vec<u8>>::new());
    assert_eq!(diff_bodies(&[" X "], &["X"]), Vec::<Vec<u8>>::new());
}

#[test]
fn order_of_new_messages_is_extracted_order() {
    assert_eq!(
        diff_bodies(&["old", "new one", "old", "new two"], &["old"]),
        vec![b"new one".to_vec(), b"new two".to_vec()]
    );
}
