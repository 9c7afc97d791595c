use secreto::message::Message;
use secreto::store::encode_messages;
use secreto::store::parse_store;

fn msg(s: &str) -> Message {
    Message { body: s.as_bytes().to_vec() }
}

fn parse_bodies(content: &[u8]) -> Vec<Vec<u8>> {
    parse_store(&content.to_vec()).into_iter().map(|m| m.body).collect()
}

#[test]
fn empty_content_is_empty_history() {
    assert_eq!(parse_bodies(b""), Vec::<Vec<u8>>::new());
}

#[test]
fn encode_writes_body_then_blank_line() {
    let encoded = encode_messages(&vec![msg("A")]);
    assert_eq!(encoded, b"A\n\n".to_vec());
}

#[test]
fn encode_two_records_exact_bytes() {
    let encoded = encode_messages(&vec![msg("one"), msg("two")]);
    assert_eq!(encoded, b"one\n\ntwo\n\n".to_vec());
}

#[test]
fn round_trip_two_records() {
    let encoded = encode_messages(&vec![msg("first message"), msg("second message")]);
    assert_eq!(
        parse_bodies(&encoded),
        vec![b"first message".to_vec(), b"second message".to_vec()]
    );
}

#[test]
fn round_trip_after_append() {
    let mut content = encode_messages(&vec![msg("old")]);
    content.extend_from_slice(&encode_messages(&vec![msg("new one"), msg("new two")]));
    assert_eq!(
        parse_bodies(&content),
        vec![b"old".to_vec(), b"new one".to_vec(), b"new two".to_vec()]
    );
}

#[test]
fn multi_line_record_keeps_interior_newline() {
    assert_eq!(parse_bodies(b"line one\nline two\n\n"), vec![b"line one\nline two".to_vec()]);
}

#[test]
fn trailing_partial_record_is_kept() {
    // End of file acts as an implicit record terminator: a record whose
    // closing blank line was never written is still read back.
    assert_eq!(parse_bodies(b"done\n\npartial"), vec![b"done".to_vec(), b"partial".to_vec()]);
    assert_eq!(parse_bodies(b"partial\nstill"), vec![b"partial\nstill".to_vec()]);
}

#[test]
fn blank_line_runs_act_as_one_separator() {
    assert_eq!(parse_bodies(b"x\n\n\n\n\ny\n\n"), vec![b"x".to_vec(), b"y".to_vec()]);
}

#[test]
fn leading_blank_lines_are_ignored() {
    assert_eq!(parse_bodies(b"\n\n\nx\n\n"), vec![b"x".to_vec()]);
}
