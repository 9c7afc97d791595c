use secreto::cycle::CyclePlan;
use secreto::cycle::plan_cycle;

fn plan(html: &str, store: &[u8]) -> CyclePlan {
    plan_cycle(html, &store.to_vec()).unwrap()
}

fn delta_bodies(p: &CyclePlan) -> Vec<Vec<u8>> {
    p.delta.iter().map(|m| m.body.clone()).collect()
}

#[test]
fn first_cycle_on_empty_history_reports_everything() {
    let html = "<div class=\"msg_block\">A</div><div class=\"msg_block\">B</div>";
    let p = plan(html, b"");
    assert_eq!(delta_bodies(&p), vec![b"A".to_vec(), b"B".to_vec()]);
    assert_eq!(p.notification, Some(b"A\n\nB".to_vec()));
    assert_eq!(p.append, b"B\n\nA\n\n".to_vec());
}

#[test]
fn refetch_of_identical_content_is_silent() {
    // Idempotence: after the first cycle's append, a second cycle over the
    // same fetched content finds nothing new.
    let html = "<div class=\"msg_block\">A</div><div class=\"msg_block\">B</div>";
    let first = plan(html, b"");
    assert!(!first.delta.is_empty());
    let second = plan(html, &first.append);
    assert!(second.delta.is_empty());
    assert_eq!(second.notification, None);
    assert_eq!(second.append, Vec::<u8>::new());
}

#[test]
fn append_is_reverse_of_discovery_order() {
    let html = "<div class=\"msg_block\">A</div>\
        <div class=\"msg_block\">B</div>\
        <div class=\"msg_block\">C</div>";
    let p = plan(html, b"");
    assert_eq!(delta_bodies(&p), vec![b"A".to_vec(), b"B".to_vec(), b"C".to_vec()]);
    assert_eq!(p.append, b"C\n\nB\n\nA\n\n".to_vec());
}

#[test]
fn no_notification_when_everything_is_known() {
    let html = "<div class=\"msg_block\">seen</div>";
    let p = plan(html, b"seen\n\n");
    assert!(p.delta.is_empty());
    assert_eq!(p.notification, None);
    assert_eq!(p.append, Vec::<u8>::new());
}

#[test]
fn known_and_new_messages_mix() {
    let html = "<div class=\"msg_block\">seen</div><div class=\"msg_block\">fresh</div>";
    let p = plan(html, b"seen\n\n");
    assert_eq!(delta_bodies(&p), vec![b"fresh".to_vec()]);
    assert_eq!(p.notification, Some(b"fresh".to_vec()));
    assert_eq!(p.append, b"fresh\n\n".to_vec());
}

#[test]
fn history_comparison_trims_stored_records() {
    // A record read back from disk may carry padding; comparison trims it.
    let html = "<div class=\"msg_block\">seen</div>";
    let p = plan(html, b"  seen  \n\n");
    assert!(p.delta.is_empty());
    assert_eq!(p.notification, None);
}

#[test]
fn growing_history_across_three_cycles() {
    let page_one = "<div class=\"msg_block\">one</div>";
    let page_two = "<div class=\"msg_block\">one</div><div class=\"msg_block\">two</div>";
    let mut content: Vec<u8> = Vec::new();

    let p1 = plan(page_one, &content);
    assert_eq!(delta_bodies(&p1), vec![b"one".to_vec()]);
    content.extend_from_slice(&p1.append);

    let p2 = plan(page_two, &content);
    assert_eq!(delta_bodies(&p2), vec![b"two".to_vec()]);
    content.extend_from_slice(&p2.append);

    let p3 = plan(page_two, &content);
    assert!(p3.delta.is_empty());
    assert_eq!(p3.notification, None);
}
