use secreto::extract::ExtractError;
use secreto::extract::extract;
use secreto::extract::extract_with;

fn extract_bodies(html: &str) -> Vec<Vec<u8>> {
    extract(html).unwrap().into_iter().map(|m| m.body).collect()
}

#[test]
fn extracts_blocks_in_document_order() {
    let html = "<html><body>\
        <div class=\"msg_block\">first</div>\
        <p>noise</p>\
        <div class=\"msg_block\">second</div>\
        </body></html>";
    assert_eq!(extract_bodies(html), vec![b"first".to_vec(), b"second".to_vec()]);
}

#[test]
fn joins_descendant_text_with_a_space() {
    let html = "<div class=\"msg_block\"><span>A</span><span>B</span></div>";
    assert_eq!(extract_bodies(html), vec![b"A B".to_vec()]);
}

#[test]
fn trims_extracted_text() {
    let html = "<div class=\"msg_block\">  padded  </div>";
    assert_eq!(extract_bodies(html), vec![b"padded".to_vec()]);
}

#[test]
fn blocks_that_trim_to_nothing_yield_no_message() {
    let html = "<div class=\"msg_block\">   </div><div class=\"msg_block\">kept</div>";
    assert_eq!(extract_bodies(html), vec![b"kept".to_vec()]);
}

#[test]
fn other_elements_are_ignored() {
    let html = "<div class=\"other\">no</div><span class=\"msg_block\">no</span>";
    assert_eq!(extract_bodies(html), Vec::<Vec<u8>>::new());
}

#[test]
fn garbage_text_is_not_an_error() {
    // The HTML parser is tolerant: non-HTML input parses to a document
    // with no message blocks rather than failing.
    let garbage = "\u{1}\u{2} not << html >>> at ]] all &&& \n\n %%%";
    let extracted = extract(garbage).unwrap();
    assert!(extracted.is_empty());
}

#[test]
fn empty_document_has_no_messages() {
    assert_eq!(extract_bodies(""), Vec::<Vec<u8>>::new());
}

#[test]
fn rejected_selector_is_a_parse_failure() {
    let r = extract_with("<div>x</div>", "[[[");
    assert_eq!(r.unwrap_err(), ExtractError::ParseFailure);
}
