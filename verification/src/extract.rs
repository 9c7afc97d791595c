//! The extractor: from raw HTML text to an ordered sequence of messages.
//!
//! The underlying HTML parser is tolerant by design: any text, however
//! malformed, yields a document tree, so garbage input is never an error —
//! it simply contains no message blocks.  Each element matching the fixed
//! message-block selector becomes one message: its descendant text nodes
//! joined by a single space, trimmed of leading and trailing ASCII
//! whitespace; elements whose text trims to nothing yield no message.

use vstd::prelude::*;

use crate::message::Message;
use crate::message::bodies;
use crate::message::spec_trim;
use crate::message::trim_bytes;

verus! {

/// Whether scraper's CSS engine accepts `sel` as a selector group.
pub uninterp spec fn selector_ok(sel: Seq<char>) -> bool;

/// The raw text blocks of the elements of `html` matching `sel`, in
/// document order: for each matched element, its descendant text nodes
/// joined by a single space, as UTF-8 bytes.
pub uninterp spec fn blocks_of(html: Seq<char>, sel: Seq<char>) -> Seq<Seq<u8>>;

/// The structural criterion for a message block in the watched page.
pub open spec fn message_selector_spec() -> Seq<char> {
    "div.msg_block"@
}

/// Relies on scraper `0.27`: `Selector::parse` decides whether the CSS
/// engine accepts the selector; `Html::parse_document` builds a tree from
/// any input without failing; `Html::select` yields the matching elements
/// in document order; `ElementRef::text` yields each element's descendant
/// text nodes in order.  Each matched element is converted to one plain
/// byte block (its text joined by a single space); both results are
/// functions of the two arguments alone.
#[verifier::external_body]
fn select_blocks(html: &str, selector: &str) -> (r: Option<Vec<Vec<u8>>>)
    ensures
        r is Some <==> selector_ok(selector@),
        r matches Some(v) ==> v@.map_values(|b: Vec<u8>| b@) == blocks_of(html@, selector@),
{
    let sel = match scraper::Selector::parse(selector) {
        Ok(sel) => sel,
        Err(_) => return None,
    };
    let document = scraper::Html::parse_document(html);
    Some(
        document
            .select(&sel)
            .map(|element| element.text().collect::<Vec<_>>().join(" ").into_bytes())
            .collect(),
    )
}

/// The extractor's failure: the document pipeline could not be set up.
/// With a tolerant parser this arises only if the CSS engine rejects the
/// message-block selector, never from the fetched text itself.
#[derive(Debug, PartialEq, Eq, Structural)]
pub enum ExtractError {
    ParseFailure,
}

/// The normal form of a sequence of raw text blocks: each block trimmed of
/// leading and trailing ASCII whitespace, blocks that trim to nothing
/// dropped, order kept.
pub open spec fn spec_normalize(bs: Seq<Seq<u8>>) -> Seq<Seq<u8>>
    decreases bs.len(),
{
    if bs.len() == 0 {
        Seq::empty()
    } else if spec_trim(bs[0]).len() == 0 {
        spec_normalize(bs.skip(1))
    } else {
        seq![spec_trim(bs[0])] + spec_normalize(bs.skip(1))
    }
}

/// Turns raw text blocks into messages: trims each block and drops the
/// blocks that trim to nothing.
pub fn normalize_blocks(blocks: &Vec<Vec<u8>>) -> (r: Vec<Message>)
    ensures
        bodies(r@) == spec_normalize(blocks@.map_values(|b: Vec<u8>| b@)),
{
    let ghost bs = blocks@.map_values(|b: Vec<u8>| b@);
    let n = blocks.len();
    let mut r: Vec<Message> = Vec::new();
    let mut i: usize = 0;
    assert(bs.skip(0) =~= bs);
    assert(bodies(r@) + spec_normalize(bs) =~= spec_normalize(bs));
    while i < n
        invariant
            n == blocks@.len(),
            bs == blocks@.map_values(|b: Vec<u8>| b@),
            0 <= i <= n,
            spec_normalize(bs) == bodies(r@) + spec_normalize(bs.skip(i as int)),
        decreases n - i,
    {
        let ghost rest = bs.skip(i as int);
        let ghost r_old = r@;
        assert(rest[0] == bs[i as int]);
        assert(rest.skip(1) =~= bs.skip(i + 1));
        let trimmed = trim_bytes(&blocks[i]);
        if trimmed.len() > 0 {
            let m = Message { body: trimmed };
            r.push(m);
            proof {
                assert(bodies(r@) =~= bodies(r_old).push(spec_trim(bs[i as int])));
                assert(bodies(r_old) + (seq![spec_trim(bs[i as int])] + spec_normalize(
                    bs.skip(i + 1),
                )) =~= bodies(r@) + spec_normalize(bs.skip(i + 1)));
            }
        }
        i = i + 1;
    }
    assert(bs.skip(n as int) =~= Seq::<Seq<u8>>::empty());
    assert(bodies(r@) + Seq::<Seq<u8>>::empty() =~= bodies(r@));
    r
}

/// Extracts the ordered message blocks of an HTML document, using a
/// caller-supplied structural criterion.
///
/// Any text parses: garbage input yields `Ok` with whatever blocks match
/// (usually none).  `ParseFailure` is returned iff the CSS engine rejects
/// `selector`, in which case no extraction can run at all.
pub fn extract_with(html: &str, selector: &str) -> (r: Result<Vec<Message>, ExtractError>)
    ensures
        r is Ok <==> selector_ok(selector@),
        r matches Ok(ms) ==> bodies(ms@) == spec_normalize(blocks_of(html@, selector@)),
{
    match select_blocks(html, selector) {
        Some(blocks) => Ok(normalize_blocks(&blocks)),
        None => Err(ExtractError::ParseFailure),
    }
}

/// Extracts the ordered message blocks of an HTML document with the fixed
/// message-block criterion of the watched page.
pub fn extract(html: &str) -> (r: Result<Vec<Message>, ExtractError>)
    ensures
        r is Ok <==> selector_ok(message_selector_spec()),
        r matches Ok(ms) ==> bodies(ms@) == spec_normalize(
            blocks_of(html@, message_selector_spec()),
        ),
{
    extract_with(html, "div.msg_block")
}

} // verus!
