//! The cycle orchestrator's pure core.
//!
//! One cycle is fetch, extract, load, diff, notify, persist.  Fetching the
//! page, reading the history file, delivering the notification and writing
//! the file are the surrounding driver's concern; [`plan_cycle`] is the
//! whole decision in between: from the fetched HTML text and the bytes of
//! the history file it computes the delta, the single notification payload
//! (none when nothing is new), and the exact bytes to append.  The driver
//! performs the I/O in that order and must append whether or not the
//! notification could be delivered; on a fetch failure it skips the cycle
//! entirely, so nothing is persisted or notified.

use vstd::prelude::*;

use crate::delta::diff;
use crate::delta::lemma_delta_sound;
use crate::delta::lemma_refetch_idempotent;
use crate::delta::spec_delta;
use crate::extract::ExtractError;
use crate::extract::blocks_of;
use crate::extract::extract;
use crate::extract::message_selector_spec;
use crate::extract::selector_ok;
use crate::extract::spec_normalize;
use crate::message::Message;
use crate::message::NL;
use crate::message::wf_body;
use crate::message::bodies;
use crate::store::all_wf;
use crate::store::encode_messages;
use crate::store::lemma_parse_encode;
use crate::store::lemma_store_round_trip;
use crate::store::parse_store;
use crate::store::push_bytes;
use crate::store::spec_encode;
use crate::store::spec_parse;

verus! {

/// The bodies `bs` joined by a blank line, the payload of one notification.
pub open spec fn spec_join_blank(bs: Seq<Seq<u8>>) -> Seq<u8>
    decreases bs.len(),
{
    if bs.len() == 0 {
        Seq::empty()
    } else {
        bs[0] + spec_join_tail(bs.skip(1))
    }
}

/// The tail of a blank-line join: a blank line before each further body.
pub open spec fn spec_join_tail(bs: Seq<Seq<u8>>) -> Seq<u8>
    decreases bs.len(),
{
    if bs.len() == 0 {
        Seq::empty()
    } else {
        seq![NL, NL] + bs[0] + spec_join_tail(bs.skip(1))
    }
}

/// Joins the bodies of `ms` with one blank line between each pair.
pub fn join_blank(ms: &Vec<Message>) -> (r: Vec<u8>)
    ensures
        r@ == spec_join_blank(bodies(ms@)),
{
    let ghost bs = bodies(ms@);
    let n = ms.len();
    let mut r: Vec<u8> = Vec::new();
    if n == 0 {
        assert(r@ =~= spec_join_blank(bs));
        return r;
    }
    push_bytes(&mut r, &ms[0].body);
    assert(bs.skip(0).skip(1) =~= bs.skip(1));
    assert(bs.skip(0) =~= bs);
    let mut k: usize = 1;
    while k < n
        invariant
            n == ms@.len(),
            bs == bodies(ms@),
            1 <= k <= n,
            spec_join_blank(bs) == r@ + spec_join_tail(bs.skip(k as int)),
        decreases n - k,
    {
        let ghost rest = bs.skip(k as int);
        let ghost r_old = r@;
        assert(rest[0] == bs[k as int]);
        assert(rest.skip(1) =~= bs.skip(k + 1));
        r.push(NL);
        r.push(NL);
        push_bytes(&mut r, &ms[k].body);
        proof {
            assert(r@ =~= r_old + (seq![NL, NL] + bs[k as int]));
            assert(r_old + ((seq![NL, NL] + bs[k as int]) + spec_join_tail(bs.skip(k + 1)))
                =~= r@ + spec_join_tail(bs.skip(k + 1)));
            assert(seq![NL, NL] + rest[0] + spec_join_tail(rest.skip(1)) =~= (seq![NL, NL]
                + rest[0]) + spec_join_tail(rest.skip(1)));
        }
        k = k + 1;
    }
    assert(bs.skip(n as int) =~= Seq::<Seq<u8>>::empty());
    assert(r@ + Seq::<u8>::empty() =~= r@);
    r
}

/// The messages of `ms` in reverse order.
pub fn reverse_messages(ms: &Vec<Message>) -> (r: Vec<Message>)
    ensures
        bodies(r@) == bodies(ms@).reverse(),
{
    let n = ms.len();
    let mut r: Vec<Message> = Vec::new();
    let mut k: usize = 0;
    while k < n
        invariant
            n == ms@.len(),
            0 <= k <= n,
            r@.len() == k,
            forall|j: int| 0 <= j < k ==> #[trigger] r@[j].body@ == ms@[n - 1 - j].body@,
        decreases n - k,
    {
        let m = ms[n - 1 - k].duplicate();
        r.push(m);
        k = k + 1;
    }
    assert(bodies(r@) =~= bodies(ms@).reverse());
    r
}

/// What one cycle decided: the delta itself, the notification to deliver
/// if any, and the bytes to append to the history file.
pub struct CyclePlan {
    /// The messages found new this cycle, in extracted order.
    pub delta: Vec<Message>,
    /// The one notification payload — the new bodies joined by a blank
    /// line — or `None` when the delta is empty and no notification may
    /// be sent.
    pub notification: Option<Vec<u8>>,
    /// The bytes to append to the history file: the delta encoded in
    /// reverse order, most recently found first.
    pub append: Vec<u8>,
}

/// One cycle's pure core: from the fetched HTML text and the current bytes
/// of the history file (empty for a missing file), decide what is new,
/// what to notify, and what to persist.
pub fn plan_cycle(html: &str, store_content: &Vec<u8>) -> (r: Result<
    CyclePlan,
    ExtractError,
>)
    ensures
        r is Ok <==> selector_ok(message_selector_spec()),
        r matches Ok(p) ==> {
            let ex = spec_normalize(blocks_of(html@, message_selector_spec()));
            let d = spec_delta(ex, spec_parse(store_content@));
            &&& bodies(p.delta@) == d
            &&& (p.notification is Some <==> d.len() > 0)
            &&& (p.notification matches Some(pay) ==> pay@ == spec_join_blank(d))
            &&& p.append@ == spec_encode(d.reverse())
        },
{
    let extracted = match extract(html) {
        Ok(ms) => ms,
        Err(e) => {
            return Err(e);
        },
    };
    let history = parse_store(store_content);
    let delta = diff(&extracted, &history);
    let notification = if delta.len() > 0 {
        Some(join_blank(&delta))
    } else {
        None
    };
    let reversed = reverse_messages(&delta);
    let append = encode_messages(&reversed);
    Ok(CyclePlan { delta, notification, append })
}

/// Idempotence of a re-fetch, stated over the whole persisted cycle: when
/// the history file holds encoded records `hs` and a cycle over extracted
/// bodies `ex` appends its delta (reversed, as the store does), a second
/// cycle over the same `ex` and the grown file finds nothing new.  Both
/// the old records and the extracted bodies must be blank-line free, since
/// a body holding a blank line cannot survive the file framing.
pub proof fn lemma_cycle_idempotent(ex: Seq<Seq<u8>>, hs: Seq<Seq<u8>>)
    requires
        all_wf(ex),
        all_wf(hs),
    ensures
        spec_delta(
            ex,
            spec_parse(
                spec_encode(hs) + spec_encode(
                    spec_delta(ex, spec_parse(spec_encode(hs))).reverse(),
                ),
            ),
        ) == Seq::<Seq<u8>>::empty(),
{
    lemma_parse_encode(hs);
    let d = spec_delta(ex, hs);
    lemma_delta_sound(ex, hs);
    assert forall|i: int| 0 <= i < d.reverse().len() implies wf_body(
        #[trigger] d.reverse()[i],
    ) by {
        assert(d.reverse()[i] == d[d.len() - 1 - i]);
        assert(ex.contains(d[d.len() - 1 - i]));
        let k = choose|k: int| 0 <= k < ex.len() && ex[k] == d[d.len() - 1 - i];
        assert(wf_body(ex[k]));
    }
    lemma_store_round_trip(hs, d.reverse());
    lemma_refetch_idempotent(ex, hs);
}

} // verus!
