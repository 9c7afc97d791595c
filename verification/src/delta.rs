//! The delta engine: which freshly extracted messages are new.
//!
//! An extracted message is new iff no message in history has an equal body
//! after trimming.  Extracted messages are checked only against history,
//! never against each other, so a message the page repeats twice is
//! reported twice if it is new; the delta keeps the extracted order.

use vstd::prelude::*;

use crate::message::Message;
use crate::message::bodies;
use crate::message::messages_match;
use crate::message::same_message;

verus! {

/// Whether some recorded body equals `b` after trimming.
pub open spec fn in_history(b: Seq<u8>, h: Seq<Seq<u8>>) -> bool {
    exists|j: int| 0 <= j < h.len() && same_message(#[trigger] h[j], b)
}

/// The bodies of `ex`, in order, that no body of `h` matches.
pub open spec fn spec_delta(ex: Seq<Seq<u8>>, h: Seq<Seq<u8>>) -> Seq<Seq<u8>>
    decreases ex.len(),
{
    if ex.len() == 0 {
        Seq::empty()
    } else if in_history(ex[0], h) {
        spec_delta(ex.skip(1), h)
    } else {
        seq![ex[0]] + spec_delta(ex.skip(1), h)
    }
}

/// For each extracted message, in order, keeps it iff no history message
/// has an equal trimmed body; a full linear scan of history per message.
pub fn diff(extracted: &Vec<Message>, history: &Vec<Message>) -> (r: Vec<Message>)
    ensures
        bodies(r@) == spec_delta(bodies(extracted@), bodies(history@)),
{
    let ghost ex = bodies(extracted@);
    let ghost h = bodies(history@);
    let n = extracted.len();
    let hn = history.len();
    let mut r: Vec<Message> = Vec::new();
    let mut i: usize = 0;
    assert(ex.skip(0) =~= ex);
    assert(bodies(r@) + spec_delta(ex, h) =~= spec_delta(ex, h));
    while i < n
        invariant
            n == extracted@.len(),
            hn == history@.len(),
            ex == bodies(extracted@),
            h == bodies(history@),
            0 <= i <= n,
            spec_delta(ex, h) == bodies(r@) + spec_delta(ex.skip(i as int), h),
        decreases n - i,
    {
        let ghost rest = ex.skip(i as int);
        let ghost r_old = r@;
        assert(rest[0] == ex[i as int]);
        assert(rest.skip(1) =~= ex.skip(i + 1));
        let mut found = false;
        let mut j: usize = 0;
        while j < hn
            invariant
                hn == history@.len(),
                h == bodies(history@),
                n == extracted@.len(),
                ex == bodies(extracted@),
                0 <= i < n,
                0 <= j <= hn,
                found ==> in_history(ex[i as int], h),
                !found ==> forall|k: int| 0 <= k < j ==> !same_message(
                    #[trigger] h[k],
                    ex[i as int],
                ),
            decreases hn - j,
        {
            if messages_match(&history[j].body, &extracted[i].body) {
                assert(same_message(h[j as int], ex[i as int]));
                found = true;
            }
            j = j + 1;
        }
        if !found {
            assert(!in_history(ex[i as int], h));
            let m = extracted[i].duplicate();
            r.push(m);
            proof {
                assert(bodies(r@) =~= bodies(r_old).push(ex[i as int]));
                assert(bodies(r_old) + (seq![ex[i as int]] + spec_delta(ex.skip(i + 1), h))
                    =~= bodies(r@) + spec_delta(ex.skip(i + 1), h));
            }
        }
        i = i + 1;
    }
    assert(ex.skip(n as int) =~= Seq::<Seq<u8>>::empty());
    assert(bodies(r@) + Seq::<Seq<u8>>::empty() =~= bodies(r@));
    r
}

/// A body matches concatenated histories iff it matches one of the parts.
pub proof fn lemma_in_history_concat(b: Seq<u8>, h1: Seq<Seq<u8>>, h2: Seq<Seq<u8>>)
    ensures
        in_history(b, h1 + h2) <==> (in_history(b, h1) || in_history(b, h2)),
{
    if in_history(b, h1) {
        let j = choose|j: int| 0 <= j < h1.len() && same_message(#[trigger] h1[j], b);
        assert((h1 + h2)[j] == h1[j]);
    }
    if in_history(b, h2) {
        let j = choose|j: int| 0 <= j < h2.len() && same_message(#[trigger] h2[j], b);
        assert((h1 + h2)[h1.len() + j] == h2[j]);
    }
    if in_history(b, h1 + h2) {
        let j = choose|j: int|
            0 <= j < (h1 + h2).len() && same_message(#[trigger] (h1 + h2)[j], b);
        if j < h1.len() {
            assert((h1 + h2)[j] == h1[j]);
        } else {
            assert((h1 + h2)[j] == h2[j - h1.len()]);
        }
    }
}

/// Order preservation against an empty history: every extracted message is
/// new, and the delta is the extracted sequence itself, in the same order.
pub proof fn lemma_delta_empty_history(ex: Seq<Seq<u8>>)
    ensures
        spec_delta(ex, Seq::<Seq<u8>>::empty()) == ex,
    decreases ex.len(),
{
    if ex.len() == 0 {
        assert(spec_delta(ex, Seq::<Seq<u8>>::empty()) =~= ex);
    } else {
        assert(!in_history(ex[0], Seq::<Seq<u8>>::empty()));
        lemma_delta_empty_history(ex.skip(1));
        assert(seq![ex[0]] + ex.skip(1) =~= ex);
    }
}

/// Soundness: everything in the delta is one of the extracted bodies.
pub proof fn lemma_delta_sound(ex: Seq<Seq<u8>>, h: Seq<Seq<u8>>)
    ensures
        forall|i: int| 0 <= i < spec_delta(ex, h).len() ==> ex.contains(
            #[trigger] spec_delta(ex, h)[i],
        ),
    decreases ex.len(),
{
    if ex.len() == 0 {
    } else {
        lemma_delta_sound(ex.skip(1), h);
        let d = spec_delta(ex, h);
        let d2 = spec_delta(ex.skip(1), h);
        assert forall|i: int| 0 <= i < d.len() implies ex.contains(#[trigger] d[i]) by {
            if in_history(ex[0], h) {
                assert(d2.contains(d[i]));
                let k = choose|k: int| 0 <= k < ex.skip(1).len() && ex.skip(1)[k] == d[i];
                assert(ex[k + 1] == d[i]);
            } else if i == 0 {
                assert(d[0] == ex[0]);
            } else {
                assert(d[i] == d2[i - 1]);
                assert(d2.contains(d2[i - 1]));
                let k = choose|k: int| 0 <= k < ex.skip(1).len() && ex.skip(1)[k] == d[i];
                assert(ex[k + 1] == d[i]);
            }
        }
    }
}

/// Completeness: every extracted body that history does not match appears
/// in the delta.
pub proof fn lemma_delta_complete(ex: Seq<Seq<u8>>, h: Seq<Seq<u8>>)
    ensures
        forall|i: int| 0 <= i < ex.len() && !in_history(#[trigger] ex[i], h) ==> spec_delta(
            ex,
            h,
        ).contains(ex[i]),
    decreases ex.len(),
{
    if ex.len() == 0 {
    } else {
        lemma_delta_complete(ex.skip(1), h);
        let d = spec_delta(ex, h);
        let d2 = spec_delta(ex.skip(1), h);
        assert forall|i: int| 0 <= i < ex.len() && !in_history(#[trigger] ex[i], h) implies d
            .contains(ex[i]) by {
            if i == 0 {
                assert(d[0] == ex[0]);
            } else {
                assert(ex.skip(1)[i - 1] == ex[i]);
                assert(d2.contains(ex[i]));
                let k = choose|k: int| 0 <= k < d2.len() && d2[k] == ex[i];
                if in_history(ex[0], h) {
                    assert(d[k] == ex[i]);
                } else {
                    assert(d[k + 1] == d2[k]);
                }
            }
        }
    }
}

/// When history already matches every extracted body, nothing is new.
pub proof fn lemma_delta_all_known(ex: Seq<Seq<u8>>, h: Seq<Seq<u8>>)
    requires
        forall|i: int| 0 <= i < ex.len() ==> in_history(#[trigger] ex[i], h),
    ensures
        spec_delta(ex, h) == Seq::<Seq<u8>>::empty(),
    decreases ex.len(),
{
    if ex.len() == 0 {
        assert(spec_delta(ex, h) =~= Seq::<Seq<u8>>::empty());
    } else {
        assert(in_history(ex[0], h));
        assert forall|i: int| 0 <= i < ex.skip(1).len() implies in_history(
            #[trigger] ex.skip(1)[i],
            h,
        ) by {
            assert(ex.skip(1)[i] == ex[i + 1]);
        }
        lemma_delta_all_known(ex.skip(1), h);
    }
}

/// Idempotence of a re-fetch: once this cycle's delta has been recorded
/// after the old history (in any order; the store appends it reversed),
/// extracting the same bodies again finds nothing new.
pub proof fn lemma_refetch_idempotent(ex: Seq<Seq<u8>>, h: Seq<Seq<u8>>)
    ensures
        spec_delta(ex, h + spec_delta(ex, h).reverse()) == Seq::<Seq<u8>>::empty(),
{
    let d = spec_delta(ex, h);
    let h2 = h + d.reverse();
    lemma_delta_complete(ex, h);
    assert forall|i: int| 0 <= i < ex.len() implies in_history(#[trigger] ex[i], h2) by {
        if in_history(ex[i], h) {
            lemma_in_history_concat(ex[i], h, d.reverse());
        } else {
            assert(d.contains(ex[i]));
            let k = choose|k: int| 0 <= k < d.len() && d[k] == ex[i];
            assert(d.reverse()[d.len() - 1 - k] == d[k]);
            assert(same_message(d.reverse()[d.len() - 1 - k], ex[i]));
            assert(in_history(ex[i], d.reverse()));
            lemma_in_history_concat(ex[i], h, d.reverse());
        }
    }
    lemma_delta_all_known(ex, h2);
}

} // verus!
