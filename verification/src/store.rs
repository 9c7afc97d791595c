//! The flat-file message store format.
//!
//! The history file is UTF-8 text in which records are separated by a blank
//! line: each record is one or more non-blank lines, and a record's body is
//! those lines joined by a single line feed.  Appending writes a message
//! body followed by two line feeds.  Decoding tolerates runs of blank lines
//! (they act as a single separator) and treats end-of-file as an implicit
//! record terminator, so a trailing record whose closing blank line was
//! never written is still read back rather than dropped.
//!
//! File I/O itself (reading the file's bytes, appending bytes to it) is the
//! caller's concern; this module only maps between bytes and messages.

use vstd::prelude::*;

use crate::message::Message;
use crate::message::NL;
use crate::message::bodies;
use crate::message::wf_body;

verus! {

/// The records of `c`, read with `cur` as the partial record accumulated so
/// far.  A line feed followed by another line feed (a blank line) closes the
/// current record; a single interior line feed stays inside the body; line
/// feeds seen while no record is open are separator padding; end of input
/// closes any open record.
pub open spec fn parse_rec(c: Seq<u8>, cur: Seq<u8>) -> Seq<Seq<u8>>
    decreases c.len(),
{
    if c.len() == 0 {
        if cur.len() == 0 {
            Seq::empty()
        } else {
            seq![cur]
        }
    } else if c[0] != NL {
        parse_rec(c.skip(1), cur.push(c[0]))
    } else if cur.len() == 0 {
        parse_rec(c.skip(1), cur)
    } else if c.len() == 1 {
        seq![cur]
    } else if c[1] == NL {
        seq![cur] + parse_rec(c.skip(2), Seq::empty())
    } else {
        parse_rec(c.skip(1), cur.push(NL))
    }
}

/// The record bodies stored in file content `c`.
pub open spec fn spec_parse(c: Seq<u8>) -> Seq<Seq<u8>> {
    parse_rec(c, Seq::empty())
}

/// The bytes that persist the bodies `bs`, in order: each body followed by
/// a blank-line terminator.
pub open spec fn spec_encode(bs: Seq<Seq<u8>>) -> Seq<u8>
    decreases bs.len(),
{
    if bs.len() == 0 {
        Seq::empty()
    } else {
        bs[0] + seq![NL, NL] + spec_encode(bs.skip(1))
    }
}

/// Every body in `bs` survives the blank-line framing.
pub open spec fn all_wf(bs: Seq<Seq<u8>>) -> bool {
    forall|i: int| 0 <= i < bs.len() ==> wf_body(#[trigger] bs[i])
}

/// Reads the records out of the raw bytes of a history file.  A missing
/// file is represented by empty content and yields an empty history.
pub fn parse_store(content: &Vec<u8>) -> (r: Vec<Message>)
    ensures
        bodies(r@) == spec_parse(content@),
{
    let n = content.len();
    let mut out: Vec<Message> = Vec::new();
    let mut cur: Vec<u8> = Vec::new();
    let mut i: usize = 0;
    assert(content@.skip(0) =~= content@);
    assert(bodies(out@) + spec_parse(content@) =~= spec_parse(content@));
    while i < n
        invariant
            n == content@.len(),
            0 <= i <= n,
            spec_parse(content@) == bodies(out@) + parse_rec(
                content@.skip(i as int),
                cur@,
            ),
        decreases n - i,
    {
        let ghost rest = content@.skip(i as int);
        let ghost out_old = out@;
        let ghost cur_old = cur@;
        assert(rest[0] == content@[i as int]);
        assert(rest.skip(1) =~= content@.skip(i + 1));
        let b = content[i];
        if b != NL {
            cur.push(b);
            i = i + 1;
        } else if cur.len() == 0 {
            i = i + 1;
            assert(cur@ =~= cur_old);
        } else if i == n - 1 {
            assert(rest.len() == 1);
            let m = Message { body: cur };
            out.push(m);
            cur = Vec::new();
            i = i + 1;
            proof {
                assert(content@.skip(i as int) =~= Seq::<u8>::empty());
                assert(bodies(out@) =~= bodies(out_old).push(cur_old));
                assert(bodies(out_old) + seq![cur_old] =~= bodies(out_old).push(cur_old));
                assert(bodies(out@) + parse_rec(content@.skip(i as int), cur@) =~= bodies(
                    out@,
                ));
            }
        } else if content[i + 1] == NL {
            assert(rest[1] == content@[i + 1]);
            assert(rest.skip(2) =~= content@.skip(i + 2));
            let m = Message { body: cur };
            out.push(m);
            cur = Vec::new();
            i = i + 2;
            proof {
                assert(bodies(out@) =~= bodies(out_old).push(cur_old));
                assert(bodies(out_old) + (seq![cur_old] + parse_rec(
                    content@.skip(i as int),
                    cur@,
                )) =~= bodies(out@) + parse_rec(content@.skip(i as int), cur@));
            }
        } else {
            cur.push(NL);
            i = i + 1;
        }
    }
    assert(content@.skip(n as int) =~= Seq::<u8>::empty());
    let ghost out_old = out@;
    let ghost cur_old = cur@;
    if cur.len() > 0 {
        let m = Message { body: cur };
        out.push(m);
        proof {
            assert(bodies(out@) =~= bodies(out_old).push(cur_old));
            assert(bodies(out_old) + seq![cur_old] =~= bodies(out_old).push(cur_old));
        }
    } else {
        assert(bodies(out@) + parse_rec(Seq::<u8>::empty(), cur@) =~= bodies(out@));
    }
    out
}

/// Appends every byte of `src` to `dst`.
pub fn push_bytes(dst: &mut Vec<u8>, src: &Vec<u8>)
    ensures
        final(dst)@ == old(dst)@ + src@,
{
    let n = src.len();
    let mut k: usize = 0;
    assert(dst@ =~= old(dst)@ + src@.subrange(0, 0));
    while k < n
        invariant
            n == src@.len(),
            0 <= k <= n,
            dst@ == old(dst)@ + src@.subrange(0, k as int),
        decreases n - k,
    {
        let b = src[k];
        dst.push(b);
        assert(dst@ =~= old(dst)@ + src@.subrange(0, k + 1));
        k = k + 1;
    }
    assert(dst@ =~= old(dst)@ + src@);
}

/// Serializes `ms` in order as the bytes to append to the history file.
pub fn encode_messages(ms: &Vec<Message>) -> (r: Vec<u8>)
    ensures
        r@ == spec_encode(bodies(ms@)),
{
    let n = ms.len();
    let mut r: Vec<u8> = Vec::new();
    let mut k: usize = 0;
    assert(bodies(ms@.skip(0)) =~= bodies(ms@));
    assert(r@ + spec_encode(bodies(ms@)) =~= spec_encode(bodies(ms@)));
    while k < n
        invariant
            n == ms@.len(),
            0 <= k <= n,
            spec_encode(bodies(ms@)) == r@ + spec_encode(bodies(ms@.skip(k as int))),
        decreases n - k,
    {
        let ghost rest = bodies(ms@.skip(k as int));
        let ghost r_old = r@;
        assert(rest[0] == ms@[k as int].body@);
        assert(rest.skip(1) =~= bodies(ms@.skip(k + 1)));
        push_bytes(&mut r, &ms[k].body);
        r.push(NL);
        r.push(NL);
        proof {
            assert(r@ =~= r_old + (ms@[k as int].body@ + seq![NL, NL]));
            assert(r_old + ((ms@[k as int].body@ + seq![NL, NL]) + spec_encode(
                bodies(ms@.skip(k + 1)),
            )) =~= r@ + spec_encode(bodies(ms@.skip(k + 1))));
            assert(rest[0] + seq![NL, NL] + spec_encode(rest.skip(1)) =~= (rest[0] + seq![
                NL,
                NL,
            ]) + spec_encode(rest.skip(1)));
        }
        k = k + 1;
    }
    assert(bodies(ms@.skip(n as int)) =~= Seq::<Seq<u8>>::empty());
    assert(r@ + spec_encode(Seq::<Seq<u8>>::empty()) =~= r@);
    r
}

/// A missing history file reads as empty content, and empty content holds
/// no records: the first cycle starts from an empty history without error.
pub proof fn lemma_empty_store()
    ensures
        spec_parse(Seq::<u8>::empty()) == Seq::<Seq<u8>>::empty(),
{
}

/// Reading a body's bytes out of the input stream only moves them into the
/// open record: a body with no blank line inside and no trailing line feed
/// is consumed whole, whatever follows it.
proof fn lemma_parse_consume(b: Seq<u8>, t: Seq<u8>, cur: Seq<u8>)
    requires
        b.len() > 0,
        b[b.len() - 1] != NL,
        forall|i: int| 0 <= i < b.len() - 1 ==> !(#[trigger] b[i] == NL && b[i + 1] == NL),
        b[0] == NL ==> cur.len() > 0,
    ensures
        parse_rec(b + t, cur) == parse_rec(t, cur + b),
    decreases b.len(),
{
    let c = b + t;
    assert(c[0] == b[0]);
    if b.len() == 1 {
        assert(c.skip(1) =~= t);
        assert(cur.push(b[0]) =~= cur + b);
    } else {
        let b2 = b.skip(1);
        assert(b2[b2.len() - 1] == b[b.len() - 1]);
        assert forall|i: int| 0 <= i < b2.len() - 1 implies !(#[trigger] b2[i] == NL && b2[i
            + 1] == NL) by {
            assert(b2[i] == b[i + 1]);
            assert(b2[i + 1] == b[i + 2]);
        }
        assert(c.skip(1) =~= b2 + t);
        if b[0] != NL {
            let cur2 = cur.push(b[0]);
            lemma_parse_consume(b2, t, cur2);
            assert(cur2 + b2 =~= cur + b);
        } else {
            assert(c[1] == b[1]);
            assert(b[1] != NL);
            let cur2 = cur.push(NL);
            lemma_parse_consume(b2, t, cur2);
            assert(cur2 + b2 =~= cur + b);
        }
    }
}

/// Decoding inverts encoding: the records read back from encoded bodies are
/// exactly those bodies, in order.
pub proof fn lemma_parse_encode(bs: Seq<Seq<u8>>)
    requires
        all_wf(bs),
    ensures
        spec_parse(spec_encode(bs)) == bs,
    decreases bs.len(),
{
    if bs.len() == 0 {
        assert(spec_parse(spec_encode(bs)) =~= bs);
    } else {
        let b0 = bs[0];
        let rest = bs.skip(1);
        let tt = seq![NL, NL] + spec_encode(rest);
        assert(spec_encode(bs) =~= b0 + tt);
        assert(wf_body(b0));
        lemma_parse_consume(b0, tt, Seq::empty());
        assert(Seq::empty() + b0 =~= b0);
        assert(tt[0] == NL && tt[1] == NL);
        assert(tt.skip(2) =~= spec_encode(rest));
        assert forall|i: int| 0 <= i < rest.len() implies wf_body(#[trigger] rest[i]) by {
            assert(rest[i] == bs[i + 1]);
        }
        lemma_parse_encode(rest);
        assert(seq![b0] + rest =~= bs);
    }
}

/// Encoding a concatenation is the concatenation of the encodings: the
/// store appends by writing `spec_encode` of the new bodies after the old
/// content.
pub proof fn lemma_encode_concat(xs: Seq<Seq<u8>>, ys: Seq<Seq<u8>>)
    ensures
        spec_encode(xs + ys) == spec_encode(xs) + spec_encode(ys),
    decreases xs.len(),
{
    if xs.len() == 0 {
        assert(xs + ys =~= ys);
        assert(spec_encode(xs) + spec_encode(ys) =~= spec_encode(ys));
    } else {
        assert((xs + ys)[0] == xs[0]);
        assert((xs + ys).skip(1) =~= xs.skip(1) + ys);
        lemma_encode_concat(xs.skip(1), ys);
        assert(xs[0] + seq![NL, NL] + (spec_encode(xs.skip(1)) + spec_encode(ys)) =~= (xs[0]
            + seq![NL, NL] + spec_encode(xs.skip(1))) + spec_encode(ys));
    }
}

/// Round trip of the store: appending encoded bodies to store-produced
/// content and reading the file back yields the old records, intact and in
/// place, followed by the appended bodies — so the recorded history grows
/// monotonically and every appended body reads back byte-for-byte equal.
pub proof fn lemma_store_round_trip(hs: Seq<Seq<u8>>, ms: Seq<Seq<u8>>)
    requires
        all_wf(hs),
        all_wf(ms),
    ensures
        spec_parse(spec_encode(hs) + spec_encode(ms)) == hs + ms,
        forall|i: int| 0 <= i < hs.len() ==> spec_parse(
            spec_encode(hs) + spec_encode(ms),
        )[i] == hs[i],
{
    lemma_encode_concat(hs, ms);
    assert forall|i: int| 0 <= i < (hs + ms).len() implies wf_body(#[trigger] (hs + ms)[i]) by {
        if i < hs.len() {
            assert((hs + ms)[i] == hs[i]);
        } else {
            assert((hs + ms)[i] == ms[i - hs.len()]);
        }
    }
    lemma_parse_encode(hs + ms);
}

} // verus!
