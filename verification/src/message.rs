//! The unit of content that the watcher tracks.
//!
//! A [`Message`] is one normalized block of text, kept as UTF-8 bytes.  Two
//! messages are the same for diffing purposes iff their bodies are equal
//! after trimming leading and trailing ASCII whitespace.

use vstd::prelude::*;

verus! {

/// The line-feed byte, the record separator of the history file format.
pub const NL: u8 = 10;

/// One extracted, normalized block of text; immutable once created.
#[derive(Debug)]
pub struct Message {
    pub body: Vec<u8>,
}

impl Message {
    /// The mathematical value of a message: its body as a byte sequence.
    pub open spec fn view(self) -> Seq<u8> {
        self.body@
    }

    /// An independent copy of this message with an equal body.
    pub fn duplicate(&self) -> (r: Message)
        ensures
            r.body@ == self.body@,
    {
        Message { body: copy_bytes(&self.body) }
    }
}

/// A fresh vector holding the same bytes as `src`.
pub fn copy_bytes(src: &Vec<u8>) -> (r: Vec<u8>)
    ensures
        r@ == src@,
{
    let n = src.len();
    let mut r: Vec<u8> = Vec::new();
    let mut k: usize = 0;
    while k < n
        invariant
            n == src@.len(),
            0 <= k <= n,
            r@ == src@.subrange(0, k as int),
        decreases n - k,
    {
        let b = src[k];
        r.push(b);
        assert(r@ =~= src@.subrange(0, k + 1));
        k = k + 1;
    }
    assert(r@ =~= src@);
    r
}

/// The bodies of a sequence of messages.
pub open spec fn bodies(ms: Seq<Message>) -> Seq<Seq<u8>> {
    ms.map_values(|m: Message| m.body@)
}

/// ASCII whitespace: space, horizontal tab, line feed, carriage return.
pub open spec fn is_ws(b: u8) -> bool {
    b == 32 || b == 9 || b == 10 || b == 13
}

/// A body that the blank-line file framing can carry faithfully: non-empty,
/// no leading or trailing line feed, and no two consecutive line feeds
/// (a blank line inside a body would be read back as a record boundary).
pub open spec fn wf_body(s: Seq<u8>) -> bool {
    &&& s.len() > 0
    &&& s[0] != NL
    &&& s[s.len() - 1] != NL
    &&& forall|i: int| 0 <= i < s.len() - 1 ==> !(#[trigger] s[i] == NL && s[i + 1] == NL)
}

/// `s` with leading ASCII whitespace removed.
pub open spec fn trim_front(s: Seq<u8>) -> Seq<u8>
    decreases s.len(),
{
    if s.len() > 0 && is_ws(s[0]) {
        trim_front(s.skip(1))
    } else {
        s
    }
}

/// `s` with trailing ASCII whitespace removed.
pub open spec fn trim_back(s: Seq<u8>) -> Seq<u8>
    decreases s.len(),
{
    if s.len() > 0 && is_ws(s[s.len() - 1]) {
        trim_back(s.take(s.len() - 1))
    } else {
        s
    }
}

/// `s` with both leading and trailing ASCII whitespace removed: the
/// normal form under which message bodies are compared.
pub open spec fn spec_trim(s: Seq<u8>) -> Seq<u8> {
    trim_back(trim_front(s))
}

/// Trimmed-body equality, the equivalence under which the delta engine
/// decides whether an extracted message is already in history.
pub open spec fn same_message(a: Seq<u8>, b: Seq<u8>) -> bool {
    spec_trim(a) == spec_trim(b)
}

/// Executable counterpart of [`is_ws`].
pub fn ws_byte(b: u8) -> (r: bool)
    ensures
        r == is_ws(b),
{
    b == 32 || b == 9 || b == 10 || b == 13
}

/// Byte-for-byte equality of two byte vectors.
pub fn bytes_eq(a: &Vec<u8>, b: &Vec<u8>) -> (r: bool)
    ensures
        r == (a@ == b@),
{
    if a.len() != b.len() {
        assert(a@ !~= b@);
        return false;
    }
    let n = a.len();
    let mut i: usize = 0;
    while i < n
        invariant
            n == a@.len() == b@.len(),
            0 <= i <= n,
            forall|k: int| 0 <= k < i ==> a@[k] == b@[k],
        decreases n - i,
    {
        if a[i] != b[i] {
            return false;
        }
        i = i + 1;
    }
    assert(a@ =~= b@);
    true
}

/// Returns `s` with leading and trailing ASCII whitespace removed.
pub fn trim_bytes(v: &Vec<u8>) -> (r: Vec<u8>)
    ensures
        r@ == spec_trim(v@),
{
    let n = v.len();
    let mut i: usize = 0;
    assert(v@.skip(0) =~= v@);
    while i < n && ws_byte(v[i])
        invariant
            n == v@.len(),
            0 <= i <= n,
            trim_front(v@) == trim_front(v@.skip(i as int)),
        decreases n - i,
    {
        assert(v@.skip(i as int).skip(1) =~= v@.skip(i + 1));
        i = i + 1;
    }
    let ghost t = v@.skip(i as int);
    assert(trim_front(v@) == t);
    let mut j: usize = n;
    assert(t.take(n - i) =~= t);
    while j > i && ws_byte(v[j - 1])
        invariant
            n == v@.len(),
            i <= j <= n,
            t == v@.skip(i as int),
            trim_back(t) == trim_back(t.take(j - i)),
        decreases j,
    {
        assert(t.take(j - i)[j - i - 1] == v@[j - 1]);
        assert(t.take(j - i).take(j - i - 1) =~= t.take(j - 1 - i));
        j = j - 1;
    }
    assert(trim_back(t) == t.take(j - i));
    let mut r: Vec<u8> = Vec::new();
    let mut k: usize = i;
    while k < j
        invariant
            i <= k <= j <= n,
            n == v@.len(),
            r@ == v@.subrange(i as int, k as int),
        decreases j - k,
    {
        let b = v[k];
        r.push(b);
        assert(r@ =~= v@.subrange(i as int, k + 1));
        k = k + 1;
    }
    assert(r@ =~= t.take(j - i));
    r
}

/// Decides trimmed-body equality: the comparison the delta engine uses.
pub fn messages_match(a: &Vec<u8>, b: &Vec<u8>) -> (r: bool)
    ensures
        r == same_message(a@, b@),
{
    let ta = trim_bytes(a);
    let tb = trim_bytes(b);
    bytes_eq(&ta, &tb)
}

} // verus!
