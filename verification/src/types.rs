//! Node identifiers and replicated log entries, with the binary encoding
//! used to persist an entry.

use vstd::prelude::*;

verus! {

/// Identifier of a node in the cluster.
#[derive(PartialEq, Eq, Structural, Clone, Copy, Debug, Hash, PartialOrd, Ord)]
pub struct NodeId(pub u16);

impl From<u16> for NodeId {
    fn from(value: u16) -> (r: NodeId) {
        NodeId(value)
    }
}

impl vstd::std_specs::convert::FromSpecImpl<u16> for NodeId {
    open spec fn obeys_from_spec() -> bool {
        true
    }

    open spec fn from_spec(v: u16) -> NodeId {
        NodeId(v)
    }
}


/// Mathematical value of a log entry: its term, its position in the log
/// (counting from 1) and the command bytes it carries.
pub struct LogEntryView {
    pub term: u64,
    pub index: u64,
    pub cmd: Seq<u8>,
}

/// One entry of the replicated log.
#[derive(Debug)]
pub struct LogEntry {
    pub term: u64,
    pub index: u64,
    pub cmd: Vec<u8>,
}

impl View for LogEntry {
    type V = LogEntryView;

    open spec fn view(&self) -> LogEntryView {
        LogEntryView { term: self.term, index: self.index, cmd: self.cmd@ }
    }
}

impl DeepView for LogEntry {
    type V = LogEntryView;

    open spec fn deep_view(&self) -> LogEntryView {
        self@
    }
}

impl Clone for LogEntry {
    fn clone(&self) -> (r: LogEntry)
        ensures
            r@ == self@,
    {
        LogEntry { term: self.term, index: self.index, cmd: self.cmd.clone() }
    }
}

/// A copy of a log: the same entries in the same order.
pub fn clone_log(v: &Vec<LogEntry>) -> (r: Vec<LogEntry>)
    ensures
        r.deep_view() == v.deep_view(),
{
    let mut r: Vec<LogEntry> = Vec::new();
    let n = v.len();
    for i in 0..n
        invariant
            n == v@.len(),
            r@.len() == i,
            forall|j: int| 0 <= j < i ==> (#[trigger] r@[j])@ == v@[j]@,
    {
        r.push(v[i].clone());
    }
    assert(r.deep_view() =~= v.deep_view());
    r
}

/// A vector holding the bytes of `s`.
pub fn bytes_to_vec(s: &[u8]) -> (r: Vec<u8>)
    ensures
        r@ == s@,
{
    let mut r: Vec<u8> = Vec::new();
    let n = s.len();
    for i in 0..n
        invariant
            n == s@.len(),
            r@ == s@.take(i as int),
    {
        r.push(s[i]);
        assert(s@.take(i + 1) =~= s@.take(i as int).push(s@[i as int]));
    }
    assert(s@.take(n as int) =~= s@);
    r
}

/// A copy of the entries of a log from position `from` (counting from 0) to
/// its end.
pub fn clone_log_from(v: &Vec<LogEntry>, from: usize) -> (r: Vec<LogEntry>)
    requires
        from <= v@.len(),
    ensures
        r.deep_view() == v.deep_view().subrange(from as int, v@.len() as int),
{
    let mut r: Vec<LogEntry> = Vec::new();
    let n = v.len();
    let mut i: usize = from;
    while i < n
        invariant
            n == v@.len(),
            from <= i <= n,
            r@.len() == i - from,
            forall|j: int| 0 <= j < i - from ==> (#[trigger] r@[j])@ == v@[j + from]@,
        decreases n - i,
    {
        r.push(v[i].clone());
        i = i + 1;
    }
    assert(r.deep_view() =~= v.deep_view().subrange(from as int, v@.len() as int));
    r
}

/// Whether two byte strings are equal.
pub fn bytes_eq(a: &[u8], b: &[u8]) -> (r: bool)
    ensures
        r == (a@ == b@),
{
    if a.len() != b.len() {
        return false;
    }
    let n = a.len();
    for i in 0..n
        invariant
            n == a@.len(),
            n == b@.len(),
            forall|j: int| 0 <= j < i ==> a@[j] == b@[j],
    {
        if a[i] != b[i] {
            return false;
        }
    }
    assert(a@ =~= b@);
    true
}

/// The eight bytes of `v`, most significant first.
pub open spec fn u64_be_bytes(v: u64) -> Seq<u8> {
    seq![
        (v >> 56u64) as u8,
        (v >> 48u64) as u8,
        (v >> 40u64) as u8,
        (v >> 32u64) as u8,
        (v >> 24u64) as u8,
        (v >> 16u64) as u8,
        (v >> 8u64) as u8,
        v as u8,
    ]
}

/// The number whose big-endian bytes are the first eight of `s`.
pub open spec fn u64_from_be(s: Seq<u8>) -> u64
    recommends
        s.len() >= 8,
{
    ((s[0] as u64) << 56u64) | ((s[1] as u64) << 48u64) | ((s[2] as u64) << 40u64) | ((
    s[3] as u64) << 32u64) | ((s[4] as u64) << 24u64) | ((s[5] as u64) << 16u64) | ((
    s[6] as u64) << 8u64) | (s[7] as u64)
}

/// The persisted form of an entry: its index and its term, eight big-endian
/// bytes each, followed by the command bytes.
pub open spec fn encode_entry(e: LogEntryView) -> Seq<u8> {
    u64_be_bytes(e.index) + u64_be_bytes(e.term) + e.cmd
}

/// The entry read back from a persisted form of at least sixteen bytes.
pub open spec fn decode_entry(buf: Seq<u8>) -> LogEntryView
    recommends
        buf.len() >= 16,
{
    LogEntryView {
        index: u64_from_be(buf.subrange(0, 8)),
        term: u64_from_be(buf.subrange(8, 16)),
        cmd: buf.subrange(16, buf.len() as int),
    }
}

/// Reading back the big-endian bytes of a number gives the number.
pub proof fn lemma_u64_be_roundtrip(v: u64)
    ensures
        u64_be_bytes(v).len() == 8,
        u64_from_be(u64_be_bytes(v)) == v,
{
    let s = u64_be_bytes(v);
    let (b0, b1, b2, b3) = (s[0], s[1], s[2], s[3]);
    let (b4, b5, b6, b7) = (s[4], s[5], s[6], s[7]);
    assert(((b0 as u64) << 56u64) | ((b1 as u64) << 48u64) | ((b2 as u64) << 40u64) | ((
    b3 as u64) << 32u64) | ((b4 as u64) << 24u64) | ((b5 as u64) << 16u64) | ((b6 as u64)
        << 8u64) | (b7 as u64) == v) by (bit_vector)
        requires
            b0 == (v >> 56u64) as u8,
            b1 == (v >> 48u64) as u8,
            b2 == (v >> 40u64) as u8,
            b3 == (v >> 32u64) as u8,
            b4 == (v >> 24u64) as u8,
            b5 == (v >> 16u64) as u8,
            b6 == (v >> 8u64) as u8,
            b7 == v as u8,
    ;
}

/// Writing out the number read from eight bytes gives those bytes back.
pub proof fn lemma_u64_be_bytes_of_read(s: Seq<u8>)
    requires
        s.len() == 8,
    ensures
        u64_be_bytes(u64_from_be(s)) == s,
{
    let v = u64_from_be(s);
    let (b0, b1, b2, b3) = (s[0], s[1], s[2], s[3]);
    let (b4, b5, b6, b7) = (s[4], s[5], s[6], s[7]);
    assert((v >> 56u64) as u8 == b0 && (v >> 48u64) as u8 == b1 && (v >> 40u64) as u8 == b2
        && (v >> 32u64) as u8 == b3 && (v >> 24u64) as u8 == b4 && (v >> 16u64) as u8 == b5
        && (v >> 8u64) as u8 == b6 && v as u8 == b7) by (bit_vector)
        requires
            v == ((b0 as u64) << 56u64) | ((b1 as u64) << 48u64) | ((b2 as u64) << 40u64) | ((
            b3 as u64) << 32u64) | ((b4 as u64) << 24u64) | ((b5 as u64) << 16u64) | ((
            b6 as u64) << 8u64) | (b7 as u64),
    ;
    assert(u64_be_bytes(v) =~= s);
}

/// Decoding an encoded entry gives the entry back.
pub proof fn lemma_decode_encode(e: LogEntryView)
    ensures
        encode_entry(e).len() >= 16,
        decode_entry(encode_entry(e)) == e,
{
    lemma_u64_be_roundtrip(e.index);
    lemma_u64_be_roundtrip(e.term);
    let buf = encode_entry(e);
    assert(buf.subrange(0, 8) =~= u64_be_bytes(e.index));
    assert(buf.subrange(8, 16) =~= u64_be_bytes(e.term));
    assert(buf.subrange(16, buf.len() as int) =~= e.cmd);
}

/// Encoding the entry decoded from a buffer of at least sixteen bytes gives
/// the buffer back.
pub proof fn lemma_encode_decode(buf: Seq<u8>)
    requires
        buf.len() >= 16,
    ensures
        encode_entry(decode_entry(buf)) == buf,
{
    lemma_u64_be_bytes_of_read(buf.subrange(0, 8));
    lemma_u64_be_bytes_of_read(buf.subrange(8, 16));
    assert(encode_entry(decode_entry(buf)) =~= buf);
}

fn push_u64_be(buf: &mut Vec<u8>, v: u64)
    ensures
        final(buf)@ == old(buf)@ + u64_be_bytes(v),
{
    buf.push(#[verifier::truncate] ((v >> 56u64) as u8));
    buf.push(#[verifier::truncate] ((v >> 48u64) as u8));
    buf.push(#[verifier::truncate] ((v >> 40u64) as u8));
    buf.push(#[verifier::truncate] ((v >> 32u64) as u8));
    buf.push(#[verifier::truncate] ((v >> 24u64) as u8));
    buf.push(#[verifier::truncate] ((v >> 16u64) as u8));
    buf.push(#[verifier::truncate] ((v >> 8u64) as u8));
    buf.push(#[verifier::truncate] (v as u8));
    assert(final(buf)@ =~= old(buf)@ + u64_be_bytes(v));
}

fn read_u64_be(buf: &[u8], at: usize) -> (r: u64)
    requires
        at + 8 <= buf@.len(),
    ensures
        r == u64_from_be(buf@.subrange(at as int, at + 8)),
{
    ((buf[at] as u64) << 56u64) | ((buf[at + 1] as u64) << 48u64) | ((buf[at + 2] as u64)
        << 40u64) | ((buf[at + 3] as u64) << 32u64) | ((buf[at + 4] as u64) << 24u64) | ((
    buf[at + 5] as u64) << 16u64) | ((buf[at + 6] as u64) << 8u64) | (buf[at + 7] as u64)
}

impl LogEntry {
    /// The persisted form of the entry: index, term, then the command.
    pub fn encode_to_bytes(&self) -> (r: Vec<u8>)
        ensures
            r@ == encode_entry(self@),
    {
        let mut buf: Vec<u8> = Vec::new();
        push_u64_be(&mut buf, self.index);
        push_u64_be(&mut buf, self.term);
        let n = self.cmd.len();
        for i in 0..n
            invariant
                n == self.cmd@.len(),
                buf@ == u64_be_bytes(self.index) + u64_be_bytes(self.term) + self.cmd@.take(
                    i as int,
                ),
        {
            buf.push(self.cmd[i]);
            assert(self.cmd@.take(i + 1) =~= self.cmd@.take(i as int).push(self.cmd@[i as int]));
        }
        assert(self.cmd@.take(n as int) =~= self.cmd@);
        buf
    }

    /// Reads an entry back from its persisted form; the buffer holds at least
    /// the sixteen bytes of index and term.
    pub fn decode(buf: &[u8]) -> (r: LogEntry)
        requires
            buf@.len() >= 16,
        ensures
            r@ == decode_entry(buf@),
    {
        let index = read_u64_be(buf, 0);
        let term = read_u64_be(buf, 8);
        let mut cmd: Vec<u8> = Vec::new();
        let n = buf.len();
        let mut i: usize = 16;
        while i < n
            invariant
                16 <= i <= n,
                n == buf@.len(),
                cmd@ == buf@.subrange(16, i as int),
            decreases n - i,
        {
            cmd.push(buf[i]);
            assert(buf@.subrange(16, i + 1) =~= buf@.subrange(16, i as int).push(buf@[i as int]));
            i = i + 1;
        }
        LogEntry { term, index, cmd }
    }
}

} // verus!
