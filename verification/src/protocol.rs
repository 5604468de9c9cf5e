//! The dashboard protocol: what is sent, and how messages are framed.

use crate::strmap::{StrMap, StrSet};
use vstd::prelude::*;

verus! {

/// What the server shows the dashboard.
#[derive(Clone, Debug)]
pub struct DashboardSnapshot {
    pub queues_len: StrMap<usize>,
    pub processing_counts: StrMap<usize>,
    pub processed_counts: StrMap<usize>,
    pub dropped_counts: StrMap<usize>,
    pub user_ips: StrMap<String>,
    pub blocked_ips: StrSet,
    pub blocked_users: StrSet,
    pub vip_list: Vec<String>,
    pub user_ids: Vec<String>,
    pub backends: Vec<BackendSnapshot>,
    pub model_public_names: StrMap<String>,
    pub log_lines: Vec<(String, String)>,
}

/// What the server shows of one backend.
#[derive(Clone, Debug)]
pub struct BackendSnapshot {
    pub url: String,
    pub active_requests: usize,
    pub processed_count: usize,
    pub is_online: bool,
    pub configured_models: Vec<String>,
    pub model_status: StrMap<bool>,
}

/// What the dashboard asks of the server.
#[derive(Clone, Debug)]
pub enum DashboardCmd {
    ToggleVip(String),
    BlockUser(String),
    UnblockUser(String),
    BlockIp(String),
    UnblockIp(String),
}

/// A request of the dashboard, with the text in it.
pub enum DashboardRequest {
    ToggleVip(Seq<char>),
    BlockUser(Seq<char>),
    UnblockUser(Seq<char>),
    BlockIp(Seq<char>),
    UnblockIp(Seq<char>),
}

impl View for DashboardCmd {
    type V = DashboardRequest;

    open spec fn view(&self) -> DashboardRequest {
        match self {
            DashboardCmd::ToggleVip(user) => DashboardRequest::ToggleVip(user@),
            DashboardCmd::BlockUser(user) => DashboardRequest::BlockUser(user@),
            DashboardCmd::UnblockUser(user) => DashboardRequest::UnblockUser(user@),
            DashboardCmd::BlockIp(ip) => DashboardRequest::BlockIp(ip@),
            DashboardCmd::UnblockIp(ip) => DashboardRequest::UnblockIp(ip@),
        }
    }
}

impl BackendSnapshot {
    /// No model has two statuses.
    pub open spec fn wf(&self) -> bool {
        self.model_status.wf()
    }
}

impl DashboardSnapshot {
    /// Maps and sets hold nothing twice.
    pub open spec fn wf(&self) -> bool {
        &&& self.queues_len.wf()
        &&& self.processing_counts.wf()
        &&& self.processed_counts.wf()
        &&& self.dropped_counts.wf()
        &&& self.user_ips.wf()
        &&& self.blocked_ips.wf()
        &&& self.blocked_users.wf()
        &&& self.model_public_names.wf()
        &&& forall|i: int| 0 <= i < self.backends@.len() ==> (#[trigger] self.backends@[i]).wf()
    }

    /// A snapshot of nothing.
    pub fn empty() -> (r: Self)
        ensures
            r.wf(),
            r.queues_len@ == Map::<Seq<char>, usize>::empty(),
            r.queues_len.keys() == Seq::<Seq<char>>::empty(),
            r.processing_counts@ == Map::<Seq<char>, usize>::empty(),
            r.processing_counts.keys() == Seq::<Seq<char>>::empty(),
            r.processed_counts@ == Map::<Seq<char>, usize>::empty(),
            r.processed_counts.keys() == Seq::<Seq<char>>::empty(),
            r.dropped_counts@ == Map::<Seq<char>, usize>::empty(),
            r.dropped_counts.keys() == Seq::<Seq<char>>::empty(),
            r.user_ips@ == Map::<Seq<char>, String>::empty(),
            r.user_ips.keys() == Seq::<Seq<char>>::empty(),
            r.blocked_ips@ == Set::<Seq<char>>::empty(),
            r.blocked_ips.members() == Seq::<Seq<char>>::empty(),
            r.blocked_users@ == Set::<Seq<char>>::empty(),
            r.blocked_users.members() == Seq::<Seq<char>>::empty(),
            r.vip_list@.len() == 0,
            r.user_ids@.len() == 0,
            r.backends@.len() == 0,
            r.model_public_names@ == Map::<Seq<char>, String>::empty(),
            r.model_public_names.keys() == Seq::<Seq<char>>::empty(),
            r.log_lines@.len() == 0,
    {
        DashboardSnapshot {
            queues_len: StrMap::new(),
            processing_counts: StrMap::new(),
            processed_counts: StrMap::new(),
            dropped_counts: StrMap::new(),
            user_ips: StrMap::new(),
            blocked_ips: StrSet::new(),
            blocked_users: StrSet::new(),
            vip_list: Vec::new(),
            user_ids: Vec::new(),
            backends: Vec::new(),
            model_public_names: StrMap::new(),
            log_lines: Vec::new(),
        }
    }
}

/// The four bytes of `n`, the highest first.
pub open spec fn be_bytes(n: nat) -> Seq<u8> {
    seq![
        (n / 0x100_0000 % 0x100) as u8,
        (n / 0x1_0000 % 0x100) as u8,
        (n / 0x100 % 0x100) as u8,
        (n % 0x100) as u8,
    ]
}

/// The number in the first four bytes of `buf`, the highest first.
pub open spec fn be_prefix(buf: Seq<u8>) -> nat {
    (buf[0] as nat) * 0x100_0000 + (buf[1] as nat) * 0x1_0000 + (buf[2] as nat) * 0x100 + (
    buf[3] as nat)
}

/// `body` behind its length in four bytes. The length is taken modulo the numbers that four bytes
/// can hold.
pub open spec fn framed(body: Seq<u8>) -> Seq<u8> {
    be_bytes((body.len() % 0x1_0000_0000) as nat) + body
}

/// Whether `buf` begins with a whole message.
pub open spec fn has_frame(buf: Seq<u8>) -> bool {
    buf.len() >= 4 && buf.len() - 4 >= be_prefix(buf)
}

/// How many bytes the message takes that `buf` begins with.
pub open spec fn frame_len(buf: Seq<u8>) -> int {
    4 + be_prefix(buf) as int
}

/// The body of the message that `buf` begins with.
pub open spec fn frame_body(buf: Seq<u8>) -> Seq<u8> {
    buf.subrange(4, frame_len(buf))
}

/// The message with this body, as it goes over the wire.
pub fn encode(body: &[u8]) -> (r: Vec<u8>)
    ensures
        r@ == framed(body@),
{
    let n: u64 = body.len() as u64 % 0x1_0000_0000;
    let mut r: Vec<u8> = Vec::new();
    r.push((n / 0x100_0000 % 0x100) as u8);
    r.push((n / 0x1_0000 % 0x100) as u8);
    r.push((n / 0x100 % 0x100) as u8);
    r.push((n % 0x100) as u8);
    r.extend_from_slice(body);
    assert(r@ =~= framed(body@));
    r
}

/// Returns the message body length from the 4-byte big-endian prefix, or None if not enough bytes.
pub fn prefix_len(buf: &[u8]) -> (r: Option<usize>)
    ensures
        r is Some <==> buf@.len() >= 4,
        r is Some ==> r->0 == be_prefix(buf@),
{
    if buf.len() < 4 {
        return None;
    }
    let n: u32 = buf[0] as u32 * 0x100_0000 + buf[1] as u32 * 0x1_0000 + buf[2] as u32 * 0x100
        + buf[3] as u32;
    Some(n as usize)
}

/// The body of the message that `buf` begins with, if the message is whole.
pub fn decode(buf: &[u8]) -> (r: Option<Vec<u8>>)
    ensures
        r is Some <==> has_frame(buf@),
        r is Some ==> r->0@ == frame_body(buf@),
{
    match consumed_len(buf) {
        None => None,
        Some(n) => {
            let mut body: Vec<u8> = Vec::new();
            let mut i: usize = 4;
            while i < n
                invariant
                    4 <= i <= n,
                    n <= buf@.len(),
                    n == frame_len(buf@),
                    body@ == buf@.subrange(4, i as int),
                decreases n - i,
            {
                body.push(buf[i]);
                assert(body@ =~= buf@.subrange(4, i + 1));
                i += 1;
            }
            Some(body)
        },
    }
}

/// Returns how many bytes to consume after successfully decoding, or None if not a valid message.
pub fn consumed_len(buf: &[u8]) -> (r: Option<usize>)
    ensures
        r is Some <==> has_frame(buf@),
        r is Some ==> r->0 == frame_len(buf@),
{
    match prefix_len(buf) {
        None => None,
        Some(len) => if buf.len() - 4 >= len {
            Some(4 + len)
        } else {
            None
        },
    }
}

/// The bodies of the whole messages at the beginning of `stream`, in order.
pub open spec fn messages(stream: Seq<u8>) -> Seq<Seq<u8>>
    decreases stream.len(),
{
    if has_frame(stream) {
        seq![frame_body(stream)] + messages(stream.skip(frame_len(stream)))
    } else {
        Seq::empty()
    }
}

/// What is left of `stream` behind its whole messages.
pub open spec fn leftover(stream: Seq<u8>) -> Seq<u8>
    decreases stream.len(),
{
    if has_frame(stream) {
        leftover(stream.skip(frame_len(stream)))
    } else {
        stream
    }
}

/// Takes messages off a stream of bytes that arrives piece by piece.
pub struct FrameReader {
    pub buf: Vec<u8>,
}

impl FrameReader {
    pub fn new() -> (r: Self)
        ensures
            r.buf@ == Seq::<u8>::empty(),
    {
        FrameReader { buf: Vec::new() }
    }

    /// Takes in what has arrived.
    pub fn feed(&mut self, bytes: &[u8])
        ensures
            final(self).buf@ == old(self).buf@ + bytes@,
    {
        self.buf.extend_from_slice(bytes);
        assert(self.buf@ =~= old(self).buf@ + bytes@);
    }

    /// Takes off the next whole message and hands out its body.
    pub fn next_body(&mut self) -> (r: Option<Vec<u8>>)
        ensures
            r is Some <==> has_frame(old(self).buf@),
            r is Some ==> {
                &&& r->0@ == frame_body(old(self).buf@)
                &&& final(self).buf@ == old(self).buf@.skip(frame_len(old(self).buf@))
                &&& messages(old(self).buf@) == seq![r->0@] + messages(final(self).buf@)
                &&& leftover(old(self).buf@) == leftover(final(self).buf@)
            },
            r is None ==> {
                &&& final(self).buf@ == old(self).buf@
                &&& messages(old(self).buf@).len() == 0
                &&& leftover(old(self).buf@) == old(self).buf@
            },
    {
        match consumed_len(self.buf.as_slice()) {
            None => None,
            Some(n) => {
                let body = decode(self.buf.as_slice());
                let rest = self.buf.split_off(n);
                assert(rest@ =~= old(self).buf@.skip(n as int));
                self.buf = rest;
                body
            },
        }
    }

    /// Throws away what has arrived: after a message that makes no sense there is no telling where
    /// the next one begins.
    pub fn discard(&mut self)
        ensures
            final(self).buf@ == Seq::<u8>::empty(),
    {
        self.buf = Vec::new();
    }
}

/// A length that four bytes can hold reads back.
proof fn lemma_be_round_trip(n: nat, rest: Seq<u8>)
    requires
        n < 0x1_0000_0000,
    ensures
        be_prefix(be_bytes(n) + rest) == n,
{
    let buf = be_bytes(n) + rest;
    assert(buf[0] as nat == n / 0x100_0000 % 0x100);
    assert(buf[1] as nat == n / 0x1_0000 % 0x100);
    assert(buf[2] as nat == n / 0x100 % 0x100);
    assert(buf[3] as nat == n % 0x100);
    assert(n / 0x100_0000 < 0x100);
    assert(n / 0x1_0000 == (n / 0x100_0000) * 0x100 + n / 0x1_0000 % 0x100);
    assert(n / 0x100 == (n / 0x1_0000) * 0x100 + n / 0x100 % 0x100);
}

/// Decoding gives back what was encoded, whatever follows it, and consumes exactly the encoding.
/// This holds of every body whose length fits into four bytes.
pub proof fn law_decode_encode(body: Seq<u8>, rest: Seq<u8>)
    requires
        body.len() < 0x1_0000_0000,
    ensures
        has_frame(framed(body) + rest),
        frame_body(framed(body) + rest) == body,
        frame_len(framed(body) + rest) == framed(body).len(),
{
    let buf = framed(body) + rest;
    assert(buf =~= be_bytes(body.len()) + (body + rest));
    lemma_be_round_trip(body.len(), body + rest);
    assert(frame_body(buf) =~= body);
}

/// A message is not taken for whole before its last byte has arrived.
pub proof fn law_partial_message_waits(body: Seq<u8>, n: int)
    requires
        body.len() < 0x1_0000_0000,
        0 <= n < framed(body).len(),
    ensures
        !has_frame(framed(body).take(n)),
{
    if n >= 4 {
        let buf = framed(body).take(n);
        assert(buf =~= be_bytes(body.len()) + body.take(n - 4));
        lemma_be_round_trip(body.len(), body.take(n - 4));
    }
}

/// It makes no difference to the messages, nor to what is left, in how many pieces a stream
/// arrives: `b` may come before or after the messages in `a` have been taken off.
pub proof fn law_pieces_do_not_matter(a: Seq<u8>, b: Seq<u8>)
    ensures
        messages(a + b) == messages(a) + messages(leftover(a) + b),
        leftover(a + b) == leftover(leftover(a) + b),
    decreases a.len(),
{
    if has_frame(a) {
        let n = frame_len(a);
        assert(be_prefix(a + b) == be_prefix(a));
        assert(frame_body(a + b) =~= frame_body(a));
        assert((a + b).skip(n) =~= a.skip(n) + b);
        law_pieces_do_not_matter(a.skip(n), b);
        assert(messages(a + b) =~= messages(a) + messages(leftover(a) + b));
    } else {
        assert(messages(a + b) =~= messages(a) + messages(leftover(a) + b));
    }
}

/// The bytes of several messages in a row.
pub open spec fn framed_all(bodies: Seq<Seq<u8>>) -> Seq<u8>
    decreases bodies.len(),
{
    if bodies.len() == 0 {
        Seq::empty()
    } else {
        framed(bodies[0]) + framed_all(bodies.drop_first())
    }
}

/// The first message of a stream is taken off as it was framed.
proof fn lemma_first_message(body: Seq<u8>, rest: Seq<u8>)
    requires
        body.len() < 0x1_0000_0000,
    ensures
        messages(framed(body) + rest) == seq![body] + messages(rest),
        leftover(framed(body) + rest) == leftover(rest),
{
    law_decode_encode(body, rest);
    let stream = framed(body) + rest;
    assert(stream.skip(frame_len(stream)) =~= rest);
}

/// A stream of messages is taken apart into exactly those messages, with nothing left.
pub proof fn law_messages_arrive(bodies: Seq<Seq<u8>>)
    requires
        forall|i: int| 0 <= i < bodies.len() ==> (#[trigger] bodies[i]).len() < 0x1_0000_0000,
    ensures
        messages(framed_all(bodies)) == bodies,
        leftover(framed_all(bodies)) == Seq::<u8>::empty(),
    decreases bodies.len(),
{
    if bodies.len() > 0 {
        let rest = bodies.drop_first();
        assert forall|i: int| 0 <= i < rest.len() implies (#[trigger] rest[i]).len()
            < 0x1_0000_0000 by {
            assert(rest[i] == bodies[i + 1]);
        }
        law_messages_arrive(rest);
        lemma_first_message(bodies[0], framed_all(rest));
        assert(bodies =~= seq![bodies[0]] + rest);
    } else {
        assert(messages(framed_all(bodies)) =~= bodies);
    }
}

} // verus!
