//! Messages between the server and the dashboard.

use crate::protocol::{
    consumed_len, decode, encode, framed, law_decode_encode, prefix_len, FrameReader,
};
use vstd::prelude::*;

verus! {

/// The number in the first four bytes, the highest first.
pub open spec fn announced(buf: Seq<u8>) -> int {
    buf[0] * 16777216 + buf[1] * 65536 + buf[2] * 256 + buf[3]
}

/// Whether `buf` begins with a number and as many bytes behind it.
pub open spec fn is_whole(buf: Seq<u8>) -> bool {
    4 <= buf.len() && 4 + announced(buf) <= buf.len()
}

/// A message is its length in four bytes and its body behind them.
pub proof fn law_encode(body: &[u8], r: Vec<u8>, i: int)
    requires
        call_ensures(encode, (body,), r),
    ensures
        r@.len() == 4 + body@.len(),
        0 <= i < body@.len() ==> r@[4 + i] == body@[i],
        body@.len() <= 0xffff_ffff ==> announced(r@) == body@.len(),
{
    if body@.len() <= 0xffff_ffff {
        law_decode_encode(body@, Seq::empty());
        assert(framed(body@) + Seq::<u8>::empty() =~= framed(body@));
    }
}

/// The length is read off four bytes, once they are there.
pub proof fn law_prefix_len(buf: &[u8], r: Option<usize>)
    requires
        call_ensures(prefix_len, (buf,), r),
    ensures
        r is Some <==> buf@.len() >= 4,
        r is Some ==> r->0 == announced(buf@),
{
}

/// The body of a whole message is what lies behind its length.
pub proof fn law_decode(buf: &[u8], r: Option<Vec<u8>>, i: int)
    requires
        call_ensures(decode, (buf,), r),
    ensures
        r is Some <==> is_whole(buf@),
        r is Some ==> r->0@.len() == announced(buf@),
        r is Some && 0 <= i < announced(buf@) ==> r->0@[i] == buf@[4 + i],
{
}

/// A whole message takes four bytes more than its body.
pub proof fn law_consumed_len(buf: &[u8], r: Option<usize>)
    requires
        call_ensures(consumed_len, (buf,), r),
    ensures
        r is Some <==> is_whole(buf@),
        r is Some ==> r->0 == 4 + announced(buf@),
{
}

/// What was encoded is decoded again, whatever follows it, and exactly its bytes are consumed.
pub proof fn law_encode_then_decode(
    body: &[u8],
    bytes: Vec<u8>,
    rest: Seq<u8>,
    buf: &[u8],
    decoded: Option<Vec<u8>>,
    consumed: Option<usize>,
)
    requires
        call_ensures(encode, (body,), bytes),
        body@.len() <= 0xffff_ffff,
        buf@ == bytes@ + rest,
        call_ensures(decode, (buf,), decoded),
        call_ensures(consumed_len, (buf,), consumed),
    ensures
        decoded is Some,
        decoded->0@ == body@,
        consumed is Some,
        consumed->0 == bytes@.len(),
{
    law_decode_encode(body@, rest);
}

/// What arrives is appended to what has arrived.
pub proof fn law_feed(reader: &mut FrameReader, bytes: &[u8])
    requires
        call_ensures(FrameReader::feed, (reader, bytes), ()),
    ensures
        final(reader).buf@ == old(reader).buf@ + bytes@,
{
}

/// A message is taken off once it is whole, and nothing else is.
pub proof fn law_next_body(reader: &mut FrameReader, r: Option<Vec<u8>>)
    requires
        call_ensures(FrameReader::next_body, (reader,), r),
    ensures
        ({
            let before = old(reader).buf@;
            let after = final(reader).buf@;
            &&& r is Some <==> is_whole(before)
            &&& r is None ==> after == before
            &&& r is Some ==> {
                &&& r->0@.len() == announced(before)
                &&& before == before.take(4) + r->0@ + after
            }
        }),
{
    let before = old(reader).buf@;
    if r is Some {
        assert(before =~= before.take(4) + r->0@ + final(reader).buf@);
    }
}

/// A message that is fed to a reader with nothing left comes out whole, with nothing left behind it.
pub proof fn law_feed_then_next_body(
    body: &[u8],
    bytes: Vec<u8>,
    piece: &[u8],
    fed: &mut FrameReader,
    read: &mut FrameReader,
    r: Option<Vec<u8>>,
)
    requires
        call_ensures(encode, (body,), bytes),
        body@.len() <= 0xffff_ffff,
        piece@ == bytes@,
        old(fed).buf@.len() == 0,
        call_ensures(FrameReader::feed, (fed, piece), ()),
        *old(read) == *final(fed),
        call_ensures(FrameReader::next_body, (read,), r),
    ensures
        r is Some,
        r->0@ == body@,
        final(read).buf@.len() == 0,
{
    law_decode_encode(body@, Seq::empty());
    assert(final(fed).buf@ =~= framed(body@) + Seq::<u8>::empty());
}

/// Nothing is left after a discard, nor in a new reader.
pub proof fn law_discard(reader: &mut FrameReader, fresh: FrameReader)
    requires
        call_ensures(FrameReader::discard, (reader,), ()),
        call_ensures(FrameReader::new, (), fresh),
    ensures
        final(reader).buf@.len() == 0,
        fresh.buf@.len() == 0,
{
}

} // verus!
