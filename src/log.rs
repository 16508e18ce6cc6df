use crate::codec::{append_bytes, copy_range};
use crate::error::IggyError;
use crate::partition::{MessageView, PolledMessage, message_views};
use vstd::prelude::*;
use vstd::bytes::{
    spec_u128_from_le_bytes, spec_u128_to_le_bytes, spec_u32_from_le_bytes, spec_u32_to_le_bytes,
    spec_u64_from_le_bytes, spec_u64_to_le_bytes, u128_from_le_bytes, u128_to_le_bytes,
    u32_from_le_bytes, u32_to_le_bytes, u64_from_le_bytes, u64_to_le_bytes,
};

verus! {

/// Bytes of a message record before its payload: offset (8), timestamp (8),
/// id (16) and payload length (4).
pub const RECORD_HEADER_SIZE: usize = 36;

/// A message can be written: its payload length fits in the record header.
pub open spec fn writable(m: MessageView) -> bool {
    m.payload.len() <= u32::MAX
}

/// The record of one message in a segment log: offset, timestamp, id and
/// payload length as little-endian integers, then the payload.
pub open spec fn message_record(m: MessageView) -> Seq<u8> {
    spec_u64_to_le_bytes(m.offset) + spec_u64_to_le_bytes(m.timestamp) + spec_u128_to_le_bytes(m.id)
        + spec_u32_to_le_bytes(m.payload.len() as u32) + m.payload
}

/// The records of messages, one after the other.
pub open spec fn log_bytes(ms: Seq<MessageView>) -> Seq<u8>
    decreases ms.len(),
{
    if ms.len() == 0 {
        Seq::empty()
    } else {
        log_bytes(ms.drop_last()) + message_record(ms.last())
    }
}

/// The message whose record starts at the front of `b`, if `b` is long
/// enough to hold it.
pub open spec fn record_at(b: Seq<u8>) -> Option<MessageView> {
    if b.len() < RECORD_HEADER_SIZE {
        None
    } else {
        let len = spec_u32_from_le_bytes(b.subrange(32, 36)) as int;
        if b.len() < RECORD_HEADER_SIZE + len {
            None
        } else {
            Some(
                MessageView {
                    offset: spec_u64_from_le_bytes(b.subrange(0, 8)),
                    timestamp: spec_u64_from_le_bytes(b.subrange(8, 16)),
                    id: spec_u128_from_le_bytes(b.subrange(16, 32)),
                    payload: b.subrange(36, 36 + len),
                },
            )
        }
    }
}

/// The messages of a segment log; a record cut short makes it corrupted
/// (`None`).
pub open spec fn parse_log(b: Seq<u8>) -> Option<Seq<MessageView>>
    decreases b.len(),
{
    if b.len() == 0 {
        Some(Seq::empty())
    } else {
        match record_at(b) {
            None => None,
            Some(m) => {
                let size = RECORD_HEADER_SIZE + m.payload.len();
                match parse_log(b.subrange(size as int, b.len() as int)) {
                    Some(rest) => Some(seq![m] + rest),
                    None => None,
                }
            },
        }
    }
}

proof fn lemma_record_round_trip(m: MessageView, rest: Seq<u8>)
    requires
        writable(m),
    ensures
        record_at(message_record(m) + rest) == Some(m),
        message_record(m).len() == RECORD_HEADER_SIZE + m.payload.len(),
        (message_record(m) + rest).subrange(message_record(m).len() as int, (message_record(m)
            + rest).len() as int) == rest,
{
    vstd::bytes::lemma_auto_spec_u32_to_from_le_bytes();
    vstd::bytes::lemma_auto_spec_u64_to_from_le_bytes();
    vstd::bytes::lemma_auto_spec_u128_to_from_le_bytes();
    let r = message_record(m);
    let b = r + rest;
    assert(b.subrange(0, 8) =~= spec_u64_to_le_bytes(m.offset));
    assert(b.subrange(8, 16) =~= spec_u64_to_le_bytes(m.timestamp));
    assert(b.subrange(16, 32) =~= spec_u128_to_le_bytes(m.id));
    assert(b.subrange(32, 36) =~= spec_u32_to_le_bytes(m.payload.len() as u32));
    assert(b.subrange(36, 36 + m.payload.len() as int) =~= m.payload);
    assert(b.subrange(r.len() as int, b.len() as int) =~= rest);
}

proof fn lemma_parse_prefix(ms: Seq<MessageView>, rest: Seq<u8>)
    requires
        forall|i: int| 0 <= i < ms.len() ==> writable(#[trigger] ms[i]),
        parse_log(rest) is Some,
    ensures
        parse_log(log_bytes(ms) + rest) == Some(ms + parse_log(rest)->Some_0),
    decreases ms.len(),
{
    if ms.len() == 0 {
        assert(log_bytes(ms) + rest =~= rest);
        assert(ms + parse_log(rest)->Some_0 =~= parse_log(rest)->Some_0);
    } else {
        let init = ms.drop_last();
        let m = ms.last();
        assert(writable(ms[ms.len() - 1]));
        lemma_record_round_trip(m, rest);
        let tail = message_record(m) + rest;
        assert(tail.len() > 0);
        assert(parse_log(tail) == Some(seq![m] + parse_log(rest)->Some_0));
        assert forall|i: int| 0 <= i < init.len() implies writable(#[trigger] init[i]) by {
            assert(init[i] == ms[i]);
        }
        lemma_parse_prefix(init, tail);
        assert(log_bytes(ms) + rest =~= log_bytes(init) + tail);
        assert(init + (seq![m] + parse_log(rest)->Some_0) =~= ms + parse_log(rest)->Some_0);
    }
}

/// Restart durability: reading back the log that the appended messages were
/// written to gives exactly those messages, in order.
pub proof fn lemma_log_round_trip(ms: Seq<MessageView>)
    requires
        forall|i: int| 0 <= i < ms.len() ==> writable(#[trigger] ms[i]),
    ensures
        parse_log(log_bytes(ms)) == Some(ms),
{
    assert(parse_log(Seq::<u8>::empty()) == Some(Seq::<MessageView>::empty()));
    lemma_parse_prefix(ms, Seq::empty());
    assert(log_bytes(ms) + Seq::<u8>::empty() =~= log_bytes(ms));
    assert(ms + Seq::<MessageView>::empty() =~= ms);
}

/// Writes the records of `messages`, in order.
pub fn encode_messages(messages: &Vec<PolledMessage>) -> (r: Vec<u8>)
    requires
        forall|i: int| 0 <= i < messages@.len() ==> writable(#[trigger] messages@[i]@),
    ensures
        r@ == log_bytes(message_views(messages@)),
{
    let ghost ms = message_views(messages@);
    let mut out: Vec<u8> = Vec::new();
    let mut i: usize = 0;
    proof {
        assert(ms.take(0) =~= Seq::<MessageView>::empty());
    }
    while i < messages.len()
        invariant
            ms == message_views(messages@),
            i <= messages@.len(),
            forall|j: int| 0 <= j < messages@.len() ==> writable(#[trigger] messages@[j]@),
            out@ == log_bytes(ms.take(i as int)),
        decreases messages@.len() - i,
    {
        let m = &messages[i];
        assert(writable(messages@[i as int]@));
        append_bytes(&mut out, u64_to_le_bytes(m.offset).as_slice());
        append_bytes(&mut out, u64_to_le_bytes(m.timestamp).as_slice());
        append_bytes(&mut out, u128_to_le_bytes(m.id).as_slice());
        append_bytes(&mut out, u32_to_le_bytes(m.payload.len() as u32).as_slice());
        append_bytes(&mut out, m.payload.as_slice());
        proof {
            let t = ms.take(i + 1);
            assert(t.drop_last() =~= ms.take(i as int));
            assert(t.last() == m@);
            assert(out@ =~= log_bytes(ms.take(i as int)) + message_record(m@));
        }
        i += 1;
    }
    proof {
        assert(ms.take(i as int) =~= ms);
    }
    out
}

/// Reads the messages of a segment log; a record cut short is
/// `FileCorrupted`.
pub fn decode_messages(bytes: &[u8]) -> (r: Result<Vec<PolledMessage>, IggyError>)
    ensures
        parse_log(bytes@) is None ==> r == Err::<Vec<PolledMessage>, IggyError>(
            IggyError::FileCorrupted,
        ),
        parse_log(bytes@) matches Some(ms) ==> r is Ok && message_views(r->Ok_0@) == ms,
{
    let ghost b = bytes@;
    let mut out: Vec<PolledMessage> = Vec::new();
    let mut pos: usize = 0;
    let n = bytes.len();
    proof {
        assert(b.subrange(0, n as int) =~= b);
        assert(message_views(out@) =~= Seq::<MessageView>::empty());
        if let Some(all) = parse_log(b) {
            assert(Seq::<MessageView>::empty() + all =~= all);
        }
    }
    while pos < n
        invariant
            b == bytes@,
            n == b.len(),
            pos <= n,
            parse_log(b) is Some <==> parse_log(b.subrange(pos as int, n as int)) is Some,
            parse_log(b.subrange(pos as int, n as int)) matches Some(rest) ==> parse_log(b) == Some(
                message_views(out@) + rest,
            ),
        decreases n - pos,
    {
        let ghost here = b.subrange(pos as int, n as int);
        if n - pos < RECORD_HEADER_SIZE {
            assert(record_at(here) is None);
            return Err(IggyError::FileCorrupted);
        }
        let offset = u64_from_le_bytes(copy_range(bytes, pos, pos + 8).as_slice());
        let timestamp = u64_from_le_bytes(copy_range(bytes, pos + 8, pos + 16).as_slice());
        let id = u128_from_le_bytes(copy_range(bytes, pos + 16, pos + 32).as_slice());
        let len = u32_from_le_bytes(copy_range(bytes, pos + 32, pos + 36).as_slice()) as usize;
        proof {
            assert(here.subrange(0, 8) =~= b.subrange(pos as int, pos + 8));
            assert(here.subrange(8, 16) =~= b.subrange(pos + 8, pos + 16));
            assert(here.subrange(16, 32) =~= b.subrange(pos + 16, pos + 32));
            assert(here.subrange(32, 36) =~= b.subrange(pos + 32, pos + 36));
        }
        if n - pos - RECORD_HEADER_SIZE < len {
            assert(record_at(here) is None);
            return Err(IggyError::FileCorrupted);
        }
        let payload = copy_range(bytes, pos + 36, pos + 36 + len);
        let m = PolledMessage { id, offset, timestamp, payload };
        let ghost before = out@;
        out.push(m);
        proof {
            assert(here.subrange(36, 36 + len) =~= b.subrange(pos + 36, pos + 36 + len));
            assert(record_at(here) == Some(m@));
            let next = pos + 36 + len;
            assert(here.subrange(36 + len, here.len() as int) =~= b.subrange(next as int, n as int));
            assert(message_views(out@) =~= message_views(before).push(m@));
            if let Some(rest) = parse_log(b.subrange(next as int, n as int)) {
                assert(parse_log(here) == Some(seq![m@] + rest));
                assert(message_views(before) + (seq![m@] + rest) =~= message_views(out@) + rest);
            }
        }
        pos = pos + 36 + len;
    }
    proof {
        assert(b.subrange(pos as int, n as int) =~= Seq::<u8>::empty());
        assert(message_views(out@) + Seq::<MessageView>::empty() =~= message_views(out@));
    }
    Ok(out)
}

} // verus!
