use crate::codec::copy_range;
use crate::error::IggyError;
use std::collections::HashMap;
use vstd::prelude::*;

verus! {

broadcast use vstd::std_specs::hash::group_hash_axioms;

/// Bytes that a stored message takes besides its payload: id (16), offset (8),
/// timestamp (8) and payload length (4).
pub const MESSAGE_HEADER_SIZE: u64 = 36;

/// A message handed in for appending.
#[derive(Debug, Clone, PartialEq, Eq)]
pub struct Message {
    pub id: u128,
    pub payload: Vec<u8>,
}

/// What an appended message is: its id and its payload.
pub struct MessageInput {
    pub id: u128,
    pub payload: Seq<u8>,
}

impl View for Message {
    type V = MessageInput;

    open spec fn view(&self) -> MessageInput {
        MessageInput { id: self.id, payload: self.payload@ }
    }
}

pub open spec fn inputs(ms: Seq<Message>) -> Seq<MessageInput> {
    ms.map_values(|m: Message| m@)
}

/// A stored message, as a poll returns it.
#[derive(Debug, Clone, PartialEq, Eq)]
pub struct PolledMessage {
    pub id: u128,
    pub offset: u64,
    pub timestamp: u64,
    pub payload: Vec<u8>,
}

pub struct MessageView {
    pub id: u128,
    pub offset: u64,
    pub timestamp: u64,
    pub payload: Seq<u8>,
}

impl View for PolledMessage {
    type V = MessageView;

    open spec fn view(&self) -> MessageView {
        MessageView {
            id: self.id,
            offset: self.offset,
            timestamp: self.timestamp,
            payload: self.payload@,
        }
    }
}

pub open spec fn message_views(ms: Seq<PolledMessage>) -> Seq<MessageView> {
    ms.map_values(|m: PolledMessage| m@)
}

/// Bytes that a batch of payloads takes in a segment.
pub open spec fn batch_size(ms: Seq<MessageInput>) -> nat
    decreases ms.len(),
{
    if ms.len() == 0 {
        0
    } else {
        batch_size(ms.drop_last()) + MESSAGE_HEADER_SIZE as nat + ms.last().payload.len()
    }
}

/// `x`, held at `u64::MAX`.
pub open spec fn saturated(x: nat) -> u64 {
    if x > u64::MAX {
        u64::MAX
    } else {
        x as u64
    }
}

/// One segment of a partition: the offsets `[start_offset, start_offset +
/// messages_count)` and the bytes they take. Only the last segment is open.
#[derive(Debug, Clone, Copy, PartialEq, Eq, Structural)]
pub struct SegmentInfo {
    pub start_offset: u64,
    pub messages_count: u64,
    pub size_bytes: u64,
    pub closed: bool,
}

/// How a poll picks its first offset.
#[derive(Debug, Clone, Copy, PartialEq, Eq, Structural)]
pub enum PollingStrategy {
    Offset(u64),
    Timestamp(u64),
    First,
    Last(u64),
    Next,
}

/// What a poll returns: the messages, the partition they come from and the
/// partition's next offset.
#[derive(Debug, Clone, PartialEq, Eq)]
pub struct PolledMessages {
    pub partition_id: u32,
    pub current_offset: u64,
    pub messages: Vec<PolledMessage>,
}

pub struct PartitionView {
    pub partition_id: u32,
    pub first_offset: u64,
    pub next_offset: u64,
    pub messages: Seq<MessageView>,
    pub segments: Seq<SegmentInfo>,
    pub consumer_offsets: Map<u64, u64>,
    pub segment_size_limit: u64,
}

/// The retained messages carry the offsets `first_offset .. next_offset`, one
/// each, in order, with non-decreasing timestamps.
pub open spec fn offsets_contiguous(v: PartitionView) -> bool {
    &&& v.first_offset + v.messages.len() == v.next_offset
    &&& forall|i: int| 0 <= i < v.messages.len() ==> #[trigger] v.messages[i].offset == v.first_offset + i
    &&& forall|i: int, j: int|
        0 <= i <= j < v.messages.len() ==> #[trigger] v.messages[i].timestamp
            <= #[trigger] v.messages[j].timestamp
}

/// The segments cover `first .. next` back to back; all but the last are closed.
pub open spec fn segments_cover(segs: Seq<SegmentInfo>, first: u64, next: u64) -> bool {
    &&& segs.len() >= 1
    &&& segs[0].start_offset == first
    &&& forall|i: int|
        0 <= i < segs.len() - 1 ==> {
            &&& #[trigger] segs[i].closed
            &&& segs[i + 1].start_offset == segs[i].start_offset + segs[i].messages_count
        }
    &&& segs.last().start_offset + segs.last().messages_count == next
    &&& !segs.last().closed
}

pub open spec fn partition_inv(v: PartitionView) -> bool {
    offsets_contiguous(v) && segments_cover(v.segments, v.first_offset, v.next_offset)
}

/// Index of the first retained message at or after `offset`.
pub open spec fn index_of_offset(v: PartitionView, offset: int) -> int {
    if offset <= v.first_offset {
        0
    } else if offset >= v.next_offset {
        v.messages.len() as int
    } else {
        offset - v.first_offset
    }
}

/// Index of the first message, from `i` on, whose timestamp is at least `t`.
pub open spec fn index_of_timestamp(ms: Seq<MessageView>, t: u64, i: int) -> int
    decreases ms.len() - i,
{
    if i >= ms.len() {
        ms.len() as int
    } else if ms[i].timestamp >= t {
        i
    } else {
        index_of_timestamp(ms, t, i + 1)
    }
}

/// Index of the first message that a poll with `strategy` by `consumer` returns.
pub open spec fn poll_start(v: PartitionView, consumer: u64, strategy: PollingStrategy) -> int {
    match strategy {
        PollingStrategy::Offset(o) => index_of_offset(v, o as int),
        PollingStrategy::Timestamp(t) => index_of_timestamp(v.messages, t, 0),
        PollingStrategy::First => 0,
        PollingStrategy::Last(n) => if n >= v.messages.len() {
            0
        } else {
            v.messages.len() - n
        },
        PollingStrategy::Next => if v.consumer_offsets.contains_key(consumer) {
            index_of_offset(v, v.consumer_offsets[consumer] + 1)
        } else {
            0
        },
    }
}

/// The messages that a poll returns: at most `count`, from the start index on.
pub open spec fn poll_result(
    v: PartitionView,
    consumer: u64,
    strategy: PollingStrategy,
    count: u32,
) -> Seq<MessageView> {
    let s = poll_start(v, consumer, strategy);
    let e = if s + count > v.messages.len() {
        v.messages.len() as int
    } else {
        s + count
    };
    v.messages.subrange(s, e)
}

/// The stored form of the `i`-th message of a batch appended at `base` at time `ts`.
pub open spec fn stored_message(m: MessageInput, base: u64, i: int, ts: u64) -> MessageView {
    MessageView { id: m.id, offset: (base + i) as u64, timestamp: ts, payload: m.payload }
}

/// The messages that appending `ms` at offset `base` and time `ts` adds.
pub open spec fn stored_batch(ms: Seq<MessageInput>, base: u64, ts: u64) -> Seq<MessageView> {
    Seq::new(ms.len(), |i: int| stored_message(ms[i], base, i, ts))
}

/// The timestamp given to an appended batch: the time of the append, or the
/// newest stored timestamp if that is later.
pub open spec fn append_timestamp(v: PartitionView, now: u64) -> u64 {
    if v.messages.len() > 0 && v.messages.last().timestamp > now {
        v.messages.last().timestamp
    } else {
        now
    }
}

/// The segments after appending `n` messages of `bytes` bytes: the open
/// segment grows, and is closed and followed by a new empty one once it
/// reaches `limit` bytes.
pub open spec fn segments_after_append(
    segs: Seq<SegmentInfo>,
    n: u64,
    bytes: nat,
    limit: u64,
) -> Seq<SegmentInfo> {
    let last = segs.last();
    let grown = SegmentInfo {
        start_offset: last.start_offset,
        messages_count: (last.messages_count + n) as u64,
        size_bytes: saturated(last.size_bytes as nat + bytes),
        closed: false,
    };
    if grown.size_bytes >= limit {
        segs.drop_last().push(SegmentInfo { closed: true, ..grown }).push(
            SegmentInfo {
                start_offset: (grown.start_offset + grown.messages_count) as u64,
                messages_count: 0,
                size_bytes: 0,
                closed: false,
            },
        )
    } else {
        segs.drop_last().push(grown)
    }
}

proof fn lemma_segments_after_append(
    segs: Seq<SegmentInfo>,
    first: u64,
    next: u64,
    n: u64,
    bytes: nat,
    limit: u64,
)
    requires
        segments_cover(segs, first, next),
        next + n <= u64::MAX,
    ensures
        segments_cover(segments_after_append(segs, n, bytes, limit), first, (next + n) as u64),
{
    let r = segments_after_append(segs, n, bytes, limit);
    let k = segs.len() - 1;
    assert forall|i: int| 0 <= i < r.len() - 1 implies {
        &&& #[trigger] r[i].closed
        &&& r[i + 1].start_offset == r[i].start_offset + r[i].messages_count
    } by {
        if i < k {
            assert(r[i] == segs[i]);
            if i + 1 < k {
                assert(r[i + 1] == segs[i + 1]);
            } else {
                assert(r[i + 1].start_offset == segs[k].start_offset);
            }
        }
    }
}

proof fn lemma_index_of_timestamp_bounds_at(ms: Seq<MessageView>, t: u64, i: int)
    requires
        0 <= i <= ms.len(),
    ensures
        i <= index_of_timestamp(ms, t, i) <= ms.len(),
    decreases ms.len() - i,
{
    if i < ms.len() && ms[i].timestamp < t {
        lemma_index_of_timestamp_bounds_at(ms, t, i + 1);
    }
}

proof fn lemma_index_of_timestamp_bounds(ms: Seq<MessageView>, i: int)
    ensures
        forall|t: u64| 0 <= i <= ms.len() ==> i <= #[trigger] index_of_timestamp(ms, t, i) <= ms.len(),
{
    assert forall|t: u64| 0 <= i <= ms.len() implies i <= #[trigger] index_of_timestamp(ms, t, i) <= ms.len() by {
        lemma_index_of_timestamp_bounds_at(ms, t, i);
    }
}

/// The partition after appending the batch `ms` at time `now`.
pub open spec fn appended(v: PartitionView, ms: Seq<MessageInput>, now: u64) -> PartitionView {
    PartitionView {
        next_offset: (v.next_offset + ms.len()) as u64,
        messages: v.messages + stored_batch(ms, v.next_offset, append_timestamp(v, now)),
        segments: segments_after_append(v.segments, ms.len() as u64, batch_size(ms), v.segment_size_limit),
        ..v
    }
}

/// Append/poll round trip: after a batch of `N` messages is appended to an
/// empty partition, a poll from offset 0 for at least `N` messages returns
/// exactly those messages, in order, with offsets `0 .. N - 1`.
pub proof fn lemma_append_poll_round_trip(
    v: PartitionView,
    ms: Seq<MessageInput>,
    now: u64,
    consumer: u64,
    count: u32,
)
    requires
        partition_inv(v),
        v.next_offset == 0,
        0 < ms.len() <= count,
    ensures
        ({
            let polled = poll_result(appended(v, ms, now), consumer, PollingStrategy::Offset(0), count);
            &&& polled.len() == ms.len()
            &&& forall|i: int|
                0 <= i < ms.len() ==> {
                    &&& #[trigger] polled[i].offset == i
                    &&& polled[i].id == ms[i].id
                    &&& polled[i].payload == ms[i].payload
                }
        }),
{
    let w = appended(v, ms, now);
    assert(v.messages.len() == 0);
    assert(w.messages =~= stored_batch(ms, 0, append_timestamp(v, now)));
    let polled = poll_result(w, consumer, PollingStrategy::Offset(0), count);
    assert(polled =~= w.messages);
}

/// Offsets are contiguous and increasing: a later message has a greater
/// offset, exactly as many greater as it stands further on, so there are
/// neither duplicates nor gaps.
pub proof fn lemma_offsets_contiguous(v: PartitionView, i: int, j: int)
    requires
        partition_inv(v),
        0 <= i < j < v.messages.len(),
    ensures
        v.messages[i].offset < v.messages[j].offset,
        v.messages[j].offset - v.messages[i].offset == j - i,
        v.messages[j].offset < v.next_offset,
{
    assert(v.messages[i].offset == v.first_offset + i);
    assert(v.messages[j].offset == v.first_offset + j);
}

/// Every message of segment `i` has expired at `now`: the segment is not
/// empty, and its newest message is at least `expiry` old.
pub open spec fn segment_expired(v: PartitionView, i: int, now: u64, expiry: u64) -> bool {
    let seg = v.segments[i];
    let last = seg.start_offset + seg.messages_count - 1 - v.first_offset;
    &&& seg.messages_count > 0
    &&& v.messages[last].timestamp + expiry <= now
}

/// Number of leading segments that have expired, from segment `i` on.
pub open spec fn expired_prefix(v: PartitionView, now: u64, expiry: u64, i: int) -> int
    decreases v.segments.len() - i,
{
    if i >= v.segments.len() || i < 0 {
        i
    } else if segment_expired(v, i, now, expiry) {
        expired_prefix(v, now, expiry, i + 1)
    } else {
        i
    }
}

/// The partition after the leading fully expired segments are deleted. When
/// every segment has expired, an empty open segment at the next offset stays.
pub open spec fn without_expired(v: PartitionView, now: u64, expiry: u64) -> PartitionView {
    let j = expired_prefix(v, now, expiry, 0);
    if j >= v.segments.len() {
        PartitionView {
            first_offset: v.next_offset,
            messages: Seq::empty(),
            segments: seq![
                SegmentInfo {
                    start_offset: v.next_offset,
                    messages_count: 0,
                    size_bytes: 0,
                    closed: false,
                },
            ],
            ..v
        }
    } else {
        let start = v.segments[j].start_offset;
        PartitionView {
            first_offset: start,
            messages: v.messages.subrange(start - v.first_offset, v.messages.len() as int),
            segments: v.segments.subrange(j, v.segments.len() as int),
            ..v
        }
    }
}

proof fn lemma_segment_starts(segs: Seq<SegmentInfo>, first: u64, next: u64, i: int)
    requires
        segments_cover(segs, first, next),
        0 <= i < segs.len(),
    ensures
        first <= segs[i].start_offset,
        segs[i].start_offset + segs[i].messages_count <= next,
    decreases segs.len() - i,
{
    if i < segs.len() - 1 {
        assert(segs[i].closed);
        lemma_segment_starts(segs, first, next, i + 1);
    }
    lemma_segment_starts_low(segs, first, next, i);
}

proof fn lemma_segment_starts_low(segs: Seq<SegmentInfo>, first: u64, next: u64, i: int)
    requires
        segments_cover(segs, first, next),
        0 <= i < segs.len(),
    ensures
        first <= segs[i].start_offset,
    decreases i,
{
    if i > 0 {
        assert(segs[i - 1].closed);
        lemma_segment_starts_low(segs, first, next, i - 1);
    }
}

/// Every polled message carries an offset below the partition's next offset.
pub proof fn lemma_polled_offsets(v: PartitionView, consumer: u64, strategy: PollingStrategy, count: u32)
    requires
        partition_inv(v),
    ensures
        forall|k: int|
            0 <= k < poll_result(v, consumer, strategy, count).len() ==> #[trigger] poll_result(
                v,
                consumer,
                strategy,
                count,
            )[k].offset < v.next_offset,
{
    let s = poll_start(v, consumer, strategy);
    if let PollingStrategy::Timestamp(t) = strategy {
        lemma_index_of_timestamp_bounds_at(v.messages, t, 0);
    }
    assert(0 <= s <= v.messages.len());
    let r = poll_result(v, consumer, strategy, count);
    assert forall|k: int| 0 <= k < r.len() implies #[trigger] r[k].offset < v.next_offset by {
        assert(r[k] == v.messages[s + k]);
    }
}

/// Bytes that stored messages take in a segment.
pub open spec fn stored_size(ms: Seq<MessageView>) -> nat
    decreases ms.len(),
{
    if ms.len() == 0 {
        0
    } else {
        stored_size(ms.drop_last()) + MESSAGE_HEADER_SIZE as nat + ms.last().payload.len()
    }
}

/// Messages read back from a log can form a partition: their offsets run on
/// from the first one without gaps, and their timestamps never decrease.
pub open spec fn loadable(ms: Seq<MessageView>) -> bool {
    &&& ms.len() > 0 ==> ms[0].offset + ms.len() <= u64::MAX
    &&& forall|i: int| 0 <= i < ms.len() ==> #[trigger] ms[i].offset == ms[0].offset + i
    &&& forall|i: int, j: int|
        0 <= i <= j < ms.len() ==> #[trigger] ms[i].timestamp <= #[trigger] ms[j].timestamp
}

/// Restart durability: the messages of a partition, written to its log and
/// read back, are the same messages, they can form a partition again, and
/// that partition's next offset is the one it had.
pub proof fn lemma_restart(v: PartitionView)
    requires
        partition_inv(v),
        forall|i: int| 0 <= i < v.messages.len() ==> crate::log::writable(#[trigger] v.messages[i]),
    ensures
        crate::log::parse_log(crate::log::log_bytes(v.messages)) == Some(v.messages),
        loadable(v.messages),
        v.messages.len() > 0 ==> v.messages[0].offset + v.messages.len() == v.next_offset,
{
    crate::log::lemma_log_round_trip(v.messages);
}

/// A partition: an append-only sequence of messages identified by offset,
/// stored in segments, with the offsets that consumers have stored.
#[derive(Debug)]
pub struct Partition {
    partition_id: u32,
    first_offset: u64,
    next_offset: u64,
    messages: Vec<PolledMessage>,
    segments: Vec<SegmentInfo>,
    consumer_offsets: HashMap<u64, u64>,
    segment_size_limit: u64,
}

impl View for Partition {
    type V = PartitionView;

    closed spec fn view(&self) -> PartitionView {
        PartitionView {
            partition_id: self.partition_id,
            first_offset: self.first_offset,
            next_offset: self.next_offset,
            messages: message_views(self.messages@),
            segments: self.segments@,
            consumer_offsets: self.consumer_offsets@,
            segment_size_limit: self.segment_size_limit,
        }
    }
}

/// A copy of a stored message.
fn copy_message(m: &PolledMessage) -> (r: PolledMessage)
    ensures
        r@ == m@,
{
    let payload = copy_range(m.payload.as_slice(), 0, m.payload.len());
    assert(m.payload@.subrange(0, m.payload@.len() as int) =~= m.payload@);
    PolledMessage { id: m.id, offset: m.offset, timestamp: m.timestamp, payload }
}

impl Partition {
    pub open spec fn wf(&self) -> bool {
        partition_inv(self@)
    }

    /// An empty partition whose segments close once they reach
    /// `segment_size_limit` bytes.
    pub fn new(partition_id: u32, segment_size_limit: u64) -> (r: Partition)
        ensures
            r.wf(),
            r@.partition_id == partition_id,
            r@.first_offset == 0,
            r@.next_offset == 0,
            r@.messages.len() == 0,
            r@.consumer_offsets == Map::<u64, u64>::empty(),
            r@.segment_size_limit == segment_size_limit,
            r@.segments == seq![
                SegmentInfo { start_offset: 0, messages_count: 0, size_bytes: 0, closed: false },
            ],
    {
        let mut segments: Vec<SegmentInfo> = Vec::new();
        segments.push(SegmentInfo { start_offset: 0, messages_count: 0, size_bytes: 0, closed: false });
        let r = Partition {
            partition_id,
            first_offset: 0,
            next_offset: 0,
            messages: Vec::new(),
            segments,
            consumer_offsets: HashMap::new(),
            segment_size_limit,
        };
        assert(r@.segments =~= seq![
            SegmentInfo { start_offset: 0, messages_count: 0, size_bytes: 0, closed: false },
        ]);
        assert(r@.messages =~= Seq::<MessageView>::empty());
        r
    }

    /// The partition that holds `messages` read back from its log, in one
    /// open segment; messages that cannot form a partition are
    /// `FileCorrupted`. With no messages the partition is empty at offset 0.
    pub fn load(partition_id: u32, segment_size_limit: u64, messages: Vec<PolledMessage>) -> (r:
        Result<Partition, IggyError>)
        ensures
            !loadable(message_views(messages@)) ==> r == Err::<Partition, IggyError>(
                IggyError::FileCorrupted,
            ),
            loadable(message_views(messages@)) ==> r is Ok && {
                let p = r->Ok_0@;
                let ms = message_views(messages@);
                let first = if ms.len() > 0 {
                    ms[0].offset
                } else {
                    0
                };
                &&& r->Ok_0.wf()
                &&& p.partition_id == partition_id
                &&& p.messages == ms
                &&& p.first_offset == first
                &&& p.next_offset == first + ms.len()
                &&& p.segments == seq![
                    SegmentInfo {
                        start_offset: first,
                        messages_count: ms.len() as u64,
                        size_bytes: saturated(stored_size(ms)),
                        closed: false,
                    },
                ]
                &&& p.consumer_offsets == Map::<u64, u64>::empty()
                &&& p.segment_size_limit == segment_size_limit
            },
    {
        let ghost ms = message_views(messages@);
        let n = messages.len();
        let first: u64 = if n > 0 {
            messages[0].offset
        } else {
            0
        };
        if n > 0 && n as u64 > u64::MAX - first {
            return Err(IggyError::FileCorrupted);
        }
        let mut size: u64 = 0;
        let mut i: usize = 0;
        proof {
            assert(ms.take(0) =~= Seq::<MessageView>::empty());
        }
        while i < n
            invariant
                ms == message_views(messages@),
                n == ms.len(),
                i <= n,
                n > 0 ==> first == ms[0].offset,
                n > 0 ==> first + n <= u64::MAX,
                forall|j: int| 0 <= j < i ==> #[trigger] ms[j].offset == first + j,
                forall|a: int, b: int| 0 <= a <= b < i ==> #[trigger] ms[a].timestamp <= #[trigger] ms[b].timestamp,
                size == saturated(stored_size(ms.take(i as int))),
            decreases n - i,
        {
            let m = &messages[i];
            if m.offset != first + i as u64 {
                assert(!loadable(ms)) by {
                    assert(ms[i as int].offset != ms[0].offset + i);
                }
                return Err(IggyError::FileCorrupted);
            }
            if i > 0 && messages[i - 1].timestamp > m.timestamp {
                assert(!loadable(ms)) by {
                    assert(ms[i - 1].timestamp > ms[i as int].timestamp);
                }
                return Err(IggyError::FileCorrupted);
            }
            proof {
                assert(ms.take(i + 1).drop_last() =~= ms.take(i as int));
                assert forall|a: int, b: int| 0 <= a <= b < i + 1 implies #[trigger] ms[a].timestamp <= #[trigger] ms[b].timestamp by {
                    if b == i && a < b {
                        assert(ms[a].timestamp <= ms[i - 1].timestamp);
                    }
                }
            }
            size = size.saturating_add(MESSAGE_HEADER_SIZE.saturating_add(m.payload.len() as u64));
            i += 1;
        }
        proof {
            assert(ms.take(n as int) =~= ms);
        }
        let mut segments: Vec<SegmentInfo> = Vec::new();
        segments.push(SegmentInfo { start_offset: first, messages_count: n as u64, size_bytes: size, closed: false });
        let r = Partition {
            partition_id,
            first_offset: first,
            next_offset: first + n as u64,
            messages,
            segments,
            consumer_offsets: HashMap::new(),
            segment_size_limit,
        };
        proof {
            assert(r@.segments =~= seq![
                SegmentInfo { start_offset: first, messages_count: n as u64, size_bytes: size, closed: false },
            ]);
        }
        Ok(r)
    }

    pub fn partition_id(&self) -> (r: u32)
        ensures
            r == self@.partition_id,
    {
        self.partition_id
    }

    /// The offset that the next appended message gets.
    pub fn next_offset(&self) -> (r: u64)
        ensures
            r == self@.next_offset,
    {
        self.next_offset
    }

    /// Number of retained messages.
    pub fn messages_count(&self) -> (r: u64)
        requires
            self.wf(),
        ensures
            r == self@.messages.len(),
    {
        proof {
            assert(self@.messages.len() == self.messages@.len());
        }
        self.messages.len() as u64
    }

    /// Number of segments.
    pub fn segments_count(&self) -> (r: usize)
        ensures
            r == self@.segments.len(),
    {
        self.segments.len()
    }

    /// The offset that `consumer` stored last, if any.
    pub fn get_consumer_offset(&self, consumer: u64) -> (r: Option<u64>)
        ensures
            self@.consumer_offsets.contains_key(consumer) ==> r == Some(
                self@.consumer_offsets[consumer],
            ),
            !self@.consumer_offsets.contains_key(consumer) ==> r is None,
    {
        match self.consumer_offsets.get(&consumer) {
            Some(o) => Some(*o),
            None => None,
        }
    }

    /// Stores the offset that `consumer` has read up to.
    pub fn store_consumer_offset(&mut self, consumer: u64, offset: u64)
        requires
            old(self).wf(),
        ensures
            final(self).wf(),
            final(self)@ == (PartitionView {
                consumer_offsets: old(self)@.consumer_offsets.insert(consumer, offset),
                ..old(self)@
            }),
    {
        self.consumer_offsets.insert(consumer, offset);
    }

    /// Appends a batch at the next offset, stamped with `now` (or with the
    /// newest stored timestamp if that is later). An empty batch is refused,
    /// and so is one whose offsets would not fit in 64 bits.
    pub fn append_messages(&mut self, messages: &Vec<Message>, now: u64) -> (r: Result<(), IggyError>)
        requires
            old(self).wf(),
        ensures
            final(self).wf(),
            messages@.len() == 0 ==> r == Err::<(), IggyError>(IggyError::InvalidMessagesCount),
            messages@.len() > 0 && old(self)@.next_offset + messages@.len() > u64::MAX ==> r == Err::<
                (),
                IggyError,
            >(IggyError::InvalidOffset),
            r is Err ==> final(self)@ == old(self)@,
            messages@.len() > 0 && old(self)@.next_offset + messages@.len() <= u64::MAX ==> {
                &&& r is Ok
                &&& final(self)@ == appended(old(self)@, inputs(messages@), now)
            },
    {
        let n = messages.len();
        if n == 0 {
            return Err(IggyError::InvalidMessagesCount);
        }
        if n as u64 > u64::MAX - self.next_offset {
            return Err(IggyError::InvalidOffset);
        }
        let ghost old_v = self@;
        let ghost old_msgs = self.messages@;
        let ghost ins = inputs(messages@);
        let ts: u64 = if self.messages.len() > 0 && self.messages[self.messages.len() - 1].timestamp
            > now {
            self.messages[self.messages.len() - 1].timestamp
        } else {
            now
        };
        assert(ts == append_timestamp(old_v, now));
        let base = self.next_offset;
        let mut bytes: u64 = 0;
        let mut i: usize = 0;
        while i < n
            invariant
                i <= n,
                n == messages@.len(),
                ins == inputs(messages@),
                base == old_v.next_offset,
                base + n <= u64::MAX,
                partition_inv(old_v),
                old_v.messages.len() == old_msgs.len(),
                self.segments@ == old_v.segments,
                self.first_offset == old_v.first_offset,
                self.next_offset == old_v.next_offset,
                self.partition_id == old_v.partition_id,
                self.consumer_offsets@ == old_v.consumer_offsets,
                self.segment_size_limit == old_v.segment_size_limit,
                message_views(self.messages@) == old_v.messages + stored_batch(
                    ins.subrange(0, i as int),
                    base,
                    ts,
                ),
                bytes == saturated(batch_size(ins.subrange(0, i as int))),
                old_v.messages.len() > 0 ==> old_v.messages.last().timestamp <= ts,
            decreases n - i,
        {
            let m = &messages[i];
            let payload = copy_range(m.payload.as_slice(), 0, m.payload.len());
            assert(m.payload@.subrange(0, m.payload@.len() as int) =~= m.payload@);
            let stored = PolledMessage {
                id: m.id,
                offset: base + i as u64,
                timestamp: ts,
                payload,
            };
            let size = MESSAGE_HEADER_SIZE.saturating_add(m.payload.len() as u64);
            bytes = bytes.saturating_add(size);
            let ghost before = self.messages@;
            self.messages.push(stored);
            proof {
                let pre = ins.subrange(0, i as int);
                let post = ins.subrange(0, i + 1);
                assert(post.drop_last() =~= pre);
                assert(post.last() == messages@[i as int]@);
                assert(stored@ == stored_message(messages@[i as int]@, base, i as int, ts));
                assert(stored_batch(post, base, ts) =~= stored_batch(pre, base, ts).push(stored@));
                assert(self.messages@ == before.push(stored));
                assert(message_views(self.messages@) =~= message_views(before).push(stored@));
                assert(batch_size(post) == batch_size(pre) + MESSAGE_HEADER_SIZE + m.payload@.len());
            }
            i += 1;
        }
        proof {
            assert(ins.subrange(0, n as int) =~= ins);
        }
        self.next_offset = base + n as u64;
        let last_index = self.segments.len() - 1;
        let last = self.segments[last_index];
        let grown = SegmentInfo {
            start_offset: last.start_offset,
            messages_count: last.messages_count + n as u64,
            size_bytes: last.size_bytes.saturating_add(bytes),
            closed: false,
        };
        if grown.size_bytes >= self.segment_size_limit {
            self.segments.set(last_index, SegmentInfo { closed: true, ..grown });
            self.segments.push(
                SegmentInfo {
                    start_offset: grown.start_offset + grown.messages_count,
                    messages_count: 0,
                    size_bytes: 0,
                    closed: false,
                },
            );
        } else {
            self.segments.set(last_index, grown);
        }
        proof {
            let v = self@;
            let sb = stored_batch(ins, base, ts);
            assert(v.segments =~= segments_after_append(
                old_v.segments,
                n as u64,
                batch_size(ins),
                old_v.segment_size_limit,
            ));
            assert(v.messages =~= old_v.messages + sb);
            assert(v.first_offset == old_v.first_offset);
            assert(v.next_offset == old_v.next_offset + n);
            lemma_segments_after_append(
                old_v.segments,
                old_v.first_offset,
                old_v.next_offset,
                n as u64,
                batch_size(ins),
                old_v.segment_size_limit,
            );
            assert forall|a: int| 0 <= a < v.messages.len() implies #[trigger] v.messages[a].offset
                == v.first_offset + a by {
                if a >= old_v.messages.len() {
                    assert(v.messages[a] == sb[a - old_v.messages.len()]);
                }
            }
            assert forall|a: int, b: int|
                0 <= a <= b < v.messages.len() implies #[trigger] v.messages[a].timestamp
                <= #[trigger] v.messages[b].timestamp by {
                if b >= old_v.messages.len() {
                    assert(v.messages[b] == sb[b - old_v.messages.len()]);
                    if a >= old_v.messages.len() {
                        assert(v.messages[a] == sb[a - old_v.messages.len()]);
                    } else {
                        assert(old_v.messages[a].timestamp <= old_v.messages.last().timestamp);
                    }
                }
            }
        }
        Ok(())
    }

    /// Reads up to `count` messages from the start that `strategy` picks.
    pub fn get_messages(&self, consumer: u64, strategy: PollingStrategy, count: u32) -> (r:
        PolledMessages)
        requires
            self.wf(),
        ensures
            r.partition_id == self@.partition_id,
            r.current_offset == self@.next_offset,
            message_views(r.messages@) == poll_result(self@, consumer, strategy, count),
    {
        let len = self.messages.len();
        proof {
            assert(self@.messages.len() == len);
        }
        let start: usize = match strategy {
            PollingStrategy::Offset(o) => self.index_of_offset(o),
            PollingStrategy::Timestamp(t) => self.index_of_timestamp(t),
            PollingStrategy::First => 0,
            PollingStrategy::Last(n) => if n >= len as u64 {
                0
            } else {
                len - n as usize
            },
            PollingStrategy::Next => match self.consumer_offsets.get(&consumer) {
                Some(o) => if *o == u64::MAX {
                    len
                } else {
                    self.index_of_offset(*o + 1)
                },
                None => 0,
            },
        };
        assert(start == poll_start(self@, consumer, strategy));
        proof {
            lemma_index_of_timestamp_bounds(self@.messages, 0);
            if let PollingStrategy::Timestamp(t) = strategy {
                lemma_index_of_timestamp_bounds_at(self@.messages, t, 0);
            }
        }
        assert(start <= len);
        let end: usize = if count as usize > len - start {
            len
        } else {
            start + count as usize
        };
        let mut out: Vec<PolledMessage> = Vec::new();
        let mut i: usize = start;
        while i < end
            invariant
                start <= i <= end <= len,
                len == self.messages@.len(),
                message_views(out@) == message_views(self.messages@).subrange(start as int, i as int),
            decreases end - i,
        {
            let m = copy_message(&self.messages[i]);
            let ghost before = out@;
            out.push(m);
            proof {
                assert(out@ == before.push(m));
                assert(message_views(out@) =~= message_views(before).push(m@));
                assert(m@ == message_views(self.messages@)[i as int]);
                assert(message_views(out@) =~= message_views(self.messages@).subrange(
                    start as int,
                    i + 1,
                ));
            }
            i += 1;
        }
        PolledMessages { partition_id: self.partition_id, current_offset: self.next_offset, messages: out }
    }

    /// Deletes the leading segments whose messages are all older than
    /// `expiry` at time `now`.
    pub fn delete_expired_segments(&mut self, now: u64, expiry: u64)
        requires
            old(self).wf(),
        ensures
            final(self).wf(),
            final(self)@ == without_expired(old(self)@, now, expiry),
    {
        let ghost v = self@;
        assert(v.messages.len() == self.messages@.len());
        let mut j: usize = 0;
        while j < self.segments.len()
            invariant
                v == self@,
                partition_inv(v),
                j <= v.segments.len(),
                expired_prefix(v, now, expiry, 0) == expired_prefix(v, now, expiry, j as int),
            ensures
                v == self@,
                j <= v.segments.len(),
                expired_prefix(v, now, expiry, 0) == j,
            decreases v.segments.len() - j,
        {
            let seg = self.segments[j];
            if seg.messages_count == 0 {
                assert(!segment_expired(v, j as int, now, expiry));
                break;
            }
            proof {
                lemma_segment_starts(v.segments, v.first_offset, v.next_offset, j as int);
            }
            assert(seg.start_offset + seg.messages_count <= v.next_offset);
            assert(v.next_offset - v.first_offset == self.messages@.len());
            let last_offset: u64 = seg.start_offset + seg.messages_count - 1 - self.first_offset;
            let len: usize = self.messages.len();
            assert(last_offset < len);
            let last = last_offset as usize;
            let ts = self.messages[last].timestamp;
            assert(ts == v.messages[last as int].timestamp);
            if ts as u128 + expiry as u128 > now as u128 {
                assert(!segment_expired(v, j as int, now, expiry));
                break;
            }
            assert(segment_expired(v, j as int, now, expiry));
            j += 1;
        }
        assert(expired_prefix(v, now, expiry, 0) == j);
        if j == self.segments.len() {
            self.first_offset = self.next_offset;
            self.messages = Vec::new();
            let mut segments: Vec<SegmentInfo> = Vec::new();
            segments.push(
                SegmentInfo {
                    start_offset: self.next_offset,
                    messages_count: 0,
                    size_bytes: 0,
                    closed: false,
                },
            );
            self.segments = segments;
            proof {
                assert(message_views(self.messages@) =~= Seq::<MessageView>::empty());
                assert(self@ =~= without_expired(v, now, expiry));
            }
        } else {
            let start = self.segments[j].start_offset;
            proof {
                lemma_segment_starts(v.segments, v.first_offset, v.next_offset, j as int);
            }
            assert(start <= v.next_offset);
            assert(start - v.first_offset <= self.messages@.len());
            let d_offset: u64 = start - self.first_offset;
            let len: usize = self.messages.len();
            assert(d_offset <= len);
            let d = d_offset as usize;
            let kept_messages = self.messages.split_off(d);
            let kept_segments = self.segments.split_off(j);
            self.messages = kept_messages;
            self.segments = kept_segments;
            self.first_offset = start;
            proof {
                let w = self@;
                let target = without_expired(v, now, expiry);
                assert(w.messages =~= target.messages);
                assert(w.segments =~= target.segments);
                assert(w == target);
                assert forall|i: int| 0 <= i < w.messages.len() implies #[trigger] w.messages[i].offset
                    == w.first_offset + i by {
                    assert(w.messages[i] == v.messages[i + d]);
                }
                assert forall|a: int, b: int|
                    0 <= a <= b < w.messages.len() implies #[trigger] w.messages[a].timestamp
                    <= #[trigger] w.messages[b].timestamp by {
                    assert(w.messages[a] == v.messages[a + d]);
                    assert(w.messages[b] == v.messages[b + d]);
                }
                assert forall|i: int| 0 <= i < w.segments.len() - 1 implies {
                    &&& #[trigger] w.segments[i].closed
                    &&& w.segments[i + 1].start_offset == w.segments[i].start_offset
                        + w.segments[i].messages_count
                } by {
                    assert(w.segments[i] == v.segments[i + j]);
                    assert(w.segments[i + 1] == v.segments[i + 1 + j]);
                    assert(v.segments[i + j].closed);
                }
            }
        }
    }

    /// Empties the partition while keeping it: no messages, one empty open
    /// segment at offset 0, no stored consumer offsets.
    pub fn purge(&mut self)
        requires
            old(self).wf(),
        ensures
            final(self).wf(),
            final(self)@ == (PartitionView {
                first_offset: 0,
                next_offset: 0,
                messages: Seq::empty(),
                segments: seq![
                    SegmentInfo { start_offset: 0, messages_count: 0, size_bytes: 0, closed: false },
                ],
                consumer_offsets: Map::empty(),
                ..old(self)@
            }),
    {
        let fresh = Partition::new(self.partition_id, self.segment_size_limit);
        *self = fresh;
        assert(self@.messages =~= Seq::<MessageView>::empty());
    }

    fn index_of_offset(&self, offset: u64) -> (r: usize)
        requires
            self.wf(),
        ensures
            r == index_of_offset(self@, offset as int),
    {
        proof {
            assert(self@.messages.len() == self.messages@.len());
        }
        assert(self@.messages.len() == self.messages@.len());
        if offset <= self.first_offset {
            0
        } else if offset >= self.next_offset {
            self.messages.len()
        } else {
            assert(self.first_offset + self.messages@.len() == self.next_offset);
            let d: u64 = offset - self.first_offset;
            let len: usize = self.messages.len();
            assert(d < len);
            d as usize
        }
    }

    fn index_of_timestamp(&self, t: u64) -> (r: usize)
        requires
            self.wf(),
        ensures
            r == index_of_timestamp(self@.messages, t, 0),
    {
        let ghost ms = self@.messages;
        let mut i: usize = 0;
        while i < self.messages.len()
            invariant
                i <= self.messages@.len(),
                ms == message_views(self.messages@),
                index_of_timestamp(ms, t, 0) == index_of_timestamp(ms, t, i as int),
            decreases self.messages@.len() - i,
        {
            if self.messages[i].timestamp >= t {
                return i;
            }
            i += 1;
        }
        i
    }
}

} // verus!
