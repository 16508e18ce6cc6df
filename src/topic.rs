use crate::error::IggyError;
use crate::group::{
    ConsumerGroup, ConsumerGroupView, advanced, assigned_partitions, current_partition, group_inv,
    joined, left,
};
use crate::partition::{
    Message, MessageInput, Partition, inputs, PartitionView, PolledMessages, PollingStrategy, appended, message_views,
    partition_inv, poll_result, without_expired,
};
use vstd::prelude::*;

verus! {

/// How an append picks its partition.
#[derive(Debug, Clone, PartialEq, Eq)]
pub enum Partitioning {
    /// Round robin over the partitions.
    Balanced,
    /// The partition with this id.
    PartitionId(u32),
    /// The partition that the hash of this key picks; 1 to 255 bytes.
    MessagesKey(Vec<u8>),
}

/// Who polls: a single consumer, or a consumer group.
#[derive(Debug, Clone, Copy, PartialEq, Eq, Structural)]
pub enum Consumer {
    Consumer(u32),
    ConsumerGroup(u32),
}

/// A consumer resolved against a topic: a consumer and the partition it
/// names, or a group and the member that polls.
#[derive(Debug, Clone, Copy, PartialEq, Eq, Structural)]
pub enum PollingConsumer {
    Consumer(u32, u32),
    ConsumerGroup(u32, u32),
}

/// The key under which a partition stores the offset of a polling consumer;
/// consumers and groups never share a key.
pub open spec fn consumer_key(c: PollingConsumer) -> u64 {
    match c {
        PollingConsumer::Consumer(id, _) => id as u64,
        PollingConsumer::ConsumerGroup(group_id, _) => (0x1_0000_0000u64 + group_id) as u64,
    }
}

pub fn polling_consumer_key(c: PollingConsumer) -> (r: u64)
    ensures
        r == consumer_key(c),
{
    match c {
        PollingConsumer::Consumer(id, _) => id as u64,
        PollingConsumer::ConsumerGroup(group_id, _) => 0x1_0000_0000u64 + group_id as u64,
    }
}

/// The hash of a message key: `h * 31 + byte` over the bytes, modulo 2^32.
pub open spec fn key_hash(k: Seq<u8>) -> nat
    decreases k.len(),
{
    if k.len() == 0 {
        0
    } else {
        ((key_hash(k.drop_last()) * 31 + k.last()) % 0x1_0000_0000) as nat
    }
}

pub fn calculate_key_hash(k: &[u8]) -> (r: u64)
    ensures
        r == key_hash(k@),
        r < 0x1_0000_0000,
{
    let mut h: u64 = 0;
    let mut i: usize = 0;
    while i < k.len()
        invariant
            i <= k@.len(),
            h == key_hash(k@.subrange(0, i as int)),
            h < 0x1_0000_0000,
        decreases k@.len() - i,
    {
        proof {
            let next = k@.subrange(0, i + 1);
            assert(next.drop_last() =~= k@.subrange(0, i as int));
        }
        h = (h * 31 + k[i] as u64) % 0x1_0000_0000;
        i += 1;
    }
    assert(k@.subrange(0, k@.len() as int) =~= k@);
    h
}

pub struct TopicView {
    pub stream_id: u32,
    pub topic_id: u32,
    pub name: Seq<u8>,
    pub partitions: Seq<PartitionView>,
    pub groups: Seq<ConsumerGroupView>,
    pub message_expiry: Option<u64>,
    pub balanced_counter: u64,
}

/// The name takes at most 255 bytes; partitions are numbered `1 ..= n` in
/// order; each group spreads exactly the topic's partitions; group ids are
/// distinct.
pub open spec fn topic_inv(v: TopicView) -> bool {
    &&& v.name.len() <= 255
    &&& v.partitions.len() <= u32::MAX
    &&& forall|i: int|
        0 <= i < v.partitions.len() ==> partition_inv(#[trigger] v.partitions[i])
            && v.partitions[i].partition_id == i + 1
    &&& forall|i: int|
        0 <= i < v.groups.len() ==> (#[trigger] v.groups[i]).partitions_count == v.partitions.len()
            && group_inv(v.groups[i])
    &&& forall|i: int, j: int|
        0 <= i < j < v.groups.len() ==> (#[trigger] v.groups[i]).group_id != (
        #[trigger] v.groups[j]).group_id
}

/// Index of the partition that an append with `p` goes to.
pub open spec fn target_partition(v: TopicView, p: Partitioning) -> Result<int, IggyError> {
    let n = v.partitions.len() as int;
    if n == 0 {
        Err(IggyError::NoPartitions(v.topic_id, v.stream_id))
    } else {
        match p {
            Partitioning::Balanced => Ok((v.balanced_counter as int) % n),
            Partitioning::PartitionId(id) => if 1 <= id <= n {
                Ok(id - 1)
            } else {
                Err(IggyError::PartitionNotFound(id))
            },
            Partitioning::MessagesKey(k) => if 1 <= k@.len() <= 255 {
                Ok(key_hash(k@) as int % n)
            } else {
                Err(IggyError::InvalidPartitioning)
            },
        }
    }
}

/// Keyed routing is stable: while the number of partitions stays the same,
/// a key goes to the same partition.
pub proof fn lemma_key_routing_stable(v: TopicView, w: TopicView, key: Vec<u8>)
    requires
        v.partitions.len() == w.partitions.len(),
        v.partitions.len() > 0,
    ensures
        target_partition(v, Partitioning::MessagesKey(key)) == target_partition(
            w,
            Partitioning::MessagesKey(key),
        ),
{
}

/// What an append returns, and the topic after it: the partition that
/// `p` picks takes the batch, and a balanced append moves the round-robin
/// counter on. An error leaves the topic as it was.
pub open spec fn topic_append(v: TopicView, p: Partitioning, ms: Seq<MessageInput>, now: u64) -> (
    Result<u32, IggyError>,
    TopicView,
) {
    match target_partition(v, p) {
        Err(e) => (Err(e), v),
        Ok(i) => {
            let pv = v.partitions[i];
            if ms.len() == 0 {
                (Err(IggyError::InvalidMessagesCount), v)
            } else if pv.next_offset + ms.len() > u64::MAX {
                (Err(IggyError::InvalidOffset), v)
            } else {
                let counter = if p == Partitioning::Balanced {
                    (v.balanced_counter + 1) % 0x1_0000_0000_0000_0000
                } else {
                    v.balanced_counter as int
                };
                (
                    Ok((i + 1) as u32),
                    TopicView {
                        partitions: v.partitions.update(i, appended(pv, ms, now)),
                        balanced_counter: counter as u64,
                        ..v
                    },
                )
            }
        },
    }
}

/// What storing `offset` for `c` in partition `pid` returns, and the topic
/// after it. The offset must be one that the partition has given out.
pub open spec fn topic_store_offset(v: TopicView, c: PollingConsumer, pid: u32, offset: u64) -> (
    Result<(), IggyError>,
    TopicView,
) {
    if !(1 <= pid <= v.partitions.len()) {
        (Err(IggyError::PartitionNotFound(pid)), v)
    } else {
        let p = v.partitions[pid - 1];
        if offset >= p.next_offset {
            (Err(IggyError::InvalidOffset), v)
        } else {
            (
                Ok(()),
                TopicView {
                    partitions: v.partitions.update(
                        pid - 1,
                        PartitionView {
                            consumer_offsets: p.consumer_offsets.insert(consumer_key(c), offset),
                            ..p
                        },
                    ),
                    ..v
                },
            )
        }
    }
}

/// What creating group `gid` returns, and the topic after it.
pub open spec fn topic_create_group(v: TopicView, gid: u32) -> (Result<(), IggyError>, TopicView) {
    if group_index(v, gid) is Some {
        (Err(IggyError::ConsumerGroupIdAlreadyExists), v)
    } else {
        (
            Ok(()),
            TopicView {
                groups: v.groups.push(
                    ConsumerGroupView {
                        group_id: gid,
                        members: Seq::empty(),
                        cursors: Seq::empty(),
                        partitions_count: v.partitions.len() as u32,
                    },
                ),
                ..v
            },
        )
    }
}

/// What `member` joining group `gid` returns, and the topic after it.
pub open spec fn topic_join(v: TopicView, gid: u32, member: u32) -> (Result<(), IggyError>, TopicView) {
    match group_index(v, gid) {
        None => (Err(IggyError::ConsumerGroupNotFound), v),
        Some(i) => {
            (Ok(()), TopicView { groups: v.groups.update(i, joined(v.groups[i], member)), ..v })
        },
    }
}

/// What `member` leaving group `gid` returns, and the topic after it.
pub open spec fn topic_leave(v: TopicView, gid: u32, member: u32) -> (Result<(), IggyError>, TopicView) {
    match group_index(v, gid) {
        None => (Err(IggyError::ConsumerGroupNotFound), v),
        Some(i) => {
            (Ok(()), TopicView { groups: v.groups.update(i, left(v.groups[i], member)), ..v })
        },
    }
}

/// Who polls which partition. A consumer names its partition, which may be
/// left out only when the topic has a single one. A group member polls the
/// partition of its share that its cursor points at, or nothing (`None`)
/// when it has no share.
pub open spec fn resolve_consumer(
    v: TopicView,
    consumer: Consumer,
    client_id: u32,
    partition_id: Option<u32>,
) -> Result<Option<(PollingConsumer, u32)>, IggyError> {
    match consumer {
        Consumer::Consumer(id) => match partition_id {
            Some(p) => Ok(Some((PollingConsumer::Consumer(id, p), p))),
            None => if v.partitions.len() == 1 {
                Ok(Some((PollingConsumer::Consumer(id, 1), 1)))
            } else {
                Err(IggyError::PartitionNotFound(0))
            },
        },
        Consumer::ConsumerGroup(g) => match group_index(v, g) {
            None => Err(IggyError::ConsumerGroupNotFound),
            Some(i) => if !v.groups[i].members.contains(client_id) {
                Err(IggyError::ConsumerGroupMemberNotFound)
            } else {
                match current_partition(v.groups[i], client_id) {
                    None => Ok(None),
                    Some(p) => Ok(Some((PollingConsumer::ConsumerGroup(g, client_id), (p + 1) as u32))),
                }
            },
        },
    }
}

/// The topic after expired segments are deleted from every partition.
pub open spec fn topic_without_expired(v: TopicView, now: u64) -> TopicView {
    match v.message_expiry {
        None => v,
        Some(e) => TopicView {
            partitions: Seq::new(v.partitions.len(), |i: int| without_expired(v.partitions[i], now, e)),
            ..v
        },
    }
}

/// A partition emptied by a purge.
pub open spec fn purged(p: PartitionView) -> PartitionView {
    PartitionView {
        first_offset: 0,
        next_offset: 0,
        messages: Seq::empty(),
        segments: seq![
            crate::partition::SegmentInfo {
                start_offset: 0,
                messages_count: 0,
                size_bytes: 0,
                closed: false,
            },
        ],
        consumer_offsets: Map::empty(),
        ..p
    }
}

/// The topic after a poll by `c`: a group member's cursor moves on.
pub open spec fn topic_after_poll(v: TopicView, c: PollingConsumer) -> TopicView {
    match c {
        PollingConsumer::Consumer(_, _) => v,
        PollingConsumer::ConsumerGroup(g, member) => match group_index(v, g) {
            None => v,
            Some(i) => TopicView { groups: v.groups.update(i, advanced(v.groups[i], member)), ..v },
        },
    }
}

/// Index of the group with id `group_id`.
pub open spec fn group_index(v: TopicView, group_id: u32) -> Option<int> {
    if exists|i: int| 0 <= i < v.groups.len() && #[trigger] v.groups[i].group_id == group_id {
        Some(choose|i: int| 0 <= i < v.groups.len() && #[trigger] v.groups[i].group_id == group_id)
    } else {
        None
    }
}

/// Total number of retained messages in the partitions.
pub open spec fn messages_total(ps: Seq<PartitionView>) -> nat
    decreases ps.len(),
{
    if ps.len() == 0 {
        0
    } else {
        messages_total(ps.drop_last()) + ps.last().messages.len()
    }
}

/// A topic: partitions numbered from 1, consumer groups, and the message
/// expiry that applies to its partitions.
#[derive(Debug)]
pub struct Topic {
    stream_id: u32,
    topic_id: u32,
    name: Vec<u8>,
    partitions: Vec<Partition>,
    consumer_groups: Vec<ConsumerGroup>,
    message_expiry: Option<u64>,
    balanced_counter: u64,
}

impl View for Topic {
    type V = TopicView;

    closed spec fn view(&self) -> TopicView {
        TopicView {
            stream_id: self.stream_id,
            topic_id: self.topic_id,
            name: self.name@,
            partitions: self.partitions@.map_values(|p: Partition| p@),
            groups: self.consumer_groups@.map_values(|g: ConsumerGroup| g@),
            message_expiry: self.message_expiry,
            balanced_counter: self.balanced_counter,
        }
    }
}

/// A fresh partition view with `id`.
pub open spec fn empty_partition(v: PartitionView, id: u32, limit: u64) -> bool {
    &&& partition_inv(v)
    &&& v.partition_id == id
    &&& v.next_offset == 0
    &&& v.messages.len() == 0
    &&& v.consumer_offsets == Map::<u64, u64>::empty()
    &&& v.segment_size_limit == limit
}

impl Topic {
    pub open spec fn wf(&self) -> bool {
        topic_inv(self@)
    }

    /// A topic with `partitions_count` empty partitions numbered `1 ..=
    /// partitions_count` and no groups.
    pub fn new(
        stream_id: u32,
        topic_id: u32,
        name: Vec<u8>,
        partitions_count: u32,
        message_expiry: Option<u64>,
        segment_size_limit: u64,
    ) -> (r: Topic)
        requires
            name@.len() <= 255,
        ensures
            r.wf(),
            r@.stream_id == stream_id,
            r@.topic_id == topic_id,
            r@.name == name@,
            r@.partitions.len() == partitions_count,
            forall|i: int|
                0 <= i < partitions_count ==> empty_partition(
                    #[trigger] r@.partitions[i],
                    (i + 1) as u32,
                    segment_size_limit,
                ),
            r@.groups.len() == 0,
            r@.message_expiry == message_expiry,
            r@.balanced_counter == 0,
    {
        let mut partitions: Vec<Partition> = Vec::new();
        let mut i: u32 = 0;
        while i < partitions_count
            invariant
                i <= partitions_count,
                partitions@.len() == i,
                forall|j: int|
                    0 <= j < i ==> empty_partition(
                        #[trigger] partitions@[j]@,
                        (j + 1) as u32,
                        segment_size_limit,
                    ),
            decreases partitions_count - i,
        {
            let p = Partition::new(i + 1, segment_size_limit);
            partitions.push(p);
            i += 1;
        }
        let r = Topic {
            stream_id,
            topic_id,
            name,
            partitions,
            consumer_groups: Vec::new(),
            message_expiry,
            balanced_counter: 0,
        };
        proof {
            assert forall|j: int| 0 <= j < partitions_count implies empty_partition(
                #[trigger] r@.partitions[j],
                (j + 1) as u32,
                segment_size_limit,
            ) by {
                assert(r@.partitions[j] == r.partitions@[j]@);
            }
        }
        r
    }

    pub fn topic_id(&self) -> (r: u32)
        ensures
            r == self@.topic_id,
    {
        self.topic_id
    }

    pub fn name(&self) -> (r: &Vec<u8>)
        ensures
            r@ == self@.name,
    {
        &self.name
    }

    pub fn partitions_count(&self) -> (r: u32)
        requires
            self.wf(),
        ensures
            r == self@.partitions.len(),
    {
        self.partitions.len() as u32
    }

    pub fn message_expiry(&self) -> (r: Option<u64>)
        ensures
            r == self@.message_expiry,
    {
        self.message_expiry
    }

    /// Number of retained messages over all partitions.
    pub fn get_messages_count(&self) -> (r: u64)
        requires
            self.wf(),
        ensures
            r == if messages_total(self@.partitions) > u64::MAX {
                u64::MAX as nat
            } else {
                messages_total(self@.partitions)
            },
    {
        let mut total: u64 = 0;
        let mut i: usize = 0;
        let ghost ps = self@.partitions;
        while i < self.partitions.len()
            invariant
                self.wf(),
                ps == self@.partitions,
                i <= ps.len(),
                ps.len() == self.partitions@.len(),
                total == if messages_total(ps.subrange(0, i as int)) > u64::MAX {
                    u64::MAX as nat
                } else {
                    messages_total(ps.subrange(0, i as int))
                },
            decreases ps.len() - i,
        {
            proof {
                assert(ps.subrange(0, i + 1).drop_last() =~= ps.subrange(0, i as int));
                assert(ps[i as int] == self.partitions@[i as int]@);
                assert(partition_inv(ps[i as int]));
            }
            let n = self.partitions[i].messages_count();
            total = total.saturating_add(n);
            i += 1;
        }
        assert(ps.subrange(0, ps.len() as int) =~= ps);
        total
    }

    /// Appends a batch to the partition that `partitioning` picks; returns
    /// its id. A balanced append moves the round-robin counter on.
    pub fn append_messages(
        &mut self,
        partitioning: &Partitioning,
        messages: &Vec<Message>,
        now: u64,
    ) -> (r: Result<u32, IggyError>)
        requires
            old(self).wf(),
        ensures
            final(self).wf(),
            (r, final(self)@) == topic_append(old(self)@, *partitioning, inputs(messages@), now),
    {
        let idx = self.target_partition(partitioning)?;
        let ghost old_v = self@;
        proof {
            assert(self@.partitions[idx as int] == self.partitions@[idx as int]@);
        }
        let result = self.partitions[idx].append_messages(messages, now);
        match result {
            Err(e) => {
                proof {
                    assert(self@.partitions =~= old_v.partitions);
                }
                Err(e)
            },
            Ok(()) => {
                if let Partitioning::Balanced = partitioning {
                    self.balanced_counter = self.balanced_counter.wrapping_add(1);
                }
                proof {
                    let pv = old_v.partitions[idx as int];
                    assert(self@.partitions =~= old_v.partitions.update(
                        idx as int,
                        appended(pv, inputs(messages@), now),
                    ));
                    assert forall|i: int| 0 <= i < self@.partitions.len() implies partition_inv(
                        #[trigger] self@.partitions[i],
                    ) && self@.partitions[i].partition_id == i + 1 by {
                        if i != idx {
                            assert(self@.partitions[i] == old_v.partitions[i]);
                        }
                    }
                    assert(self@.groups == old_v.groups);
                }
                Ok(idx as u32 + 1)
            },
        }
    }

    fn target_partition(&self, partitioning: &Partitioning) -> (r: Result<usize, IggyError>)
        requires
            self.wf(),
        ensures
            r matches Ok(i) ==> target_partition(self@, *partitioning) == Ok::<int, IggyError>(i as int)
                && i < self@.partitions.len(),
            r matches Err(e) ==> target_partition(self@, *partitioning) == Err::<int, IggyError>(e),
    {
        let n = self.partitions.len();
        if n == 0 {
            return Err(IggyError::NoPartitions(self.topic_id, self.stream_id));
        }
        match partitioning {
            Partitioning::Balanced => Ok((self.balanced_counter % n as u64) as usize),
            Partitioning::PartitionId(id) => {
                if *id >= 1 && (*id as usize) <= n {
                    Ok(*id as usize - 1)
                } else {
                    Err(IggyError::PartitionNotFound(*id))
                }
            },
            Partitioning::MessagesKey(k) => {
                if k.len() >= 1 && k.len() <= 255 {
                    let h = calculate_key_hash(k.as_slice());
                    Ok((h % n as u64) as usize)
                } else {
                    Err(IggyError::InvalidPartitioning)
                }
            },
        }
    }

    fn find_group(&self, group_id: u32) -> (r: Option<usize>)
        requires
            self.wf(),
        ensures
            r matches Some(i) ==> group_index(self@, group_id) == Some(i as int) && i
                < self@.groups.len(),
            r is None ==> group_index(self@, group_id) is None,
    {
        let mut i: usize = 0;
        while i < self.consumer_groups.len()
            invariant
                self.wf(),
                i <= self.consumer_groups@.len(),
                self@.groups.len() == self.consumer_groups@.len(),
                forall|j: int| 0 <= j < i ==> #[trigger] self@.groups[j].group_id != group_id,
            decreases self.consumer_groups@.len() - i,
        {
            assert(self@.groups[i as int] == self.consumer_groups@[i as int]@);
            if self.consumer_groups[i].group_id() == group_id {
                proof {
                    let v = self@;
                    assert(0 <= i < v.groups.len() && v.groups[i as int].group_id == group_id);
                    let c = choose|c: int| 0 <= c < v.groups.len() && #[trigger] v.groups[c].group_id == group_id;
                    if c != i {
                        if c < i {
                            assert(v.groups[c].group_id != v.groups[i as int].group_id);
                        } else {
                            assert(v.groups[i as int].group_id != v.groups[c].group_id);
                        }
                    }
                }
                return Some(i);
            }
            i += 1;
        }
        None
    }

    /// Creates an empty consumer group over this topic's partitions.
    pub fn create_consumer_group(&mut self, group_id: u32, name: String) -> (r: Result<(), IggyError>)
        requires
            old(self).wf(),
        ensures
            final(self).wf(),
            (r, final(self)@) == topic_create_group(old(self)@, group_id),
    {
        if self.find_group(group_id).is_some() {
            return Err(IggyError::ConsumerGroupIdAlreadyExists);
        }
        let ghost old_v = self@;
        let g = ConsumerGroup::new(group_id, name, self.partitions.len() as u32);
        self.consumer_groups.push(g);
        proof {
            let v = self@;
            assert(v.groups =~= old_v.groups.push(g@));
            assert(v.partitions =~= old_v.partitions);
            assert forall|i: int, j: int| 0 <= i < j < v.groups.len() implies (
            #[trigger] v.groups[i]).group_id != (#[trigger] v.groups[j]).group_id by {
                if j == v.groups.len() - 1 {
                    assert(old_v.groups[i].group_id != group_id);
                }
            }
        }
        Ok(())
    }

    /// Adds `member` to group `group_id`.
    pub fn join_consumer_group(&mut self, group_id: u32, member: u32) -> (r: Result<(), IggyError>)
        requires
            old(self).wf(),
        ensures
            final(self).wf(),
            (r, final(self)@) == topic_join(old(self)@, group_id, member),
    {
        match self.find_group(group_id) {
            None => Err(IggyError::ConsumerGroupNotFound),
            Some(i) => {
                let ghost old_v = self@;
                proof {
                    assert(old_v.groups[i as int] == self.consumer_groups@[i as int]@);
                }
                self.consumer_groups[i].join(member);
                proof {
                    let g = old_v.groups[i as int];
                    let ng = joined(g, member);
                    assert(self@.groups[i as int] == self.consumer_groups@[i as int]@);
                    assert(self@.groups =~= old_v.groups.update(i as int, ng));
                    assert(self@.partitions =~= old_v.partitions);
                    self.lemma_groups_updated(old_v, i as int);
                }
                Ok(())
            },
        }
    }

    /// Removes `member` from group `group_id`.
    pub fn leave_consumer_group(&mut self, group_id: u32, member: u32) -> (r: Result<(), IggyError>)
        requires
            old(self).wf(),
        ensures
            final(self).wf(),
            (r, final(self)@) == topic_leave(old(self)@, group_id, member),
    {
        match self.find_group(group_id) {
            None => Err(IggyError::ConsumerGroupNotFound),
            Some(i) => {
                let ghost old_v = self@;
                proof {
                    assert(old_v.groups[i as int] == self.consumer_groups@[i as int]@);
                }
                self.consumer_groups[i].leave(member);
                proof {
                    let g = old_v.groups[i as int];
                    let ng = left(g, member);
                    assert(self@.groups[i as int] == self.consumer_groups@[i as int]@);
                    assert(self@.groups =~= old_v.groups.update(i as int, ng));
                    assert(self@.partitions =~= old_v.partitions);
                    self.lemma_groups_updated(old_v, i as int);
                }
                Ok(())
            },
        }
    }

    proof fn lemma_groups_updated(&self, old_v: TopicView, i: int)
        requires
            topic_inv(old_v),
            0 <= i < old_v.groups.len(),
            self@ == (TopicView { groups: self@.groups, ..old_v }),
            self@.groups.len() == old_v.groups.len(),
            forall|j: int| 0 <= j < old_v.groups.len() && j != i ==> self@.groups[j] == old_v.groups[j],
            self@.groups[i].group_id == old_v.groups[i].group_id,
            self@.groups[i].partitions_count == old_v.groups[i].partitions_count,
            group_inv(self@.groups[i]),
        ensures
            topic_inv(self@),
    {
        let v = self@;
        assert forall|j: int| 0 <= j < v.groups.len() implies (#[trigger] v.groups[j]).partitions_count
            == v.partitions.len() && group_inv(v.groups[j]) by {
            if j != i {
                assert(v.groups[j] == old_v.groups[j]);
            }
        }
        assert forall|a: int, b: int| 0 <= a < b < v.groups.len() implies (
        #[trigger] v.groups[a]).group_id != (#[trigger] v.groups[b]).group_id by {
            assert(v.groups[a].group_id == old_v.groups[a].group_id);
            assert(v.groups[b].group_id == old_v.groups[b].group_id);
        }
    }

    /// Records a poll by `consumer`: a group member's cursor moves on to the
    /// next partition of its share.
    pub fn after_poll(&mut self, consumer: PollingConsumer)
        requires
            old(self).wf(),
        ensures
            final(self).wf(),
            final(self)@ == topic_after_poll(old(self)@, consumer),
    {
        if let PollingConsumer::ConsumerGroup(g, member) = consumer {
            match self.find_group(g) {
                None => {},
                Some(i) => {
                    let ghost old_v = self@;
                    proof {
                        assert(old_v.groups[i as int] == self.consumer_groups@[i as int]@);
                    }
                    self.consumer_groups[i].advance(member);
                    proof {
                        let ng = advanced(old_v.groups[i as int], member);
                        assert(self@.groups[i as int] == self.consumer_groups@[i as int]@);
                        assert(self@.groups =~= old_v.groups.update(i as int, ng));
                        assert(self@.partitions =~= old_v.partitions);
                        self.lemma_groups_updated(old_v, i as int);
                    }
                },
            }
        }
    }

    /// The partition ids that `member` of group `group_id` owns.
    pub fn get_member_partitions(&self, group_id: u32, member: u32) -> (r: Result<
        Vec<u32>,
        IggyError,
    >)
        requires
            self.wf(),
        ensures
            group_index(self@, group_id) is None ==> r == Err::<Vec<u32>, IggyError>(
                IggyError::ConsumerGroupNotFound,
            ),
            group_index(self@, group_id) matches Some(i) ==> r is Ok && r->Ok_0@ == assigned_partitions(
                self@.groups[i],
                member,
            ),
    {
        match self.find_group(group_id) {
            None => Err(IggyError::ConsumerGroupNotFound),
            Some(i) => {
                assert(self@.groups[i as int] == self.consumer_groups@[i as int]@);
                Ok(self.consumer_groups[i].member_partitions(member))
            },
        }
    }

    /// Resolves who polls which partition. A consumer names its partition,
    /// which may be left out only when the topic has a single one. A group
    /// member polls the first partition of its share, or nothing (`None`)
    /// when it has no share.
    pub fn resolve_consumer_with_partition_id(
        &self,
        consumer: &Consumer,
        client_id: u32,
        partition_id: Option<u32>,
    ) -> (r: Result<Option<(PollingConsumer, u32)>, IggyError>)
        requires
            self.wf(),
        ensures
            r == resolve_consumer(self@, *consumer, client_id, partition_id),
    {
        match consumer {
            Consumer::Consumer(id) => match partition_id {
                Some(p) => Ok(Some((PollingConsumer::Consumer(*id, p), p))),
                None => {
                    if self.partitions.len() == 1 {
                        Ok(Some((PollingConsumer::Consumer(*id, 1), 1)))
                    } else {
                        Err(IggyError::PartitionNotFound(0))
                    }
                },
            },
            Consumer::ConsumerGroup(g) => match self.find_group(*g) {
                None => Err(IggyError::ConsumerGroupNotFound),
                Some(i) => {
                    assert(self@.groups[i as int] == self.consumer_groups@[i as int]@);
                    let group = &self.consumer_groups[i];
                    if !group.is_member(client_id) {
                        return Err(IggyError::ConsumerGroupMemberNotFound);
                    }
                    match group.current_partition(client_id) {
                        None => Ok(None),
                        Some(index) => {
                            proof {
                                let gv = self@.groups[i as int];
                                let sh = assigned_partitions(gv, client_id);
                                let p = gv.partitions_count as int;
                                let m = gv.members.len() as int;
                                gv.members.index_of_first_ensures(client_id);
                                let k = gv.members.index_of_first(client_id)->Some_0;
                                crate::group::lemma_share_bounds(k, p, m);
                                crate::group::lemma_share_bounds(k + 1, p, m);
                                crate::group::lemma_share_monotone(k, k + 1, p, m);
                                let j = gv.cursors[k] as int % sh.len() as int;
                                assert(sh[j] < self@.partitions.len());
                            }
                            Ok(Some((PollingConsumer::ConsumerGroup(*g, client_id), index + 1)))
                        },
                    }
                },
            },
        }
    }

    /// Reads from partition `partition_id` for `consumer`.
    pub fn get_messages(
        &self,
        consumer: PollingConsumer,
        partition_id: u32,
        strategy: PollingStrategy,
        count: u32,
    ) -> (r: Result<PolledMessages, IggyError>)
        requires
            self.wf(),
        ensures
            !(1 <= partition_id <= self@.partitions.len()) ==> r == Err::<PolledMessages, IggyError>(
                IggyError::PartitionNotFound(partition_id),
            ),
            1 <= partition_id <= self@.partitions.len() ==> {
                let p = self@.partitions[partition_id - 1];
                &&& r is Ok
                &&& r->Ok_0.partition_id == partition_id
                &&& r->Ok_0.current_offset == p.next_offset
                &&& message_views(r->Ok_0.messages@) == poll_result(
                    p,
                    consumer_key(consumer),
                    strategy,
                    count,
                )
            },
    {
        if partition_id == 0 || partition_id as usize > self.partitions.len() {
            return Err(IggyError::PartitionNotFound(partition_id));
        }
        let i = partition_id as usize - 1;
        assert(self@.partitions[i as int] == self.partitions@[i as int]@);
        let key = polling_consumer_key(consumer);
        Ok(self.partitions[i].get_messages(key, strategy, count))
    }

    /// Stores the offset that `consumer` has read up to in partition
    /// `partition_id`; it must be an offset that the partition has given out.
    pub fn store_consumer_offset(
        &mut self,
        consumer: PollingConsumer,
        partition_id: u32,
        offset: u64,
    ) -> (r: Result<(), IggyError>)
        requires
            old(self).wf(),
        ensures
            final(self).wf(),
            (r, final(self)@) == topic_store_offset(old(self)@, consumer, partition_id, offset),
    {
        if partition_id == 0 || partition_id as usize > self.partitions.len() {
            return Err(IggyError::PartitionNotFound(partition_id));
        }
        let i = partition_id as usize - 1;
        let ghost old_v = self@;
        assert(old_v.partitions[i as int] == self.partitions@[i as int]@);
        if offset >= self.partitions[i].next_offset() {
            return Err(IggyError::InvalidOffset);
        }
        let key = polling_consumer_key(consumer);
        self.partitions[i].store_consumer_offset(key, offset);
        proof {
            let p = old_v.partitions[i as int];
            assert(self@.partitions =~= old_v.partitions.update(
                i as int,
                PartitionView { consumer_offsets: p.consumer_offsets.insert(key, offset), ..p },
            ));
            assert forall|j: int| 0 <= j < self@.partitions.len() implies partition_inv(
                #[trigger] self@.partitions[j],
            ) && self@.partitions[j].partition_id == j + 1 by {
                if j != i {
                    assert(self@.partitions[j] == old_v.partitions[j]);
                }
            }
            assert(self@.groups == old_v.groups);
        }
        Ok(())
    }

    /// Empties every partition of the topic; groups stay.
    pub fn purge(&mut self)
        requires
            old(self).wf(),
        ensures
            final(self).wf(),
            final(self)@ == (TopicView {
                partitions: Seq::new(
                    old(self)@.partitions.len(),
                    |i: int| purged(old(self)@.partitions[i]),
                ),
                ..old(self)@
            }),
    {
        let ghost old_v = self@;
        let mut i: usize = 0;
        while i < self.partitions.len()
            invariant
                i <= self.partitions@.len(),
                self.partitions@.len() == old_v.partitions.len(),
                self@ == (TopicView { partitions: self@.partitions, ..old_v }),
                topic_inv(old_v),
                forall|j: int| 0 <= j < i ==> #[trigger] self@.partitions[j] == purged(old_v.partitions[j]),
                forall|j: int| i <= j < self@.partitions.len() ==> #[trigger] self@.partitions[j] == old_v.partitions[j],
                forall|j: int| 0 <= j < self@.partitions.len() ==> partition_inv(#[trigger] self@.partitions[j]) && self@.partitions[j].partition_id == j + 1,
            decreases self.partitions@.len() - i,
        {
            let ghost before = self@;
            assert(before.partitions[i as int] == self.partitions@[i as int]@);
            self.partitions[i].purge();
            proof {
                assert forall|j: int| 0 <= j < self@.partitions.len() && j != i implies #[trigger] self@.partitions[j] == before.partitions[j] by {
                    assert(self@.partitions[j] == self.partitions@[j]@);
                }
                assert(self@.partitions[i as int] == self.partitions@[i as int]@);
            }
            i += 1;
        }
        proof {
            assert(self@.partitions =~= Seq::new(
                old_v.partitions.len(),
                |j: int| purged(old_v.partitions[j]),
            ));
        }
    }

    /// Deletes, in every partition, the leading segments whose messages have
    /// all outlived the topic's message expiry at time `now`.
    pub fn delete_expired_segments(&mut self, now: u64)
        requires
            old(self).wf(),
        ensures
            final(self).wf(),
            final(self)@ == topic_without_expired(old(self)@, now),
    {
        let expiry = match self.message_expiry {
            None => {
                return;
            },
            Some(e) => e,
        };
        let ghost old_v = self@;
        let mut i: usize = 0;
        while i < self.partitions.len()
            invariant
                i <= self.partitions@.len(),
                self.partitions@.len() == old_v.partitions.len(),
                self@ == (TopicView { partitions: self@.partitions, ..old_v }),
                topic_inv(old_v),
                forall|j: int| 0 <= j < i ==> #[trigger] self@.partitions[j] == without_expired(old_v.partitions[j], now, expiry),
                forall|j: int| i <= j < self@.partitions.len() ==> #[trigger] self@.partitions[j] == old_v.partitions[j],
                forall|j: int| 0 <= j < self@.partitions.len() ==> partition_inv(#[trigger] self@.partitions[j]) && self@.partitions[j].partition_id == j + 1,
            decreases self.partitions@.len() - i,
        {
            let ghost before = self@;
            assert(before.partitions[i as int] == self.partitions@[i as int]@);
            self.partitions[i].delete_expired_segments(now, expiry);
            proof {
                assert forall|j: int| 0 <= j < self@.partitions.len() && j != i implies #[trigger] self@.partitions[j] == before.partitions[j] by {
                    assert(self@.partitions[j] == self.partitions@[j]@);
                }
                assert(self@.partitions[i as int] == self.partitions@[i as int]@);
            }
            i += 1;
        }
        proof {
            assert(self@.partitions =~= Seq::new(
                old_v.partitions.len(),
                |j: int| without_expired(old_v.partitions[j], now, expiry),
            ));
        }
    }
}

} // verus!
