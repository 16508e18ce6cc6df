use crate::codec::{append_bytes, copy_range};
use crate::error::IggyError;
use vstd::prelude::*;
use vstd::bytes::{spec_u32_from_le_bytes, spec_u32_to_le_bytes, u32_from_le_bytes, u32_to_le_bytes};

verus! {

broadcast use vstd::seq_lib::to_multiset_insert;

/// A topic as a client sees it in a listing.
#[derive(Debug, Clone, PartialEq, Eq)]
pub struct Topic {
    pub id: u32,
    pub partitions: u32,
    pub name: Vec<u8>,
}

pub struct TopicRecord {
    pub id: u32,
    pub partitions: u32,
    pub name: Seq<u8>,
}

impl View for Topic {
    type V = TopicRecord;

    open spec fn view(&self) -> TopicRecord {
        TopicRecord { id: self.id, partitions: self.partitions, name: self.name@ }
    }
}

pub open spec fn topic_records(ts: Seq<Topic>) -> Seq<TopicRecord> {
    ts.map_values(|t: Topic| t@)
}

/// The little-endian `u32` at `pos`.
pub open spec fn u32_at(b: Seq<u8>, pos: int) -> u32 {
    spec_u32_from_le_bytes(b.subrange(pos, pos + 4))
}

/// The record of one topic in a listing: id, number of partitions and name
/// length as little-endian `u32`, then the name.
pub open spec fn topic_record_bytes(t: TopicRecord) -> Seq<u8> {
    spec_u32_to_le_bytes(t.id) + spec_u32_to_le_bytes(t.partitions) + spec_u32_to_le_bytes(
        t.name.len() as u32,
    ) + t.name
}

/// A listing of topics: their records one after the other.
pub open spec fn listing_bytes(ts: Seq<TopicRecord>) -> Seq<u8>
    decreases ts.len(),
{
    if ts.len() == 0 {
        Seq::empty()
    } else {
        listing_bytes(ts.drop_last()) + topic_record_bytes(ts.last())
    }
}

/// The topic whose record starts at the front of `b`, if `b` holds all of it.
pub open spec fn topic_at(b: Seq<u8>) -> Option<TopicRecord> {
    if b.len() < 12 {
        None
    } else {
        let len = u32_at(b, 8) as int;
        if b.len() < 12 + len {
            None
        } else {
            Some(TopicRecord { id: u32_at(b, 0), partitions: u32_at(b, 4), name: b.subrange(12, 12 + len) })
        }
    }
}

/// The records of a topic listing. A record cut short makes the listing
/// malformed (`None`).
pub open spec fn parse_topics(b: Seq<u8>) -> Option<Seq<TopicRecord>>
    decreases b.len(),
{
    if b.len() == 0 {
        Some(Seq::empty())
    } else {
        match topic_at(b) {
            None => None,
            Some(t) => match parse_topics(b.subrange(12 + t.name.len() as int, b.len() as int)) {
                Some(rest) => Some(seq![t] + rest),
                None => None,
            },
        }
    }
}

/// A name fits in a record.
pub open spec fn listable(t: TopicRecord) -> bool {
    t.name.len() <= u32::MAX
}

proof fn lemma_topic_record_round_trip(t: TopicRecord, rest: Seq<u8>)
    requires
        listable(t),
    ensures
        topic_at(topic_record_bytes(t) + rest) == Some(t),
        topic_record_bytes(t).len() == 12 + t.name.len(),
        (topic_record_bytes(t) + rest).subrange(12 + t.name.len() as int, (topic_record_bytes(t)
            + rest).len() as int) == rest,
{
    vstd::bytes::lemma_auto_spec_u32_to_from_le_bytes();
    let r = topic_record_bytes(t);
    let b = r + rest;
    assert(b.subrange(0, 4) =~= spec_u32_to_le_bytes(t.id));
    assert(b.subrange(4, 8) =~= spec_u32_to_le_bytes(t.partitions));
    assert(b.subrange(8, 12) =~= spec_u32_to_le_bytes(t.name.len() as u32));
    assert(b.subrange(12, 12 + t.name.len() as int) =~= t.name);
    assert(b.subrange(r.len() as int, b.len() as int) =~= rest);
}

proof fn lemma_listing_prefix(ts: Seq<TopicRecord>, rest: Seq<u8>)
    requires
        forall|i: int| 0 <= i < ts.len() ==> listable(#[trigger] ts[i]),
        parse_topics(rest) is Some,
    ensures
        parse_topics(listing_bytes(ts) + rest) == Some(ts + parse_topics(rest)->Some_0),
    decreases ts.len(),
{
    if ts.len() == 0 {
        assert(listing_bytes(ts) + rest =~= rest);
        assert(ts + parse_topics(rest)->Some_0 =~= parse_topics(rest)->Some_0);
    } else {
        let init = ts.drop_last();
        let t = ts.last();
        assert(listable(ts[ts.len() - 1]));
        lemma_topic_record_round_trip(t, rest);
        let tail = topic_record_bytes(t) + rest;
        assert(parse_topics(tail) == Some(seq![t] + parse_topics(rest)->Some_0));
        assert forall|i: int| 0 <= i < init.len() implies listable(#[trigger] init[i]) by {
            assert(init[i] == ts[i]);
        }
        lemma_listing_prefix(init, tail);
        assert(listing_bytes(ts) + rest =~= listing_bytes(init) + tail);
        assert(init + (seq![t] + parse_topics(rest)->Some_0) =~= ts + parse_topics(rest)->Some_0);
    }
}

/// Listing round trip: a client reading the listing that the server wrote
/// gets back the same topics.
pub proof fn lemma_listing_round_trip(ts: Seq<TopicRecord>)
    requires
        forall|i: int| 0 <= i < ts.len() ==> listable(#[trigger] ts[i]),
    ensures
        parse_topics(listing_bytes(ts)) == Some(ts),
{
    assert(parse_topics(Seq::<u8>::empty()) == Some(Seq::<TopicRecord>::empty()));
    lemma_listing_prefix(ts, Seq::empty());
    assert(listing_bytes(ts) + Seq::<u8>::empty() =~= listing_bytes(ts));
    assert(ts + Seq::<TopicRecord>::empty() =~= ts);
}

/// Writes a topic listing.
pub fn encode_topics(topics: &Vec<Topic>) -> (r: Vec<u8>)
    requires
        forall|i: int| 0 <= i < topics@.len() ==> listable(#[trigger] topics@[i]@),
    ensures
        r@ == listing_bytes(topic_records(topics@)),
{
    let ghost ts = topic_records(topics@);
    let mut out: Vec<u8> = Vec::new();
    let mut i: usize = 0;
    proof {
        assert(ts.take(0) =~= Seq::<TopicRecord>::empty());
    }
    while i < topics.len()
        invariant
            ts == topic_records(topics@),
            i <= topics@.len(),
            forall|j: int| 0 <= j < topics@.len() ==> listable(#[trigger] topics@[j]@),
            out@ == listing_bytes(ts.take(i as int)),
        decreases topics@.len() - i,
    {
        let t = &topics[i];
        assert(listable(topics@[i as int]@));
        append_bytes(&mut out, u32_to_le_bytes(t.id).as_slice());
        append_bytes(&mut out, u32_to_le_bytes(t.partitions).as_slice());
        append_bytes(&mut out, u32_to_le_bytes(t.name.len() as u32).as_slice());
        append_bytes(&mut out, t.name.as_slice());
        proof {
            let x = ts.take(i + 1);
            assert(x.drop_last() =~= ts.take(i as int));
            assert(x.last() == t@);
            assert(out@ =~= listing_bytes(ts.take(i as int)) + topic_record_bytes(t@));
        }
        i += 1;
    }
    proof {
        assert(ts.take(i as int) =~= ts);
    }
    out
}

/// Ordered by id, ascending.
pub open spec fn sorted_by_id(ts: Seq<TopicRecord>) -> bool {
    forall|i: int, j: int| 0 <= i < j < ts.len() ==> #[trigger] ts[i].id <= #[trigger] ts[j].id
}

fn read_u32(b: &[u8], pos: usize) -> (r: u32)
    requires
        pos + 4 <= b@.len(),
    ensures
        r == u32_at(b@, pos as int),
{
    let n = b.len();
    assert(pos + 4 <= n);
    let four = copy_range(b, pos, pos + 4);
    u32_from_le_bytes(four.as_slice())
}

/// Reads a topic listing and orders it by id. An empty response is an empty
/// listing; a record cut short is `InvalidFormat`.
pub fn handle_response(response: &[u8]) -> (r: Result<Vec<Topic>, IggyError>)
    ensures
        parse_topics(response@) is None ==> r == Err::<Vec<Topic>, IggyError>(
            IggyError::InvalidFormat,
        ),
        parse_topics(response@) matches Some(ts) ==> {
            &&& r is Ok
            &&& sorted_by_id(topic_records(r->Ok_0@))
            &&& topic_records(r->Ok_0@).to_multiset() == ts.to_multiset()
        },
{
    let ghost b = response@;
    let length = response.len();
    let mut parsed: Vec<Topic> = Vec::new();
    let mut position: usize = 0;
    proof {
        assert(b.subrange(0, length as int) =~= b);
        assert(topic_records(parsed@) =~= Seq::<TopicRecord>::empty());
        if let Some(all) = parse_topics(b) {
            assert(Seq::<TopicRecord>::empty() + all =~= all);
        }
    }
    while position < length
        invariant
            b == response@,
            length == b.len(),
            position <= length,
            parse_topics(b) is Some <==> parse_topics(b.subrange(position as int, length as int)) is Some,
            parse_topics(b.subrange(position as int, length as int)) matches Some(rest) ==> parse_topics(b)
                == Some(topic_records(parsed@) + rest),
        decreases length - position,
    {
        let ghost here = b.subrange(position as int, length as int);
        if length - position < 12 {
            assert(topic_at(here) is None);
            return Err(IggyError::InvalidFormat);
        }
        let id = read_u32(response, position);
        let partitions = read_u32(response, position + 4);
        let name_length = read_u32(response, position + 8) as usize;
        proof {
            assert(here.subrange(0, 4) =~= b.subrange(position as int, position + 4));
            assert(here.subrange(4, 8) =~= b.subrange(position + 4, position + 8));
            assert(here.subrange(8, 12) =~= b.subrange(position + 8, position + 12));
        }
        if length - position - 12 < name_length {
            assert(topic_at(here) is None);
            return Err(IggyError::InvalidFormat);
        }
        let name = copy_range(response, position + 12, position + 12 + name_length);
        let topic = Topic { id, partitions, name };
        let ghost before = parsed@;
        parsed.push(topic);
        proof {
            let next = position + 12 + name_length;
            assert(here.subrange(12, 12 + name_length) =~= b.subrange(position + 12, next as int));
            assert(topic_at(here) == Some(topic@));
            assert(here.subrange(12 + name_length, here.len() as int) =~= b.subrange(next as int, length as int));
            assert(topic_records(parsed@) =~= topic_records(before).push(topic@));
            if let Some(rest) = parse_topics(b.subrange(next as int, length as int)) {
                assert(parse_topics(here) == Some(seq![topic@] + rest));
                assert(topic_records(before) + (seq![topic@] + rest) =~= topic_records(parsed@)
                    + rest);
            }
        }
        position = position + 12 + name_length;
    }
    proof {
        assert(b.subrange(position as int, length as int) =~= Seq::<u8>::empty());
        assert(topic_records(parsed@) + Seq::<TopicRecord>::empty() =~= topic_records(parsed@));
    }
    Ok(sort_by_id(parsed))
}

/// The topics ordered by id; topics with equal ids keep their order.
fn sort_by_id(topics: Vec<Topic>) -> (r: Vec<Topic>)
    ensures
        sorted_by_id(topic_records(r@)),
        topic_records(r@).to_multiset() == topic_records(topics@).to_multiset(),
{
    let mut sorted: Vec<Topic> = Vec::new();
    let mut rest = topics;
    let ghost all = topic_records(rest@);
    let mut k: usize = 0;
    let n = rest.len();
    proof {
        assert(all.len() == n);
        assert(all.take(0) =~= Seq::<TopicRecord>::empty());
        assert(topic_records(sorted@) =~= Seq::<TopicRecord>::empty());
    }
    while rest.len() > 0
        invariant
            topic_records(rest@) == all.skip(k as int),
            k <= all.len(),
            all.len() == n,
            sorted_by_id(topic_records(sorted@)),
            topic_records(sorted@).to_multiset() == all.take(k as int).to_multiset(),
        decreases rest@.len(),
    {
        let ghost old_rest = rest@;
        proof {
            assert(topic_records(old_rest).len() == old_rest.len());
            assert(k < all.len());
        }
        let topic = rest.remove(0);
        proof {
            assert(topic == old_rest[0]);
            assert(topic_records(old_rest)[0] == all.skip(k as int)[0]);
            assert(topic@ == all[k as int]);
            assert(rest@ == old_rest.remove(0));
            assert forall|i: int| 0 <= i < rest@.len() implies #[trigger] topic_records(rest@)[i]
                == all.skip(k + 1)[i] by {
                assert(rest@[i] == old_rest[i + 1]);
                assert(topic_records(old_rest)[i + 1] == all.skip(k as int)[i + 1]);
            }
            assert(topic_records(rest@) =~= all.skip(k + 1));
        }
        let mut pos: usize = 0;
        while pos < sorted.len() && sorted[pos].id <= topic.id
            invariant
                pos <= sorted@.len(),
                forall|j: int| 0 <= j < pos ==> #[trigger] sorted@[j].id <= topic.id,
            decreases sorted@.len() - pos,
        {
            pos += 1;
        }
        let ghost before = topic_records(sorted@);
        sorted.insert(pos, topic);
        proof {
            let s = topic_records(sorted@);
            assert(s =~= before.insert(pos as int, topic@));
            assert forall|i: int, j: int| 0 <= i < j < s.len() implies #[trigger] s[i].id <= #[trigger] s[j].id by {
                if j < pos {
                } else if j == pos {
                    assert(s[i] == before[i]);
                } else if i < pos {
                    assert(s[j] == before[j - 1]);
                    assert(before[i].id <= topic.id);
                    if pos < before.len() {
                        assert(topic.id < before[pos as int].id);
                        assert(before[pos as int].id <= before[j - 1].id || j - 1 == pos);
                    }
                } else if i == pos {
                    assert(s[j] == before[j - 1]);
                    assert(topic.id < before[pos as int].id);
                    assert(before[pos as int].id <= before[j - 1].id || j - 1 == pos);
                } else {
                    assert(s[i] == before[i - 1]);
                    assert(s[j] == before[j - 1]);
                }
            }
            assert(all.take(k + 1) =~= all.take(k as int).push(all[k as int]));
            vstd::seq_lib::to_multiset_build(all.take(k as int), all[k as int]);
        }
        k += 1;
    }
    proof {
        assert(all.take(k as int) =~= all);
    }
    sorted
}

} // verus!
