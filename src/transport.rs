use crate::codec::append_bytes;
use std::ops::Range;
use std::sync::Arc;
use vstd::prelude::*;
use vstd::bytes::{spec_u32_to_le_bytes, spec_u64_to_le_bytes, u32_to_le_bytes, u64_to_le_bytes};

verus! {

/// Bytes that the header of a batch takes on disk.
pub const IGGY_BATCH_OVERHEAD: u64 = 32;

/// The header of a batch of messages.
#[derive(Debug, Clone, Copy, PartialEq, Eq, Structural, Default)]
pub struct IggyHeader {
    pub base_offset: u64,
    pub last_offset_delta: u32,
    pub base_timestamp: u64,
    pub messages_count: u32,
    pub batch_length: u32,
    pub attributes: u32,
}

/// The on-disk form of a batch header: its fields as little-endian integers,
/// in declaration order.
pub open spec fn spec_header_bytes(h: IggyHeader) -> Seq<u8> {
    spec_u64_to_le_bytes(h.base_offset) + spec_u32_to_le_bytes(h.last_offset_delta)
        + spec_u64_to_le_bytes(h.base_timestamp) + spec_u32_to_le_bytes(h.messages_count)
        + spec_u32_to_le_bytes(h.batch_length) + spec_u32_to_le_bytes(h.attributes)
}

impl IggyHeader {
    /// The on-disk form of the header, `IGGY_BATCH_OVERHEAD` bytes long.
    pub fn as_bytes(&self) -> (r: Vec<u8>)
        ensures
            r@ == spec_header_bytes(*self),
            r@.len() == IGGY_BATCH_OVERHEAD,
    {
        proof {
            vstd::bytes::lemma_auto_spec_u32_to_from_le_bytes();
            vstd::bytes::lemma_auto_spec_u64_to_from_le_bytes();
        }
        let mut out = u64_to_le_bytes(self.base_offset);
        append_bytes(&mut out, u32_to_le_bytes(self.last_offset_delta).as_slice());
        append_bytes(&mut out, u64_to_le_bytes(self.base_timestamp).as_slice());
        append_bytes(&mut out, u32_to_le_bytes(self.messages_count).as_slice());
        append_bytes(&mut out, u32_to_le_bytes(self.batch_length).as_slice());
        append_bytes(&mut out, u32_to_le_bytes(self.attributes).as_slice());
        out
    }
}

/// A slice `[range.start, range.end)` of the bytes of a batch.
pub struct IggyBatchSlice {
    pub range: Range<usize>,
    pub bytes: Arc<Vec<u8>>,
}

/// A batch held in a partition cache: its header and its bytes.
#[derive(Debug)]
pub struct IggyBatchCachePhantom {
    pub header: IggyHeader,
    pub bytes: Arc<Vec<u8>>,
}

impl IggyBatchCachePhantom {
    pub fn new(header: IggyHeader, bytes: Arc<Vec<u8>>) -> (r: Self)
        ensures
            r.header == header,
            r.bytes == bytes,
    {
        Self { header, bytes }
    }

    /// Bytes that the batch takes in the cache: header and body.
    pub fn get_size_bytes(&self) -> (r: u64)
        ensures
            r == if IGGY_BATCH_OVERHEAD + self.bytes@.len() > u64::MAX {
                u64::MAX as int
            } else {
                IGGY_BATCH_OVERHEAD + self.bytes@.len()
            },
    {
        let len = self.bytes.len();
        IGGY_BATCH_OVERHEAD.saturating_add(len as u64)
    }
}

impl IggyBatchSlice {
    pub fn new(range: Range<usize>, bytes: Arc<Vec<u8>>) -> (r: Self)
        ensures
            r.range == range,
            r.bytes == bytes,
    {
        Self { range, bytes }
    }
}

/// What a read from the cache or from disk yields: slices of batches, in
/// offset order, and the header of the batch they start in.
pub struct IggyBatchFetchResult {
    pub batch_slices: Vec<IggyBatchSlice>,
    pub header: IggyHeader,
}

impl IggyBatchFetchResult {
    pub fn new(batch_slices: Vec<IggyBatchSlice>, header: IggyHeader) -> (r: Self)
        ensures
            r.batch_slices == batch_slices,
            r.header == header,
    {
        Self { batch_slices, header }
    }
}

} // verus!
