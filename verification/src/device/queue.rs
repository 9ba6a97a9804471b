//! User-mode queues: indexes, a packet ring, and observation.
//!
//! The packet ring starts with every header typed `INVALID`. Queues are
//! observed, not executed: the observe cursor is separate from the HSA read
//! index, and each packet index is observed at most once. The read index is
//! never advanced as if a kernel had completed.
use super::handle::PackedHandle;
use crate::bytes::le16;
use std::collections::HashSet;
use vstd::prelude::*;

verus! {

/// AQL packet size in bytes.
pub const AQL_PACKET_BYTES: usize = 64;

/// `HSA_PACKET_TYPE_INVALID`.
pub const PACKET_TYPE_INVALID: u16 = 1;

/// `HSA_PACKET_TYPE_KERNEL_DISPATCH`.
pub const PACKET_TYPE_KERNEL_DISPATCH: u16 = 2;

/// Software queue size limits (not hardware facts).
pub const SOFTGPU_QUEUE_MIN_SIZE: u32 = 64;

pub const SOFTGPU_QUEUE_MAX_SIZE: u32 = 16384;

pub const SOFTGPU_QUEUES_MAX: u32 = 64;

/// `HSA_QUEUE_TYPE_MULTI`.
pub const QUEUE_TYPE_MULTI: u32 = 0;

/// `HSA_QUEUE_TYPE_SINGLE`.
pub const QUEUE_TYPE_SINGLE: u32 = 1;

/// `HSA_QUEUE_FEATURE_KERNEL_DISPATCH`.
pub const QUEUE_FEATURE_KERNEL_DISPATCH: u32 = 1;

/// One observed packet.
#[derive(Debug, Clone, PartialEq, Eq)]
pub struct PacketObservation {
    pub packet_index: u64,
    pub packet_type: u16,
}

/// Why observation stopped at a packet.
#[derive(Debug, Clone, PartialEq, Eq)]
pub enum PacketValidateError {
    StillInvalid { packet_index: u64 },
    UnsupportedType { packet_index: u64, packet_type: u16 },
    AlreadyObserved { packet_index: u64 },
}

/// A software queue.
#[derive(Debug)]
pub struct SoftGpuQueue {
    pub handle: PackedHandle,
    pub agent_handle: PackedHandle,
    pub id: u64,
    /// Capacity in packets.
    pub size: u32,
    /// The packet ring, `size * AQL_PACKET_BYTES` bytes.
    pub packets: Vec<u8>,
    pub doorbell: PackedHandle,
    pub write_index: u64,
    pub read_index: u64,
    pub doorbell_stores: u64,
    /// Observe cursor (not the HSA read index).
    pub observed_through: u64,
    pub observed_ids: HashSet<u64>,
}

/// Header type byte of packet `index` in a ring of `size` packets, or
/// `INVALID` when its slot lies outside the buffer.
pub open spec fn packet_type_spec(packets: Seq<u8>, size: u32, index: u64) -> u16 {
    let sz: int = if size == 0 { 1 } else { size as int };
    let offset = (index % (sz as u64)) * 64;
    if offset + 2 > packets.len() {
        PACKET_TYPE_INVALID
    } else {
        (le16(packets, offset as int) % 256) as u16
    }
}

/// The header of packet `index` lies inside the ring buffer.
pub open spec fn slot_in_ring(packets: Seq<u8>, size: u32, index: u64) -> bool {
    let sz: int = if size == 0 { 1 } else { size as int };
    (index % (sz as u64)) * 64 + 2 <= packets.len()
}

/// Types observation accepts: kernel dispatch, barrier-and, agent dispatch, barrier-or.
pub open spec fn observable_type(t: u16) -> bool {
    t == 2 || t == 3 || t == 4 || t == 5
}

/// Packet `k` can be observed given the set already observed.
pub open spec fn packet_ok(packets: Seq<u8>, size: u32, seen: Set<u64>, k: u64) -> bool {
    let t = packet_type_spec(packets, size, k);
    t != PACKET_TYPE_INVALID && observable_type(t) && !seen.contains(k)
}

/// The failure observation reports at packet `k`.
pub open spec fn packet_error(packets: Seq<u8>, size: u32, seen: Set<u64>, k: u64) -> PacketValidateError {
    let t = packet_type_spec(packets, size, k);
    if t == PACKET_TYPE_INVALID {
        PacketValidateError::StillInvalid { packet_index: k }
    } else if !observable_type(t) {
        PacketValidateError::UnsupportedType { packet_index: k, packet_type: t }
    } else {
        PacketValidateError::AlreadyObserved { packet_index: k }
    }
}

/// The indexes `lo..hi`.
pub open spec fn index_range(lo: u64, hi: u64) -> Set<u64> {
    Set::new(|k: u64| lo <= k < hi)
}

/// Observation of `lo..hi` stopped at packet `k` with error `e`, having
/// observed `lo..k`.
pub open spec fn stopped_at(
    packets: Seq<u8>,
    size: u32,
    seen: Set<u64>,
    lo: u64,
    hi: u64,
    k: u64,
    e: PacketValidateError,
    seen_after: Set<u64>,
) -> bool {
    &&& lo <= k < hi
    &&& forall|j: u64| lo <= j < k ==> packet_ok(packets, size, seen, j)
    &&& !packet_ok(packets, size, seen, k)
    &&& e == packet_error(packets, size, seen, k)
    &&& seen_after == seen.union(index_range(lo, k))
}

/// A ring of `size` packets whose every header is typed `INVALID`.
pub open spec fn fresh_ring(b: Seq<u8>, size: nat) -> bool {
    &&& b.len() == size * AQL_PACKET_BYTES
    &&& forall|i: int| 0 <= i < b.len() ==> #[trigger] b[i] == (if i % 64 == 0 { 1u8 } else { 0u8 })
}

/// Set every packet's header type to `INVALID` and clear the rest.
pub fn init_packet_buffer(buf: &mut [u8])
    requires
        old(buf)@.len() % 64 == 0,
    ensures
        fresh_ring(final(buf)@, old(buf)@.len() / 64),
{
    let n = buf.len();
    let mut i: usize = 0;
    while i < n
        invariant
            n == buf@.len(),
            n % 64 == 0,
            i <= n,
            forall|j: int| 0 <= j < i ==> #[trigger] buf@[j] == (if j % 64 == 0 { 1u8 } else { 0u8 }),
        decreases n - i,
    {
        buf[i] = if i % 64 == 0 { 1u8 } else { 0u8 };
        i = i + 1;
    }
    assert((n / 64) * 64 == n) by (nonlinear_arith)
        requires
            n % 64 == 0,
    ;
}

/// `n` is a non-zero power of two.
pub open spec fn pow2_spec(n: u32) -> bool {
    n != 0 && n & ((n - 1) as u32) == 0
}

pub fn is_power_of_two(n: u32) -> (r: bool)
    ensures
        r == pow2_spec(n),
{
    n != 0 && n & (n - 1) == 0
}

impl SoftGpuQueue {
    /// The observed set and the ring are consistent with the cursor.
    pub open spec fn wf(&self) -> bool {
        &&& self.packets@.len() == self.size * AQL_PACKET_BYTES
    }

    /// A queue of `size` packets with a fresh ring and zeroed indexes.
    pub fn new(handle: PackedHandle, agent_handle: PackedHandle, id: u64, size: u32, doorbell: PackedHandle) -> (q: Self)
        requires
            size <= SOFTGPU_QUEUE_MAX_SIZE,
        ensures
            q.wf(),
            q.handle == handle,
            q.agent_handle == agent_handle,
            q.id == id,
            q.size == size,
            q.doorbell == doorbell,
            fresh_ring(q.packets@, size as nat),
            q.write_index == 0,
            q.read_index == 0,
            q.doorbell_stores == 0,
            q.observed_through == 0,
            q.observed_ids@ == Set::<u64>::empty(),
    {
        let n = size as usize * AQL_PACKET_BYTES;
        let mut packets: Vec<u8> = Vec::new();
        crate::bytes::push_zeros(&mut packets, n);
        assert(n % 64 == 0) by (nonlinear_arith)
            requires
                n == size * 64,
        ;
        init_packet_buffer(packets.as_mut_slice());
        assert(n / 64 == size) by (nonlinear_arith)
            requires
                n == size * 64,
        ;
        SoftGpuQueue {
            handle,
            agent_handle,
            id,
            size,
            packets,
            doorbell,
            write_index: 0,
            read_index: 0,
            doorbell_stores: 0,
            observed_through: 0,
            observed_ids: HashSet::new(),
        }
    }

    pub fn size_packets(&self) -> (r: u64)
        ensures
            r == self.size,
    {
        self.size as u64
    }

    pub fn write_index(&self) -> (r: u64)
        ensures
            r == self.write_index,
    {
        self.write_index
    }

    pub fn read_index(&self) -> (r: u64)
        ensures
            r == self.read_index,
    {
        self.read_index
    }

    pub fn observed_through(&self) -> (r: u64)
        ensures
            r == self.observed_through,
    {
        self.observed_through
    }

    pub fn store_write_index(&mut self, value: u64)
        ensures
            *final(self) == (SoftGpuQueue { write_index: value, ..*old(self) }),
    {
        self.write_index = value;
    }

    pub fn store_read_index(&mut self, value: u64)
        ensures
            *final(self) == (SoftGpuQueue { read_index: value, ..*old(self) }),
    {
        self.read_index = value;
    }

    pub fn note_doorbell_store(&mut self)
        ensures
            *final(self) == (SoftGpuQueue {
                doorbell_stores: if old(self).doorbell_stores == u64::MAX {
                    0
                } else {
                    (old(self).doorbell_stores + 1) as u64
                },
                ..*old(self)
            }),
    {
        self.doorbell_stores = self.doorbell_stores.wrapping_add(1);
    }

    pub fn doorbell_store_count(&self) -> (r: u64)
        ensures
            r == self.doorbell_stores,
    {
        self.doorbell_stores
    }

    fn slot_offset(&self, packet_index: u64) -> (r: Option<usize>)
        ensures
            match r {
                Some(o) => {
                    let sz: int = if self.size == 0 { 1 } else { self.size as int };
                    &&& o == (packet_index % (sz as u64)) * 64
                    &&& o + 2 <= self.packets@.len()
                },
                None => {
                    let sz: int = if self.size == 0 { 1 } else { self.size as int };
                    (packet_index % (sz as u64)) * 64 + 2 > self.packets@.len()
                },
            },
    {
        let size: u64 = if self.size == 0 { 1 } else { self.size as u64 };
        let slot = packet_index % size;
        let len = self.packets.len();
        if slot as u128 * 64 + 2 > len as u128 {
            return None;
        }
        Some((slot * 64) as usize)
    }

    /// The 64 bytes of packet `packet_index`'s slot (empty when the slot
    /// lies outside the buffer).
    pub fn packet_bytes(&self, packet_index: u64) -> (r: Vec<u8>)
        ensures
            slot_in_ring(self.packets@, self.size, packet_index) && self.packets@.len() % 64 == 0 ==> ({
                let sz: int = if self.size == 0 { 1 } else { self.size as int };
                let o = (packet_index % (sz as u64)) * 64;
                r@ == self.packets@.subrange(o as int, o + 64)
            }),
            !slot_in_ring(self.packets@, self.size, packet_index) ==> r@.len() == 0,
    {
        match self.slot_offset(packet_index) {
            None => Vec::new(),
            Some(o) => {
                let mut out: Vec<u8> = Vec::new();
                if o as u128 + 64 > self.packets.len() as u128 {
                    return out;
                }
                let mut k: usize = 0;
                while k < 64
                    invariant
                        k <= 64,
                        o + 64 <= self.packets@.len(),
                        self.packets@.len() <= usize::MAX,
                        out@ == self.packets@.subrange(o as int, o + k),
                    decreases 64 - k,
                {
                    out.push(self.packets[o + k]);
                    k = k + 1;
                    assert(out@ =~= self.packets@.subrange(o as int, o + k));
                }
                out
            },
        }
    }

    /// Copies a 64-byte packet into packet `packet_index`'s slot; false
    /// (and nothing written) when the packet is not 64 bytes or the slot lies
    /// outside the buffer.
    pub fn write_packet(&mut self, packet_index: u64, bytes: &[u8]) -> (r: bool)
        ensures
            final(self).size == old(self).size,
            final(self).packets@.len() == old(self).packets@.len(),
            final(self).write_index == old(self).write_index,
            final(self).read_index == old(self).read_index,
            final(self).doorbell_stores == old(self).doorbell_stores,
            final(self).observed_through == old(self).observed_through,
            final(self).observed_ids@ == old(self).observed_ids@,
            final(self).id == old(self).id,
            final(self).handle == old(self).handle,
            final(self).doorbell == old(self).doorbell,
            final(self).agent_handle == old(self).agent_handle,
            !r ==> final(self).packets@ == old(self).packets@,
            r <==> bytes@.len() == 64 && ({
                let sz: int = if old(self).size == 0 { 1 } else { old(self).size as int };
                (packet_index % (sz as u64)) * 64 + 64 <= old(self).packets@.len()
            }),
            r ==> bytes@.len() == 64 && ({
                let sz: int = if old(self).size == 0 { 1 } else { old(self).size as int };
                let o = (packet_index % (sz as u64)) * 64;
                final(self).packets@ == old(self).packets@.subrange(0, o as int) + bytes@ + old(self).packets@.subrange(
                    o + 64,
                    old(self).packets@.len() as int,
                )
            }),
    {
        if bytes.len() != 64 {
            return false;
        }
        let o = match self.slot_offset(packet_index) {
            None => {
                return false;
            },
            Some(o) => o,
        };
        if o as u128 + 64 > self.packets.len() as u128 {
            return false;
        }
        let ghost b0 = self.packets@;
        let mut k: usize = 0;
        while k < 64
            invariant
                k <= 64,
                bytes@.len() == 64,
                o + 64 <= b0.len(),
                b0.len() <= usize::MAX,
                self.packets@.len() == b0.len(),
                self.size == old(self).size,
                self.write_index == old(self).write_index,
                self.read_index == old(self).read_index,
                self.doorbell_stores == old(self).doorbell_stores,
                self.observed_through == old(self).observed_through,
                self.observed_ids@ == old(self).observed_ids@,
                self.id == old(self).id,
                self.handle == old(self).handle,
                self.doorbell == old(self).doorbell,
                self.agent_handle == old(self).agent_handle,
                forall|j: int| 0 <= j < o ==> self.packets@[j] == b0[j],
                forall|j: int| 0 <= j < k ==> self.packets@[o + j] == bytes@[j],
                forall|j: int| o + k <= j < b0.len() ==> self.packets@[j] == b0[j],
            decreases 64 - k,
        {
            self.packets.set(o + k, bytes[k]);
            k = k + 1;
        }
        assert(self.packets@ =~= b0.subrange(0, o as int) + bytes@ + b0.subrange(o + 64, b0.len() as int));
        true
    }

    /// Header type of packet `packet_index` (`INVALID` outside the buffer).
    pub fn packet_type_at(&self, packet_index: u64) -> (r: u16)
        ensures
            r == packet_type_spec(self.packets@, self.size, packet_index),
    {
        match self.slot_offset(packet_index) {
            None => PACKET_TYPE_INVALID,
            Some(o) => (crate::bytes::le_u16_at(self.packets.as_slice(), o) % 256) as u16,
        }
    }

    /// Write the header type of packet `packet_index` (ignored when its slot
    /// lies outside the buffer).
    pub fn write_packet_type(&mut self, packet_index: u64, packet_type: u16)
        ensures
            final(self).size == old(self).size,
            final(self).id == old(self).id,
            final(self).handle == old(self).handle,
            final(self).agent_handle == old(self).agent_handle,
            final(self).doorbell == old(self).doorbell,
            final(self).doorbell_stores == old(self).doorbell_stores,
            final(self).packets@.len() == old(self).packets@.len(),
            final(self).write_index == old(self).write_index,
            final(self).read_index == old(self).read_index,
            final(self).observed_through == old(self).observed_through,
            final(self).observed_ids@ == old(self).observed_ids@,
            slot_in_ring(old(self).packets@, old(self).size, packet_index) ==> packet_type_spec(
                final(self).packets@,
                final(self).size,
                packet_index,
            ) == packet_type % 256,
            !slot_in_ring(old(self).packets@, old(self).size, packet_index) ==> final(self).packets@ == old(
                self,
            ).packets@,
            forall|k: u64|
                ({
                    let sz: int = if old(self).size == 0 { 1 } else { old(self).size as int };
                    k % (sz as u64) != packet_index % (sz as u64)
                }) ==> packet_type_spec(final(self).packets@, final(self).size, k) == packet_type_spec(
                    old(self).packets@,
                    old(self).size,
                    k,
                ),
    {
        if let Some(o) = self.slot_offset(packet_index) {
            self.packets.set(o, (packet_type % 256) as u8);
            self.packets.set(o + 1, (packet_type / 256) as u8);
        }
    }

    /// Observe the packets in `[observed_through, write_index)`, each at most
    /// once. Stops at the first packet that is still `INVALID`, of a type
    /// observation does not accept, or already observed; then the cursor
    /// stays put and the packets before it count as observed.
    pub fn observe_packets(&mut self) -> (r: Result<Vec<PacketObservation>, PacketValidateError>)
        ensures
            final(self).size == old(self).size,
            final(self).packets@ == old(self).packets@,
            final(self).write_index == old(self).write_index,
            final(self).read_index == old(self).read_index,
            final(self).doorbell_stores == old(self).doorbell_stores,
            final(self).handle == old(self).handle,
            final(self).id == old(self).id,
            final(self).doorbell == old(self).doorbell,
            final(self).agent_handle == old(self).agent_handle,
            match r {
                Ok(obs) => {
                    let lo = old(self).observed_through;
                    let hi = old(self).write_index;
                    &&& forall|k: u64| lo <= k < hi ==> packet_ok(old(self).packets@, old(self).size, old(self).observed_ids@, k)
                    &&& obs@.len() == (if hi > lo { hi - lo } else { 0 })
                    &&& forall|i: int| 0 <= i < obs@.len() ==> #[trigger] obs@[i] == (PacketObservation {
                        packet_index: (lo + i) as u64,
                        packet_type: packet_type_spec(old(self).packets@, old(self).size, (lo + i) as u64),
                    })
                    &&& final(self).observed_ids@ == old(self).observed_ids@.union(index_range(lo, hi))
                    &&& final(self).observed_through == (if hi > lo { hi } else { lo })
                },
                Err(e) => exists|k: u64|
                    #[trigger] stopped_at(
                        old(self).packets@,
                        old(self).size,
                        old(self).observed_ids@,
                        old(self).observed_through,
                        old(self).write_index,
                        k,
                        e,
                        final(self).observed_ids@,
                    ) && final(self).observed_through == old(self).observed_through,
            },
    {
        broadcast use vstd::std_specs::hash::group_hash_axioms;
        let write = self.write_index;
        let lo = self.observed_through;
        let ghost seen0 = self.observed_ids@;
        let mut cursor = lo;
        let mut out: Vec<PacketObservation> = Vec::new();
        while cursor < write
            invariant
                lo <= cursor,
                cursor <= write || cursor == lo,
                write == self.write_index,
                lo == self.observed_through,
                self.size == old(self).size,
                self.packets@ == old(self).packets@,
                self.write_index == old(self).write_index,
                self.read_index == old(self).read_index,
                self.doorbell_stores == old(self).doorbell_stores,
                self.handle == old(self).handle,
                self.id == old(self).id,
                self.doorbell == old(self).doorbell,
                self.agent_handle == old(self).agent_handle,
                self.observed_through == old(self).observed_through,
                seen0 == old(self).observed_ids@,
                out@.len() == cursor - lo,
                forall|j: u64| lo <= j < cursor ==> packet_ok(self.packets@, self.size, seen0, j),
                forall|i: int| 0 <= i < out@.len() ==> #[trigger] out@[i] == (PacketObservation {
                    packet_index: (lo + i) as u64,
                    packet_type: packet_type_spec(self.packets@, self.size, (lo + i) as u64),
                }),
                self.observed_ids@ == seen0.union(index_range(lo, cursor)),
            decreases write - cursor,
        {
            let ty = self.packet_type_at(cursor);
            if ty == PACKET_TYPE_INVALID {
                let e = PacketValidateError::StillInvalid { packet_index: cursor };
                assert(stopped_at(old(self).packets@, old(self).size, old(self).observed_ids@, lo, write, cursor, e, self.observed_ids@));
                return Err(e);
            }
            if ty != PACKET_TYPE_KERNEL_DISPATCH && ty != 3 && ty != 4 && ty != 5 {
                let e = PacketValidateError::UnsupportedType { packet_index: cursor, packet_type: ty };
                assert(stopped_at(old(self).packets@, old(self).size, old(self).observed_ids@, lo, write, cursor, e, self.observed_ids@));
                return Err(e);
            }
            assert(!index_range(lo, cursor).contains(cursor));
            if !self.observed_ids.insert(cursor) {
                let e = PacketValidateError::AlreadyObserved { packet_index: cursor };
                assert(self.observed_ids@ =~= seen0.union(index_range(lo, cursor)));
                assert(seen0.contains(cursor));
                assert(stopped_at(old(self).packets@, old(self).size, old(self).observed_ids@, lo, write, cursor, e, self.observed_ids@));
                return Err(e);
            }
            assert(self.observed_ids@ =~= seen0.union(index_range(lo, (cursor + 1) as u64)));
            out.push(PacketObservation { packet_index: cursor, packet_type: ty });
            cursor = cursor + 1;
        }
        self.observed_through = cursor;
        Ok(out)
    }

    /// Number of distinct packets observed so far.
    pub fn observed_count(&self) -> (r: usize)
        ensures
            r == self.observed_ids@.len(),
    {
        broadcast use vstd::std_specs::hash::group_hash_axioms;
        self.observed_ids.len()
    }
}

} // verus!
