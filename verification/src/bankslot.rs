//! The bank-slot table (`BankSlot.dat`): a little-endian `u16` slot count
//! followed by fixed-size slot records.
//!
//! Each record is 4,820 bytes: a buffer offset, a buffer size, three
//! integers of partially understood meaning, and a tail of exactly 400
//! integer triples that is preserved verbatim.

use vstd::prelude::*;

use crate::error::Error;
use crate::wire::{spec_u16_le, spec_u32_le, spec_u16_of_le, read_u16_le, read_u32_le,
    push_u16_le, push_u32_le, lemma_u16_of_le_round_trip, lemma_u32_of_le_round_trip};

verus! {

/// Number of integer triples in the preserved tail of every slot.
pub const SLOT_TAIL_TRIPLES: usize = 400;

/// Size in bytes of one on-disk slot record.
pub const SLOT_SIZE: usize = 4820;

/// The twelve little-endian bytes of one integer triple.
pub open spec fn spec_triple_bytes(t: [u32; 3]) -> Seq<u8> {
    spec_u32_le(t[0]) + spec_u32_le(t[1]) + spec_u32_le(t[2])
}

/// The bytes of a sequence of integer triples, concatenated in order.
pub open spec fn spec_triples_bytes(ts: Seq<[u32; 3]>) -> Seq<u8>
    decreases ts.len(),
{
    if ts.len() == 0 {
        Seq::empty()
    } else {
        spec_triples_bytes(ts.drop_last()) + spec_triple_bytes(ts.last())
    }
}

/// One slot of the bank-slot table.
#[derive(Debug, Clone, PartialEq, Eq)]
pub struct Slot {
    /// Sum of all buffer sizes before this slot.
    pub offset: u32,
    /// Buffer size for this slot.
    pub size: u32,
    /// Three integers of partially understood meaning, preserved verbatim.
    pub unknown: [u32; 3],
    /// Tail of exactly 400 integer triples, preserved verbatim.
    pub tail: Vec<[u32; 3]>,
}

impl Slot {
    /// A slot is well formed when its tail holds exactly 400 triples.
    pub open spec fn wf(self) -> bool {
        self.tail@.len() == SLOT_TAIL_TRIPLES
    }

    /// The 4,820 bytes this slot occupies on disk.
    pub open spec fn spec_bytes(self) -> Seq<u8> {
        spec_u32_le(self.offset) + spec_u32_le(self.size) + spec_triple_bytes(self.unknown)
            + spec_triples_bytes(self.tail@)
    }
}

/// The bytes of a sequence of slots, concatenated in order.
pub open spec fn spec_slots_bytes(slots: Seq<Slot>) -> Seq<u8>
    decreases slots.len(),
{
    if slots.len() == 0 {
        Seq::empty()
    } else {
        spec_slots_bytes(slots.drop_last()) + slots.last().spec_bytes()
    }
}

/// Sum of the first `i` of the given buffer sizes.
pub open spec fn spec_size_sum(sizes: Seq<u32>, i: int) -> int
    decreases i,
{
    if i <= 0 {
        0
    } else {
        spec_size_sum(sizes, i - 1) + sizes[i - 1]
    }
}

pub proof fn lemma_size_sum_monotonic(sizes: Seq<u32>, i: int, j: int)
    requires
        0 <= i <= j <= sizes.len(),
    ensures
        spec_size_sum(sizes, i) <= spec_size_sum(sizes, j),
    decreases j - i,
{
    if i < j {
        lemma_size_sum_monotonic(sizes, i, j - 1);
    }
}

/// The bank-slot table: all slots of a `BankSlot.dat` file, in file order.
#[derive(Debug, Clone, PartialEq, Eq)]
pub struct BankSlot {
    pub slots: Vec<Slot>,
}

impl BankSlot {
    /// All slots carry their full 400-triple tail and the count fits the
    /// on-disk `u16`.
    pub open spec fn wf(self) -> bool {
        &&& self.slots@.len() <= u16::MAX
        &&& forall|i: int| 0 <= i < self.slots@.len() ==> (#[trigger] self.slots@[i]).wf()
    }

    /// The whole table as stored on disk.
    pub open spec fn spec_bytes(self) -> Seq<u8> {
        spec_u16_le(self.slots@.len() as u16) + spec_slots_bytes(self.slots@)
    }

    /// Parse a bank-slot file: a `u16` count, then that many slot records.
    /// Trailing bytes beyond the counted records are ignored; the parsed
    /// table re-serializes to exactly the bytes it was read from.
    #[verifier::rlimit(30)]
    pub fn from_reader(bytes: &[u8]) -> (r: Result<Self, Error>)
        ensures
            r is Ok <==> (bytes@.len() >= 2 && bytes@.len() >= 2 + spec_u16_of_le(
                bytes@.subrange(0, 2),
            ) * SLOT_SIZE),
            r matches Ok(t) ==> {
                &&& t.wf()
                &&& t.slots@.len() == spec_u16_of_le(bytes@.subrange(0, 2))
                &&& t.spec_bytes() == bytes@.subrange(
                    0,
                    2 + spec_u16_of_le(bytes@.subrange(0, 2)) * SLOT_SIZE,
                )
            },
    {
        if bytes.len() < 2 {
            return Err(Error::BinaryFormat);
        }
        let total_len = bytes.len();
        assert(total_len == bytes@.len());
        let num_slots = read_u16_le(bytes, 0) as usize;
        assert(num_slots * SLOT_SIZE <= 65535 * 4820) by (nonlinear_arith)
            requires
                num_slots <= 65535,
                SLOT_SIZE == 4820,
        ;
        if total_len < 2 + num_slots * SLOT_SIZE {
            return Err(Error::BinaryFormat);
        }
        let mut slots: Vec<Slot> = Vec::new();
        let mut pos: usize = 2;
        let mut k: usize = 0;
        while k < num_slots
            invariant
                k <= num_slots,
                pos == 2 + k * SLOT_SIZE,
                bytes@.len() >= 2 + num_slots * SLOT_SIZE,
                bytes@.len() <= usize::MAX,
                SLOT_SIZE == 4820,
                slots@.len() == k,
                forall|i: int| 0 <= i < slots@.len() ==> (#[trigger] slots@[i]).wf(),
                spec_slots_bytes(slots@) == bytes@.subrange(2, pos as int),
            decreases num_slots - k,
        {
            proof {
                assert((k + 1) * SLOT_SIZE as int <= num_slots * SLOT_SIZE as int)
                    by (nonlinear_arith)
                    requires
                        k < num_slots,
                        SLOT_SIZE == 4820,
                ;
            }
            let slot = Self::read_slot(bytes, pos);
            proof {
                assert(slots@.push(slot).drop_last() == slots@);
                assert(spec_slots_bytes(slots@.push(slot)) =~= bytes@.subrange(
                    2,
                    pos + SLOT_SIZE,
                ));
            }
            slots.push(slot);
            pos = pos + SLOT_SIZE;
            k = k + 1;
        }
        let table = BankSlot { slots };
        proof {
            lemma_u16_of_le_round_trip(bytes@.subrange(0, 2));
            assert(table.spec_bytes() =~= bytes@.subrange(0, 2 + num_slots * SLOT_SIZE as int));
        }
        Ok(table)
    }

    /// Read one 4,820-byte slot record at `pos`.
    #[verifier::rlimit(30)]
    fn read_slot(bytes: &[u8], pos: usize) -> (slot: Slot)
        requires
            pos + SLOT_SIZE <= bytes@.len(),
            bytes@.len() <= usize::MAX,
        ensures
            slot.wf(),
            slot.spec_bytes() == bytes@.subrange(pos as int, pos + SLOT_SIZE),
    {
        let offset = read_u32_le(bytes, pos);
        let size = read_u32_le(bytes, pos + 4);
        let unknown = [
            read_u32_le(bytes, pos + 8),
            read_u32_le(bytes, pos + 12),
            read_u32_le(bytes, pos + 16),
        ];
        let mut tail: Vec<[u32; 3]> = Vec::new();
        let mut t: usize = 0;
        while t < SLOT_TAIL_TRIPLES
            invariant
                t <= SLOT_TAIL_TRIPLES,
                pos + SLOT_SIZE <= bytes@.len(),
                bytes@.len() <= usize::MAX,
                tail@.len() == t,
                spec_triples_bytes(tail@) == bytes@.subrange(pos + 20, pos + 20 + t * 12),
            decreases SLOT_TAIL_TRIPLES - t,
        {
            proof {
                assert((t + 1) * 12 <= 4800) by (nonlinear_arith)
                    requires
                        t < 400,
                ;
            }
            let base = pos + 20 + t * 12;
            let triple = [
                read_u32_le(bytes, base),
                read_u32_le(bytes, base + 4),
                read_u32_le(bytes, base + 8),
            ];
            proof {
                lemma_u32_of_le_round_trip(bytes@.subrange(base as int, base + 4));
                lemma_u32_of_le_round_trip(bytes@.subrange(base + 4, base + 8));
                lemma_u32_of_le_round_trip(bytes@.subrange(base + 8, base + 12));
                assert(tail@.push(triple).drop_last() == tail@);
                assert(spec_triple_bytes(triple) =~= bytes@.subrange(base as int, base + 12));
                assert(spec_triples_bytes(tail@.push(triple)) =~= bytes@.subrange(
                    pos + 20,
                    pos + 20 + (t + 1) * 12,
                ));
            }
            tail.push(triple);
            t = t + 1;
        }
        let slot = Slot { offset, size, unknown, tail };
        proof {
            lemma_u32_of_le_round_trip(bytes@.subrange(pos as int, pos + 4));
            lemma_u32_of_le_round_trip(bytes@.subrange(pos + 4, pos + 8));
            lemma_u32_of_le_round_trip(bytes@.subrange(pos + 8, pos + 12));
            lemma_u32_of_le_round_trip(bytes@.subrange(pos + 12, pos + 16));
            lemma_u32_of_le_round_trip(bytes@.subrange(pos + 16, pos + 20));
            assert(slot.spec_bytes() =~= bytes@.subrange(pos as int, pos + SLOT_SIZE));
        }
        slot
    }

    /// Serialize the table back to its on-disk form. A slot without its
    /// full 400-triple tail cannot be written faithfully, so the caller
    /// must keep every tail intact.
    pub fn to_writer(&self) -> (out: Vec<u8>)
        requires
            self.wf(),
        ensures
            out@ == self.spec_bytes(),
    {
        let mut out: Vec<u8> = Vec::new();
        push_u16_le(&mut out, self.slots.len() as u16);
        let mut k: usize = 0;
        while k < self.slots.len()
            invariant
                k <= self.slots@.len(),
                self.wf(),
                out@ == spec_u16_le(self.slots@.len() as u16) + spec_slots_bytes(
                    self.slots@.subrange(0, k as int),
                ),
            decreases self.slots@.len() - k,
        {
            let slot = &self.slots[k];
            push_u32_le(&mut out, slot.offset);
            push_u32_le(&mut out, slot.size);
            push_u32_le(&mut out, slot.unknown[0]);
            push_u32_le(&mut out, slot.unknown[1]);
            push_u32_le(&mut out, slot.unknown[2]);
            let ghost mid = out@;
            let mut t: usize = 0;
            while t < slot.tail.len()
                invariant
                    t <= slot.tail@.len(),
                    out@ == mid + spec_triples_bytes(slot.tail@.subrange(0, t as int)),
                decreases slot.tail@.len() - t,
            {
                push_u32_le(&mut out, slot.tail[t][0]);
                push_u32_le(&mut out, slot.tail[t][1]);
                push_u32_le(&mut out, slot.tail[t][2]);
                proof {
                    let pre = slot.tail@.subrange(0, t as int);
                    let cur = slot.tail@.subrange(0, t + 1);
                    assert(cur.drop_last() == pre);
                    assert(out@ =~= mid + spec_triples_bytes(cur));
                }
                t = t + 1;
            }
            proof {
                assert(slot.tail@.subrange(0, slot.tail@.len() as int) =~= slot.tail@);
                let pre = self.slots@.subrange(0, k as int);
                let cur = self.slots@.subrange(0, k + 1);
                assert(cur.drop_last() == pre);
                assert(out@ =~= spec_u16_le(self.slots@.len() as u16) + spec_slots_bytes(cur));
            }
            k = k + 1;
        }
        proof {
            assert(self.slots@.subrange(0, self.slots@.len() as int) =~= self.slots@);
        }
        out
    }

    /// All buffer sizes, in slot order.
    pub fn export_buf_sizes(&self) -> (r: Vec<u32>)
        ensures
            r@ == self.slots@.map_values(|s: Slot| s.size),
    {
        let mut r: Vec<u32> = Vec::new();
        let mut i: usize = 0;
        while i < self.slots.len()
            invariant
                i <= self.slots@.len(),
                r@ == self.slots@.subrange(0, i as int).map_values(|s: Slot| s.size),
            decreases self.slots@.len() - i,
        {
            r.push(self.slots[i].size);
            proof {
                assert(r@ =~= self.slots@.subrange(0, i + 1).map_values(|s: Slot| s.size));
            }
            i = i + 1;
        }
        proof {
            assert(self.slots@.subrange(0, self.slots@.len() as int) =~= self.slots@);
        }
        r
    }

    /// Install new buffer sizes and recompute every offset: the first slot
    /// keeps the offset it already has and each later slot starts where
    /// the previous one ends. The caller must supply one size per slot,
    /// for a non-empty table whose recomputed offsets all fit in a `u32`;
    /// outside those bounds no consistent table exists.
    pub fn update_buf_sizes(&mut self, sizes: &Vec<u32>)
        requires
            sizes@.len() == old(self).slots@.len(),
            old(self).slots@.len() > 0,
            old(self).slots@[0].offset + spec_size_sum(sizes@, sizes@.len() as int) <= u32::MAX,
        ensures
            final(self).slots@.len() == old(self).slots@.len(),
            forall|i: int| 0 <= i < sizes@.len() ==> {
                &&& (#[trigger] final(self).slots@[i]).size == sizes@[i]
                &&& final(self).slots@[i].offset == old(self).slots@[0].offset + spec_size_sum(
                    sizes@,
                    i,
                )
                &&& final(self).slots@[i].unknown == old(self).slots@[i].unknown
                &&& final(self).slots@[i].tail == old(self).slots@[i].tail
            },
    {
        let first_offset = self.slots[0].offset;
        let mut offset: u32 = first_offset;
        let mut i: usize = 0;
        while i < self.slots.len()
            invariant
                i <= sizes@.len(),
                sizes@.len() == self.slots@.len(),
                self.slots@.len() == old(self).slots@.len(),
                first_offset == old(self).slots@[0].offset,
                offset == first_offset + spec_size_sum(sizes@, i as int),
                first_offset + spec_size_sum(sizes@, sizes@.len() as int) <= u32::MAX,
                forall|j: int| i <= j < sizes@.len() ==> #[trigger] self.slots@[j] == old(
                    self,
                ).slots@[j],
                forall|j: int| 0 <= j < i ==> {
                    &&& (#[trigger] self.slots@[j]).size == sizes@[j]
                    &&& self.slots@[j].offset == first_offset + spec_size_sum(sizes@, j)
                    &&& self.slots@[j].unknown == old(self).slots@[j].unknown
                    &&& self.slots@[j].tail == old(self).slots@[j].tail
                },
            decreases sizes@.len() - i,
        {
            proof {
                lemma_size_sum_monotonic(sizes@, i + 1, sizes@.len() as int);
            }
            let slot = &mut self.slots[i];
            slot.size = sizes[i];
            slot.offset = offset;
            offset = offset + sizes[i];
            i = i + 1;
        }
    }
}

} // verus!
