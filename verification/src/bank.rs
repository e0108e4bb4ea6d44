//! Sound banks: the fixed 4,804-byte bank header, its sound entries, and
//! the raw sounds carved out of a bank's payload.
//!
//! A bank header is a `u16` sound count, a `u16` of padding, then room for
//! exactly 400 twelve-byte sound entries; unused slots are zero on disk.
//! Each entry's in-memory `size` is derived at parse time from the gap to
//! the next entry's offset (or to the payload length for the last entry)
//! and is never serialized.

use vstd::prelude::*;

use crate::error::Error;
use crate::wire::{spec_u16_le, spec_u32_le, spec_u16_of_le, spec_u32_of_le, read_u16_le,
    read_u32_le, push_u16_le, push_u32_le, lemma_u16_of_le_round_trip,
    lemma_u32_of_le_round_trip};

verus! {

/// Greatest number of sound entries a bank header can hold.
pub const MAX_SOUND_ENTRIES: usize = 400;

/// Size in bytes of one on-disk sound entry.
pub const SOUND_ENTRY_SIZE: usize = 12;

/// Size in bytes of a bank header on disk.
pub const BANK_HEADER_SIZE: usize = 4804;

/// One sound entry of a bank header.
#[derive(Debug, Clone, Copy, PartialEq, Eq)]
pub struct SoundEntry {
    /// Offset of the sound's bytes inside the bank payload.
    pub offset: u32,
    /// Where the loop starts, in samples; `0xFFFFFFFF` means no loop.
    pub loop_offset: u32,
    /// Sample rate in Hz.
    pub sample_rate: u16,
    /// How much louder than average this sound is expected to go.
    pub headroom: u16,
    /// Byte length of the sound inside the payload; derived, not stored.
    pub size: usize,
}

impl SoundEntry {
    /// The 12 bytes this entry occupies on disk (`size` is not stored).
    pub open spec fn spec_bytes(self) -> Seq<u8> {
        spec_u32_le(self.offset) + spec_u32_le(self.loop_offset) + spec_u16_le(self.sample_rate)
            + spec_u16_le(self.headroom)
    }

    /// A fresh entry with no loop and no derived size yet.
    pub fn new(offset: u32, sample_rate: u16, headroom: u16) -> (r: SoundEntry)
        ensures
            r == (SoundEntry {
                offset,
                loop_offset: 0xFFFFFFFFu32,
                sample_rate,
                headroom,
                size: 0usize,
            }),
    {
        SoundEntry { offset, loop_offset: 0xFFFFFFFF, sample_rate, headroom, size: 0 }
    }
}

/// The bytes of a sequence of entries, concatenated in order.
pub open spec fn spec_entries_bytes(es: Seq<SoundEntry>) -> Seq<u8>
    decreases es.len(),
{
    if es.len() == 0 {
        Seq::empty()
    } else {
        spec_entries_bytes(es.drop_last()) + es.last().spec_bytes()
    }
}

pub proof fn lemma_entries_bytes_len(es: Seq<SoundEntry>)
    ensures
        spec_entries_bytes(es).len() == es.len() * SOUND_ENTRY_SIZE,
    decreases es.len(),
{
    if es.len() > 0 {
        lemma_entries_bytes_len(es.drop_last());
    }
}

/// The entry stored at byte position `p`, with no derived size yet.
pub open spec fn spec_raw_entry(b: Seq<u8>, p: int) -> SoundEntry {
    SoundEntry {
        offset: spec_u32_of_le(b.subrange(p, p + 4)),
        loop_offset: spec_u32_of_le(b.subrange(p + 4, p + 8)),
        sample_rate: spec_u16_of_le(b.subrange(p + 8, p + 10)),
        headroom: spec_u16_of_le(b.subrange(p + 10, p + 12)),
        size: 0,
    }
}

/// The `n` entries stored back-to-back from byte position `p`.
pub open spec fn spec_raw_entries(b: Seq<u8>, p: int, n: int) -> Seq<SoundEntry> {
    Seq::new(n as nat, |i: int| spec_raw_entry(b, p + 12 * i))
}

/// Entry offsets never decrease and stay inside the payload, so every
/// derived size is well defined.
pub open spec fn spec_offsets_valid(es: Seq<SoundEntry>, payload_len: int) -> bool {
    &&& forall|i: int| 0 <= i < es.len() - 1 ==> (#[trigger] es[i].offset) <= es[i + 1].offset
    &&& es.len() > 0 ==> es[es.len() - 1].offset <= payload_len
}

/// `es` with each entry's `size` set to the gap to the next offset, or to
/// the payload length for the last entry.
pub open spec fn spec_with_sizes(es: Seq<SoundEntry>, payload_len: int) -> Seq<SoundEntry> {
    Seq::new(
        es.len(),
        |i: int| SoundEntry {
            size: if i + 1 < es.len() {
                (es[i + 1].offset - es[i].offset) as usize
            } else {
                (payload_len - es[i].offset) as usize
            },
            ..es[i]
        },
    )
}

/// A bank header.
#[derive(Debug, Clone, PartialEq, Eq)]
pub struct BankHeader {
    /// The padding word after the sound count, preserved verbatim.
    pub padding: u16,
    /// The sound entries actually in use (at most 400).
    pub sound_entries: Vec<SoundEntry>,
}

impl BankHeader {
    /// A header is well formed when its entries fit the fixed entry area.
    pub open spec fn wf(self) -> bool {
        self.sound_entries@.len() <= MAX_SOUND_ENTRIES
    }

    /// The full 4,804 bytes of the header on disk: count, padding, the
    /// entries in use, and zeroes for the unused slots.
    pub open spec fn spec_bytes(self) -> Seq<u8> {
        spec_u16_le(self.sound_entries@.len() as u16) + spec_u16_le(self.padding)
            + spec_entries_bytes(self.sound_entries@) + Seq::new(
            ((MAX_SOUND_ENTRIES - self.sound_entries@.len()) * SOUND_ENTRY_SIZE) as nat,
            |i: int| 0u8,
        )
    }

    pub proof fn lemma_bytes_len(self)
        requires
            self.wf(),
        ensures
            self.spec_bytes().len() == BANK_HEADER_SIZE,
    {
        lemma_entries_bytes_len(self.sound_entries@);
        assert(self.sound_entries@.len() * 12 + (400 - self.sound_entries@.len()) * 12 == 4800)
            by (nonlinear_arith)
            requires
                0 <= self.sound_entries@.len() <= 400,
        ;
    }

    /// Parse the header stored at `pos`, deriving entry sizes against a
    /// payload of `payload_len` bytes. Fails when the header does not fit,
    /// when the sound count exceeds 400, or when the entry offsets cannot
    /// yield well-defined sizes.
    #[verifier::rlimit(50)]
    pub fn read(bytes: &[u8], pos: usize, payload_len: usize) -> (r: Result<BankHeader, Error>)
        requires
            pos <= bytes@.len() <= usize::MAX,
        ensures
            r is Ok <==> {
                &&& pos + BANK_HEADER_SIZE <= bytes@.len()
                &&& spec_u16_of_le(bytes@.subrange(pos as int, pos + 2)) <= MAX_SOUND_ENTRIES
                &&& spec_offsets_valid(
                    spec_raw_entries(
                        bytes@,
                        pos + 4,
                        spec_u16_of_le(bytes@.subrange(pos as int, pos + 2)) as int,
                    ),
                    payload_len as int,
                )
            },
            r matches Ok(h) ==> {
                &&& h.wf()
                &&& h.sound_entries@.len() == spec_u16_of_le(bytes@.subrange(pos as int, pos + 2))
                &&& h.padding == spec_u16_of_le(bytes@.subrange(pos + 2, pos + 4))
                &&& h.sound_entries@ == spec_with_sizes(
                    spec_raw_entries(bytes@, pos + 4, h.sound_entries@.len() as int),
                    payload_len as int,
                )
            },
            r matches Err(e) ==> e == Error::BinaryFormat,
    {
        if bytes.len() - pos < BANK_HEADER_SIZE {
            return Err(Error::BinaryFormat);
        }
        let num_sounds = read_u16_le(bytes, pos) as usize;
        if num_sounds > MAX_SOUND_ENTRIES {
            return Err(Error::BinaryFormat);
        }
        let padding = read_u16_le(bytes, pos + 2);
        let ghost raw = spec_raw_entries(bytes@, pos + 4, num_sounds as int);
        let mut entries: Vec<SoundEntry> = Vec::new();
        let mut i: usize = 0;
        while i < num_sounds
            invariant
                i <= num_sounds,
                num_sounds <= MAX_SOUND_ENTRIES,
                pos + BANK_HEADER_SIZE <= bytes@.len() <= usize::MAX,
                raw == spec_raw_entries(bytes@, pos + 4, num_sounds as int),
                entries@.len() == i,
                forall|j: int| 0 <= j < i ==> entries@[j] == raw[j],
            decreases num_sounds - i,
        {
            proof {
                assert(12 * (i as int) + 12 <= 4800) by (nonlinear_arith)
                    requires
                        i < 400,
                ;
            }
            let p = pos + 4 + i * 12;
            let e = SoundEntry {
                offset: read_u32_le(bytes, p),
                loop_offset: read_u32_le(bytes, p + 4),
                sample_rate: read_u16_le(bytes, p + 8),
                headroom: read_u16_le(bytes, p + 10),
                size: 0,
            };
            entries.push(e);
            i = i + 1;
        }
        // offsets must allow a well-defined size for every entry
        let mut k: usize = 0;
        while k + 1 < num_sounds
            invariant
                num_sounds <= MAX_SOUND_ENTRIES,
                pos + BANK_HEADER_SIZE <= bytes@.len(),
                num_sounds == spec_u16_of_le(bytes@.subrange(pos as int, pos + 2)),
                entries@.len() == num_sounds,
                k < num_sounds || (k == 0 && num_sounds == 0),
                raw == spec_raw_entries(bytes@, pos + 4, num_sounds as int),
                forall|j: int| 0 <= j < num_sounds ==> entries@[j] == raw[j],
                forall|j: int| 0 <= j < k ==> (#[trigger] entries@[j].offset)
                    <= entries@[j + 1].offset,
            ensures
                forall|j: int| 0 <= j < num_sounds - 1 ==> (#[trigger] entries@[j].offset)
                    <= entries@[j + 1].offset,
            decreases num_sounds - k,
        {
            if entries[k].offset > entries[k + 1].offset {
                proof {
                    assert(raw[k as int].offset > raw[k + 1].offset);
                }
                return Err(Error::BinaryFormat);
            }
            k = k + 1;
        }
        if num_sounds > 0 {
            let last_offset = entries[num_sounds - 1].offset;
            if !(last_offset as usize <= payload_len) {
                proof {
                    assert(raw[num_sounds - 1].offset > payload_len);
                }
                return Err(Error::BinaryFormat);
            }
        }
        // derive the sizes
        let mut sized: Vec<SoundEntry> = Vec::new();
        let mut i2: usize = 0;
        while i2 < num_sounds
            invariant
                i2 <= num_sounds,
                entries@.len() == num_sounds,
                spec_offsets_valid(entries@, payload_len as int),
                sized@.len() == i2,
                forall|j: int| 0 <= j < i2 ==> sized@[j] == spec_with_sizes(
                    entries@,
                    payload_len as int,
                )[j],
            decreases num_sounds - i2,
        {
            let e = entries[i2];
            let size: usize = if i2 + 1 < num_sounds {
                proof {
                    assert(entries@[i2 as int].offset <= entries@[i2 + 1].offset);
                }
                (entries[i2 + 1].offset - e.offset) as usize
            } else {
                proof {
                    assert(entries@[i2 as int].offset <= payload_len);
                }
                payload_len - e.offset as usize
            };
            sized.push(
                SoundEntry {
                    offset: e.offset,
                    loop_offset: e.loop_offset,
                    sample_rate: e.sample_rate,
                    headroom: e.headroom,
                    size,
                },
            );
            i2 = i2 + 1;
        }
        let h = BankHeader { padding, sound_entries: sized };
        proof {
            assert(h.sound_entries@ =~= spec_with_sizes(raw, payload_len as int));
        }
        Ok(h)
    }

    /// Serialize the header to its full 4,804-byte on-disk form.
    pub fn to_bytes(&self) -> (out: Vec<u8>)
        requires
            self.wf(),
        ensures
            out@ == self.spec_bytes(),
            out@.len() == BANK_HEADER_SIZE,
    {
        let n = self.sound_entries.len();
        let mut out: Vec<u8> = Vec::new();
        push_u16_le(&mut out, n as u16);
        push_u16_le(&mut out, self.padding);
        let mut i: usize = 0;
        while i < n
            invariant
                i <= n,
                n == self.sound_entries@.len(),
                self.wf(),
                out@ == spec_u16_le(n as u16) + spec_u16_le(self.padding) + spec_entries_bytes(
                    self.sound_entries@.subrange(0, i as int),
                ),
            decreases n - i,
        {
            let e = self.sound_entries[i];
            push_u32_le(&mut out, e.offset);
            push_u32_le(&mut out, e.loop_offset);
            push_u16_le(&mut out, e.sample_rate);
            push_u16_le(&mut out, e.headroom);
            proof {
                let pre = self.sound_entries@.subrange(0, i as int);
                let cur = self.sound_entries@.subrange(0, i + 1);
                assert(cur.drop_last() == pre);
                assert(out@ =~= spec_u16_le(n as u16) + spec_u16_le(self.padding)
                    + spec_entries_bytes(cur));
            }
            i = i + 1;
        }
        let ghost mid = out@;
        let pad_total = (MAX_SOUND_ENTRIES - n) * SOUND_ENTRY_SIZE;
        proof {
            assert((400 - n) * 12 <= 4800) by (nonlinear_arith)
                requires
                    0 <= n <= 400,
            ;
        }
        let mut z: usize = 0;
        while z < pad_total
            invariant
                z <= pad_total,
                out@ == mid + Seq::new(z as nat, |q: int| 0u8),
            decreases pad_total - z,
        {
            out.push(0);
            proof {
                assert(out@ =~= mid + Seq::new((z + 1) as nat, |q: int| 0u8));
            }
            z = z + 1;
        }
        proof {
            assert(self.sound_entries@.subrange(0, self.sound_entries@.len() as int)
                =~= self.sound_entries@);
            assert(out@ =~= self.spec_bytes());
            self.lemma_bytes_len();
        }
        out
    }
}

/// In a nondecreasing offset chain, any earlier offset is at most any
/// later one.
pub proof fn offsets_chain(es: Seq<SoundEntry>, a: int, b: int)
    requires
        forall|i: int| 0 <= i < es.len() - 1 ==> (#[trigger] es[i].offset) <= es[i + 1].offset,
        0 <= a <= b < es.len(),
    ensures
        es[a].offset <= es[b].offset,
    decreases b - a,
{
    if a < b {
        offsets_chain(es, a + 1, b);
    }
}

/// Entries whose serialized form sits back-to-back at `p` concatenate to
/// exactly that byte area.
proof fn lemma_entries_bytes_from_area(b: Seq<u8>, p: int, es: Seq<SoundEntry>)
    requires
        0 <= p,
        p + es.len() * SOUND_ENTRY_SIZE <= b.len(),
        forall|i: int| 0 <= i < es.len() ==> (#[trigger] es[i]).spec_bytes() == b.subrange(
            p + 12 * i,
            p + 12 * i + 12,
        ),
    ensures
        spec_entries_bytes(es) == b.subrange(p, p + es.len() * SOUND_ENTRY_SIZE),
    decreases es.len(),
{
    if es.len() == 0 {
        assert(spec_entries_bytes(es) =~= b.subrange(p, p));
    } else {
        let n = es.len() as int;
        assert((n - 1) * 12 == n * 12 - 12) by (nonlinear_arith);
        lemma_entries_bytes_from_area(b, p, es.drop_last());
        assert(es.last().spec_bytes() == b.subrange(p + 12 * (n - 1), p + 12 * (n - 1) + 12));
        assert(spec_entries_bytes(es) =~= b.subrange(p, p + n * 12));
    }
}

/// Deriving sizes from a valid offset chain keeps every sound inside the
/// payload.
pub proof fn lemma_with_sizes_within(es: Seq<SoundEntry>, payload_len: int)
    requires
        spec_offsets_valid(es, payload_len),
    ensures
        forall|i: int| 0 <= i < es.len() ==> (#[trigger] spec_with_sizes(es, payload_len)[i]).offset
            + spec_with_sizes(es, payload_len)[i].size <= payload_len,
{
    let sized = spec_with_sizes(es, payload_len);
    assert forall|i: int| 0 <= i < es.len() implies (#[trigger] sized[i]).offset + sized[i].size
        <= payload_len by {
        if i + 1 < es.len() {
            offsets_chain(es, i + 1, es.len() - 1);
        }
    }
}

/// One bank of an SFX archive: its header, its payload bytes, and its
/// dense position among the banks of the same archive.
#[derive(Debug, Clone, PartialEq, Eq)]
pub struct Bank {
    /// Position of this bank within the archive's matching lookup entries.
    pub index: usize,
    pub header: BankHeader,
    /// The payload bytes (the header is not part of them).
    pub bytes: Vec<u8>,
}

impl Bank {
    /// Every sound entry addresses bytes that lie inside the payload.
    pub open spec fn wf(self) -> bool {
        &&& self.header.wf()
        &&& forall|i: int| 0 <= i < self.header.sound_entries@.len() ==> (
            #[trigger] self.header.sound_entries@[i]).offset
            + self.header.sound_entries@[i].size <= self.bytes@.len()
    }

    /// The bank as stored on disk: header then payload.
    pub open spec fn spec_bytes(self) -> Seq<u8> {
        self.header.spec_bytes() + self.bytes@
    }

    /// Serialize the bank: its 4,804-byte header followed by its payload.
    pub fn to_writer(&self) -> (out: Vec<u8>)
        requires
            self.header.wf(),
        ensures
            out@ == self.spec_bytes(),
            out@.len() == BANK_HEADER_SIZE + self.bytes@.len(),
    {
        let mut out = self.header.to_bytes();
        out.extend_from_slice(self.bytes.as_slice());
        out
    }

    /// Total size of the bank on disk, header included.
    pub fn len(&self) -> (n: usize)
        requires
            self.bytes@.len() + BANK_HEADER_SIZE <= usize::MAX,
        ensures
            n == self.bytes@.len() + BANK_HEADER_SIZE,
    {
        self.bytes.len() + BANK_HEADER_SIZE
    }

    /// Whether the bank occupies no bytes at all; never true, since the
    /// header is always written.
    pub fn is_empty(&self) -> (r: bool)
        requires
            self.bytes@.len() + BANK_HEADER_SIZE <= usize::MAX,
        ensures
            r == (self.bytes@.len() + BANK_HEADER_SIZE == 0),
    {
        self.len() == 0
    }
}

/// The bytes a freshly parsed header writes back: the stored count,
/// padding and entry area verbatim, and zeroes for the unused slots.
pub open spec fn spec_reser_header(data: Seq<u8>, start: int) -> Seq<u8> {
    let n = spec_u16_of_le(data.subrange(start, start + 2)) as int;
    data.subrange(start, start + 4 + 12 * n) + Seq::new(
        ((MAX_SOUND_ENTRIES - n) * SOUND_ENTRY_SIZE) as nat,
        |i: int| 0u8,
    )
}

/// A header parsed at `start` serializes to the stored count, padding
/// and entry area followed by zeroes.
pub proof fn lemma_parsed_header_bytes(data: Seq<u8>, start: int, payload_len: int, h: BankHeader)
    requires
        0 <= start,
        start + BANK_HEADER_SIZE <= data.len(),
        h.wf(),
        h.sound_entries@.len() == spec_u16_of_le(data.subrange(start, start + 2)),
        h.padding == spec_u16_of_le(data.subrange(start + 2, start + 4)),
        h.sound_entries@ == spec_with_sizes(
            spec_raw_entries(data, start + 4, h.sound_entries@.len() as int),
            payload_len,
        ),
    ensures
        h.spec_bytes() == spec_reser_header(data, start),
        h.spec_bytes().len() == BANK_HEADER_SIZE,
{
    let n = h.sound_entries@.len() as int;
    let es = h.sound_entries@;
    lemma_u16_of_le_round_trip(data.subrange(start, start + 2));
    lemma_u16_of_le_round_trip(data.subrange(start + 2, start + 4));
    assert forall|i: int| 0 <= i < n implies (#[trigger] es[i]).spec_bytes() == data.subrange(
        start + 4 + 12 * i,
        start + 4 + 12 * i + 12,
    ) by {
        let q = start + 4 + 12 * i;
        assert(12 * i + 12 <= 12 * n) by (nonlinear_arith)
            requires
                i < n,
        ;
        assert(12 * n <= 4800) by (nonlinear_arith)
            requires
                n <= 400,
        ;
        lemma_u32_of_le_round_trip(data.subrange(q, q + 4));
        lemma_u32_of_le_round_trip(data.subrange(q + 4, q + 8));
        lemma_u16_of_le_round_trip(data.subrange(q + 8, q + 10));
        lemma_u16_of_le_round_trip(data.subrange(q + 10, q + 12));
        assert(es[i].spec_bytes() =~= data.subrange(q, q + 12));
    }
    assert(12 * n <= 4800) by (nonlinear_arith)
        requires
            n <= 400,
    ;
    lemma_entries_bytes_from_area(data, start + 4, es);
    lemma_entries_bytes_len(es);
    assert(n * 12 + (400 - n) * 12 == 4800) by (nonlinear_arith)
        requires
            0 <= n <= 400,
    ;
    assert(h.spec_bytes() =~= spec_reser_header(data, start));
    h.lemma_bytes_len();
}

} // verus!
