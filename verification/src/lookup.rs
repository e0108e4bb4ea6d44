//! The lookup table (`BankLkup.dat` / `TrakLkup.dat`): the master index that
//! tells the engine which bank lives at which offset of which archive.
//!
//! On disk the table is a bare concatenation of 12-byte little-endian
//! records, read until end of file.

use vstd::prelude::*;

use crate::error::Error;
use crate::wire::{spec_u32_le, read_u32_le, push_u32_le, lemma_u32_of_le_round_trip};

verus! {

/// One record of the lookup table: which pak the bank belongs to, where its
/// payload starts, and how long the payload is (header excluded).
#[derive(Debug, Clone, Copy, PartialEq, Eq)]
pub struct LookUpEntry {
    /// Index into the pak-name list naming the archive this bank lives in.
    pub index: u8,
    /// Three padding bytes, preserved verbatim.
    pub padding: [u8; 3],
    /// Byte offset of the bank's payload inside the archive.
    pub offset: u32,
    /// Byte length of the bank's payload (the bank header is not counted).
    pub length: u32,
}

impl LookUpEntry {
    /// The 12 bytes this entry occupies on disk.
    pub open spec fn spec_bytes(self) -> Seq<u8> {
        seq![self.index, self.padding[0], self.padding[1], self.padding[2]]
            + spec_u32_le(self.offset) + spec_u32_le(self.length)
    }
}

/// The 12-byte records of `entries`, concatenated in order.
pub open spec fn spec_table_bytes(entries: Seq<LookUpEntry>) -> Seq<u8>
    decreases entries.len(),
{
    if entries.len() == 0 {
        Seq::empty()
    } else {
        spec_table_bytes(entries.drop_last()) + entries.last().spec_bytes()
    }
}

/// Entries of `entries` whose pak index is `idx`, each paired with its
/// position in the full table, in table order.
pub open spec fn spec_matching(entries: Seq<LookUpEntry>, idx: u8) -> Seq<(usize, LookUpEntry)>
    decreases entries.len(),
{
    if entries.len() == 0 {
        Seq::empty()
    } else {
        let prefix = spec_matching(entries.drop_last(), idx);
        if entries.last().index == idx {
            prefix.push(((entries.len() - 1) as usize, entries.last()))
        } else {
            prefix
        }
    }
}

/// The lookup table: all records of a `BankLkup.dat`-style file, in file order.
#[derive(Debug, Clone, PartialEq, Eq)]
pub struct LookUpTable {
    pub entries: Vec<LookUpEntry>,
}

impl LookUpTable {
    /// The whole table as stored on disk.
    pub open spec fn spec_bytes(self) -> Seq<u8> {
        spec_table_bytes(self.entries@)
    }

    /// Parse a lookup file. Succeeds exactly when the input is a whole
    /// number of 12-byte records; the parsed table re-serializes to the
    /// input byte for byte.
    pub fn from_reader(bytes: &[u8]) -> (r: Result<Self, Error>)
        ensures
            r is Ok <==> bytes@.len() % 12 == 0,
            r matches Ok(t) ==> t.spec_bytes() == bytes@ && t.entries@.len() * 12 == bytes@.len(),
    {
        if bytes.len() % 12 != 0 {
            return Err(Error::BinaryFormat);
        }
        let mut entries: Vec<LookUpEntry> = Vec::new();
        let mut pos: usize = 0;
        while pos < bytes.len()
            invariant
                pos <= bytes@.len(),
                pos % 12 == 0,
                bytes@.len() % 12 == 0,
                entries@.len() * 12 == pos,
                spec_table_bytes(entries@) == bytes@.subrange(0, pos as int),
            decreases bytes@.len() - pos,
        {
            proof {
                assert(bytes@.len() - pos >= 12) by (nonlinear_arith)
                    requires
                        pos < bytes@.len(),
                        pos % 12 == 0,
                        bytes@.len() % 12 == 0,
                ;
            }
            let e = LookUpEntry {
                index: bytes[pos],
                padding: [bytes[pos + 1], bytes[pos + 2], bytes[pos + 3]],
                offset: read_u32_le(bytes, pos + 4),
                length: read_u32_le(bytes, pos + 8),
            };
            proof {
                lemma_u32_of_le_round_trip(bytes@.subrange(pos + 4, pos + 8));
                lemma_u32_of_le_round_trip(bytes@.subrange(pos + 8, pos + 12));
                assert(e.spec_bytes() =~= bytes@.subrange(pos as int, pos + 12));
                assert(entries@.push(e).drop_last() == entries@);
                assert(spec_table_bytes(entries@.push(e)) =~= bytes@.subrange(0, pos + 12));
            }
            entries.push(e);
            pos = pos + 12;
        }
        proof {
            assert(bytes@.subrange(0, bytes@.len() as int) =~= bytes@);
        }
        Ok(LookUpTable { entries })
    }

    /// Serialize the table back to its on-disk form.
    pub fn to_writer(&self) -> (out: Vec<u8>)
        ensures
            out@ == self.spec_bytes(),
    {
        let mut out: Vec<u8> = Vec::new();
        let mut i: usize = 0;
        while i < self.entries.len()
            invariant
                i <= self.entries@.len(),
                out@ == spec_table_bytes(self.entries@.subrange(0, i as int)),
            decreases self.entries@.len() - i,
        {
            let e = self.entries[i];
            out.push(e.index);
            out.push(e.padding[0]);
            out.push(e.padding[1]);
            out.push(e.padding[2]);
            push_u32_le(&mut out, e.offset);
            push_u32_le(&mut out, e.length);
            proof {
                let pre = self.entries@.subrange(0, i as int);
                let cur = self.entries@.subrange(0, i + 1);
                assert(cur.drop_last() == pre);
                assert(cur.last() == e);
                assert(out@ =~= spec_table_bytes(pre) + e.spec_bytes());
            }
            i = i + 1;
        }
        proof {
            assert(self.entries@.subrange(0, self.entries@.len() as int) =~= self.entries@);
        }
        out
    }

    /// Number of entries in the table.
    pub fn len(&self) -> (n: usize)
        ensures
            n == self.entries@.len(),
    {
        self.entries.len()
    }

    /// The entries, for read-only inspection.
    pub fn entries(&self) -> (r: &Vec<LookUpEntry>)
        ensures
            r@ == self.entries@,
    {
        &self.entries
    }

    /// Spec view of the entries.
    pub open spec fn spec_entries(self) -> Seq<LookUpEntry> {
        self.entries@
    }

    /// Replace the entry at `index`; reports whether the index existed.
    pub fn get_mut(&mut self, index: usize) -> (r: Option<&mut LookUpEntry>)
        ensures
            r is Some <==> index < old(self).entries@.len(),
            r matches Some(e) ==> *e == old(self).entries@[index as int]
                && final(self).entries@ == old(self).entries@.update(index as int, *final(e)),
            r is None ==> *final(self) == *old(self),
    {
        if index < self.entries.len() {
            Some(&mut self.entries[index])
        } else {
            None
        }
    }

    /// How many entries carry pak index `idx`.
    pub fn count_entries_matching_pak_idx(&self, idx: u8) -> (n: usize)
        ensures
            n == spec_matching(self.entries@, idx).len(),
    {
        let mut n: usize = 0;
        let mut i: usize = 0;
        while i < self.entries.len()
            invariant
                i <= self.entries@.len(),
                n == spec_matching(self.entries@.subrange(0, i as int), idx).len(),
                n <= i,
            decreases self.entries@.len() - i,
        {
            proof {
                let pre = self.entries@.subrange(0, i as int);
                let cur = self.entries@.subrange(0, i + 1);
                assert(cur.drop_last() == pre);
            }
            if self.entries[i].index == idx {
                n = n + 1;
            }
            i = i + 1;
        }
        proof {
            assert(self.entries@.subrange(0, self.entries@.len() as int) =~= self.entries@);
        }
        n
    }

    /// All entries matching `idx`, paired with their table positions,
    /// in table order.
    pub fn matching_entries(&self, idx: u8) -> (r: Vec<(usize, LookUpEntry)>)
        ensures
            r@ == spec_matching(self.entries@, idx),
    {
        let mut r: Vec<(usize, LookUpEntry)> = Vec::new();
        let mut i: usize = 0;
        while i < self.entries.len()
            invariant
                i <= self.entries@.len(),
                r@ == spec_matching(self.entries@.subrange(0, i as int), idx),
            decreases self.entries@.len() - i,
        {
            proof {
                let pre = self.entries@.subrange(0, i as int);
                let cur = self.entries@.subrange(0, i + 1);
                assert(cur.drop_last() == pre);
            }
            if self.entries[i].index == idx {
                r.push((i, self.entries[i]));
            }
            i = i + 1;
        }
        proof {
            assert(self.entries@.subrange(0, self.entries@.len() as int) =~= self.entries@);
        }
        r
    }
}

} // verus!
