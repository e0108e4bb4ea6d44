//! The SFX archive engine: resolving an archive against the lookup table
//! and pak names, reading its banks, and re-importing modified banks
//! while every offset and length is recomputed consistently.

use vstd::prelude::*;
use vstd::seq_lib::group_to_multiset_ensures;

use crate::bank::{Bank, BankHeader, BANK_HEADER_SIZE, MAX_SOUND_ENTRIES, spec_raw_entries,
    spec_with_sizes, spec_offsets_valid, lemma_with_sizes_within, spec_reser_header,
    lemma_parsed_header_bytes};
use crate::error::Error;
use crate::lookup::{LookUpEntry, LookUpTable, spec_matching};
use crate::bank::{SoundEntry, SOUND_ENTRY_SIZE};
use crate::paknames::{PakNames, spec_pak_index, spec_records, SFX_NAME_ALIGN, MAX_PAK_NAMES};
use crate::pc::{spec_pcm_le, spec_low16};
use crate::sound::SoundType;
use crate::vag::{VAGChunk, spec_chunks_bytes, spec_vag_parse_ok, spec_vag_size};
use crate::vagcodec::{spec_encoded_chunks_ok, spec_pad28, spec_loop_bounds, spec_smpl_scan,
    LoopMode};
use crate::wav::spec_wav_parse;
use crate::wire::{spec_u16_le, spec_u16_of_le, spec_u32_of_be};

verus! {

/// One bank's place in an archive: its original lookup-table position,
/// its dense index among the archive's banks, and its lookup entry.
#[derive(Debug, Clone, Copy, PartialEq, Eq)]
pub struct BankRef {
    /// Position of the entry in the full lookup table.
    pub table_index: usize,
    /// Dense 0-based index of the bank, assigned in table order.
    pub dense_index: usize,
    /// The lookup entry itself.
    pub entry: LookUpEntry,
}

/// Matching entries are back to back: each bank's payload is followed
/// immediately by the next bank's header.
pub open spec fn spec_back_to_back(banks: Seq<BankRef>) -> bool {
    forall|i: int| 0 <= i < banks.len() - 1 ==> (#[trigger] banks[i]).entry.offset
        + banks[i].entry.length + BANK_HEADER_SIZE == banks[i + 1].entry.offset
}

/// Bank offsets never decrease.
pub open spec fn spec_offset_sorted(banks: Seq<BankRef>) -> bool {
    forall|i: int, j: int| 0 <= i <= j < banks.len() ==> (#[trigger] banks[i]).entry.offset <= (
    #[trigger] banks[j]).entry.offset
}

/// The matching entries of a table, as bank references in table order.
pub open spec fn spec_bank_refs(entries: Seq<LookUpEntry>, idx: u8) -> Seq<BankRef> {
    Seq::new(
        spec_matching(entries, idx).len(),
        |i: int| BankRef {
            table_index: spec_matching(entries, idx)[i].0,
            dense_index: i as usize,
            entry: spec_matching(entries, idx)[i].1,
        },
    )
}

/// Manages an SFX lookup table and pak names, and opens archives
/// against them.
#[derive(Debug, Clone, PartialEq, Eq)]
pub struct SfxManager {
    pub lookup_table: LookUpTable,
    pub pak_names: PakNames,
}

impl SfxManager {
    /// Build a manager from the bytes of a lookup file and, optionally,
    /// the bytes of a `PakFiles.dat`; without the latter the built-in SFX
    /// names are used.
    pub fn new(lookup_bytes: &[u8], pakfile_bytes: Option<&Vec<u8>>) -> (r: Result<
        SfxManager,
        Error,
    >)
        requires
            pakfile_bytes matches Some(pb) ==> pb@.len() <= MAX_PAK_NAMES * SFX_NAME_ALIGN,
        ensures
            r matches Ok(m) ==> {
                &&& m.lookup_table.spec_bytes() == lookup_bytes@
                &&& m.pak_names.wf()
                &&& (pakfile_bytes is None ==> m.pak_names.spec_names()
                    == crate::paknames::spec_sfx_default_names())
                &&& (pakfile_bytes matches Some(pb) ==> m.pak_names.spec_names().len()
                    == spec_records(pb@, SFX_NAME_ALIGN as int).len())
            },
            r is Err ==> (lookup_bytes@.len() % 12 != 0 || (pakfile_bytes matches Some(pb)
                && !(forall|i: int|
                0 <= i < spec_records(pb@, SFX_NAME_ALIGN as int).len()
                    ==> vstd::utf8::valid_utf8(
                    #[trigger] spec_records(pb@, SFX_NAME_ALIGN as int)[i],
                )))),
    {
        let lookup_table = match LookUpTable::from_reader(lookup_bytes) {
            Ok(t) => t,
            Err(e) => {
                return Err(e);
            }
        };
        let pak_names = match pakfile_bytes {
            Some(pb) => match PakNames::sfx_from_reader(pb.as_slice()) {
                Ok(p) => p,
                Err(e) => {
                    return Err(e);
                }
            },
            None => PakNames::sfx(),
        };
        Ok(SfxManager { lookup_table, pak_names })
    }

    /// The lookup table in its on-disk form, to be written back after an
    /// import.
    pub fn update_lookup(&self) -> (out: Vec<u8>)
        ensures
            out@ == self.lookup_table.spec_bytes(),
    {
        self.lookup_table.to_writer()
    }

    /// Resolve an archive's banks from its base name: find the pak index,
    /// collect its entries, and make sure they sit back to back, sorting
    /// them by offset first when needed. The boolean reports whether
    /// sorting was needed (the caller's cue to warn).
    pub fn get_sorted_lookup_table(&self, basename: &str) -> (r: Result<(Vec<BankRef>, bool), Error>)
        requires
            self.pak_names.wf(),
        ensures
            spec_pak_index(self.pak_names.spec_names(), basename@) is None ==> r == Err::<
                (Vec<BankRef>, bool),
                Error,
            >(Error::NoMatchInLookup),
            ({
                let entries = self.lookup_table.spec_entries();
                spec_pak_index(self.pak_names.spec_names(), basename@) matches Some(pidx) ==> {
                    let refs = spec_bank_refs(entries, pidx as u8);
                    &&& (refs.len() == 0 ==> r == Err::<(Vec<BankRef>, bool), Error>(
                        Error::NoEntryForPakIndex,
                    ))
                    &&& (refs.len() > 0 && spec_back_to_back(refs) ==> (r matches Ok(p) && p.0@
                        == refs && !p.1))
                    &&& (r matches Ok(p) ==> {
                        &&& p.0@.len() == refs.len()
                        &&& p.0@.to_multiset() == refs.to_multiset()
                        &&& spec_back_to_back(p.0@)
                        &&& p.1 == !spec_back_to_back(refs)
                        &&& (!p.1 ==> p.0@ == refs)
                    })
                    &&& (refs.len() > 0 && r is Err ==> r == Err::<(Vec<BankRef>, bool), Error>(
                        Error::UnsortedBanks,
                    ) && !spec_back_to_back(refs))
                }
            }),
    {
        let idx = match self.pak_names.get_pak_idx_from_name(basename) {
            Some(i) => i,
            None => {
                return Err(Error::NoMatchInLookup);
            }
        };
        let matching = self.lookup_table.matching_entries(idx);
        if matching.len() == 0 {
            return Err(Error::NoEntryForPakIndex);
        }
        let mut banks: Vec<BankRef> = Vec::new();
        let mut i: usize = 0;
        while i < matching.len()
            invariant
                i <= matching@.len(),
                matching@ == spec_matching(self.lookup_table.spec_entries(), idx),
                banks@.len() == i,
                forall|j: int| 0 <= j < i ==> #[trigger] banks@[j] == spec_bank_refs(
                    self.lookup_table.spec_entries(),
                    idx,
                )[j],
            decreases matching@.len() - i,
        {
            banks.push(
                BankRef { table_index: matching[i].0, dense_index: i, entry: matching[i].1 },
            );
            i = i + 1;
        }
        proof {
            assert(banks@ =~= spec_bank_refs(self.lookup_table.spec_entries(), idx));
        }
        if Self::is_back_to_back(&banks) {
            return Ok((banks, false));
        }
        Self::sort_banks(&mut banks);
        if Self::is_back_to_back(&banks) {
            return Ok((banks, true));
        }
        Err(Error::UnsortedBanks)
    }

    /// Whether the banks are back to back in their current order.
    fn is_back_to_back(banks: &Vec<BankRef>) -> (r: bool)
        ensures
            r == spec_back_to_back(banks@),
    {
        let mut i: usize = 0;
        let n = banks.len();
        if n == 0 {
            return true;
        }
        while i + 1 < n
            invariant
                i < n || (i == 0 && n == 0),
                n == banks@.len(),
                forall|j: int| 0 <= j < i ==> (#[trigger] banks@[j]).entry.offset
                    + banks@[j].entry.length + BANK_HEADER_SIZE == banks@[j + 1].entry.offset,
            decreases n - i,
        {
            let a = &banks[i].entry;
            let b = &banks[i + 1].entry;
            if !(a.offset as u64 + a.length as u64 + BANK_HEADER_SIZE as u64 == b.offset as u64) {
                return false;
            }
            i = i + 1;
        }
        true
    }

    /// Sort the banks by ascending lookup offset, keeping equal offsets
    /// in their current order.
    fn sort_banks(banks: &mut Vec<BankRef>)
        ensures
            final(banks)@.len() == old(banks)@.len(),
            final(banks)@.to_multiset() == old(banks)@.to_multiset(),
            spec_offset_sorted(final(banks)@),
    {
        broadcast use group_to_multiset_ensures;
        broadcast use vstd::multiset::group_multiset_axioms;

        let mut i: usize = 1;
        while i < banks.len()
            invariant
                1 <= i || banks@.len() == 0,
                i <= banks@.len() || banks@.len() == 0,
                banks@.len() == old(banks)@.len(),
                banks@.to_multiset() == old(banks)@.to_multiset(),
                spec_offset_sorted(banks@.subrange(0, i as int)) || banks@.len() == 0,
            decreases banks@.len() - i,
        {
            let ghost b0 = banks@;
            let x = banks.remove(i);
            proof {
                assert(b0.contains(b0[i as int]));
            }
            let mut pos: usize = 0;
            while pos < i
                invariant
                    pos <= i,
                    i < old(banks)@.len(),
                    banks@.len() == old(banks)@.len() - 1,
                    spec_offset_sorted(banks@.subrange(0, i as int)),
                    forall|j: int| 0 <= j < pos ==> (#[trigger] banks@[j]).entry.offset
                        <= x.entry.offset,
                ensures
                    pos <= i,
                    i < old(banks)@.len(),
                    banks@.len() == old(banks)@.len() - 1,
                    spec_offset_sorted(banks@.subrange(0, i as int)),
                    forall|j: int| 0 <= j < pos ==> (#[trigger] banks@[j]).entry.offset
                        <= x.entry.offset,
                    pos == i || banks@[pos as int].entry.offset > x.entry.offset,
                decreases i - pos,
            {
                if banks[pos].entry.offset > x.entry.offset {
                    break;
                }
                pos = pos + 1;
            }
            let ghost b1 = banks@;
            banks.insert(pos, x);
            proof {
                assert(spec_offset_sorted(banks@.subrange(0, i + 1))) by {
                    let s = banks@.subrange(0, i + 1);
                    assert forall|a: int, b: int| 0 <= a <= b < s.len() implies (
                    #[trigger] s[a]).entry.offset <= (#[trigger] s[b]).entry.offset by {
                        assert(s[a] == banks@[a] && s[b] == banks@[b]);
                    }
                }
                // removing the element and inserting it back elsewhere
                // keeps the multiset
                assert(banks@ == b1.insert(pos as int, x));
                vstd::seq_lib::to_multiset_insert(b1, pos as int, x);
                vstd::seq_lib::to_multiset_remove(b0, i as int);
                assert(x == b0[i as int]);
                assert(b1 == b0.remove(i as int));
                assert(b0.contains(x));
                vstd::seq_lib::to_multiset_contains(b0, x);
                assert(b0.to_multiset().count(x) > 0);
                assert(banks@.to_multiset() =~= b0.to_multiset());
            }
            i = i + 1;
        }
        proof {
            if banks@.len() > 0 {
                assert(banks@.subrange(0, banks@.len() as int) =~= banks@);
            }
        }
    }
}

/// Where bank `k` starts in the archive file: banks are read back to
/// back from the start of the file.
pub open spec fn spec_bank_start(refs: Seq<BankRef>, k: int) -> int
    decreases k,
{
    if k <= 0 {
        0
    } else {
        spec_bank_start(refs, k - 1) + BANK_HEADER_SIZE + refs[k - 1].entry.length
    }
}

pub proof fn lemma_bank_start_monotone(refs: Seq<BankRef>, j: int, k: int)
    requires
        0 <= j <= k,
    ensures
        spec_bank_start(refs, j) <= spec_bank_start(refs, k),
    decreases k - j,
{
    if j < k {
        lemma_bank_start_monotone(refs, j, k - 1);
    }
}

/// Bank `k` of the archive data can be read: it fits in the file and its
/// header parses against its payload length.
pub open spec fn spec_bank_read_ok(data: Seq<u8>, refs: Seq<BankRef>, k: int) -> bool {
    let start = spec_bank_start(refs, k);
    let plen = refs[k].entry.length as int;
    &&& start + BANK_HEADER_SIZE + plen <= data.len()
    &&& spec_u16_of_le(data.subrange(start, start + 2)) <= MAX_SOUND_ENTRIES
    &&& spec_offsets_valid(
        spec_raw_entries(data, start + 4, spec_u16_of_le(data.subrange(start, start + 2)) as int),
        plen,
    )
}

/// The banks of a loaded archive, read lazily out of the archive bytes.
#[derive(Debug, Clone, PartialEq, Eq)]
pub struct Banks {
    /// The archive file's bytes.
    pub data: Vec<u8>,
    /// The archive's banks, sorted by ascending offset.
    pub refs: Vec<BankRef>,
}

impl Banks {
    /// Number of banks in the archive.
    pub fn len(&self) -> (n: usize)
        ensures
            n == self.refs@.len(),
    {
        self.refs.len()
    }

    /// Whether the archive has no banks.
    pub fn is_empty(&self) -> (r: bool)
        ensures
            r == (self.refs@.len() == 0),
    {
        self.refs.len() == 0
    }

    /// Read bank `k`: its header parsed against the entry's payload
    /// length, and its payload copied out of the file.
    pub fn read_bank(&self, k: usize) -> (r: Result<Bank, Error>)
        requires
            k < self.refs@.len(),
        ensures
            r is Ok <==> spec_bank_read_ok(self.data@, self.refs@, k as int),
            r matches Ok(b) ==> ({
                let start = spec_bank_start(self.refs@, k as int);
                let plen = self.refs@[k as int].entry.length as int;
                &&& b.index == self.refs@[k as int].dense_index
                &&& b.wf()
                &&& b.bytes@ == self.data@.subrange(
                    start + BANK_HEADER_SIZE,
                    start + BANK_HEADER_SIZE + plen,
                )
                &&& b.bytes@.len() == plen
                &&& b.header.sound_entries@.len() == spec_u16_of_le(
                    self.data@.subrange(start, start + 2),
                )
                &&& b.header.padding == spec_u16_of_le(self.data@.subrange(start + 2, start + 4))
                &&& b.header.sound_entries@ == spec_with_sizes(
                    spec_raw_entries(self.data@, start + 4, b.header.sound_entries@.len() as int),
                    plen,
                )
                &&& b.header.spec_bytes() == spec_reser_header(self.data@, start)
            }),
            r matches Err(e) ==> e == Error::BinaryFormat,
    {
        let dlen = self.data.len();
        let mut pos: usize = 0;
        let mut j: usize = 0;
        while j < k
            invariant
                j <= k,
                k < self.refs@.len(),
                dlen == self.data@.len(),
                pos == spec_bank_start(self.refs@, j as int),
                pos <= dlen,
            decreases k - j,
        {
            let seg_len = self.refs[j].entry.length as usize;
            if dlen - pos < BANK_HEADER_SIZE || dlen - pos - BANK_HEADER_SIZE < seg_len {
                proof {
                    lemma_bank_start_monotone(self.refs@, j + 1, k as int);
                    assert(!spec_bank_read_ok(self.data@, self.refs@, k as int));
                }
                return Err(Error::BinaryFormat);
            }
            pos = pos + BANK_HEADER_SIZE + seg_len;
            j = j + 1;
        }
        let plen = self.refs[k].entry.length as usize;
        if dlen - pos < BANK_HEADER_SIZE || dlen - pos - BANK_HEADER_SIZE < plen {
            return Err(Error::BinaryFormat);
        }
        let header = match BankHeader::read(self.data.as_slice(), pos, plen) {
            Ok(h) => h,
            Err(e) => {
                return Err(e);
            }
        };
        let payload = vstd::slice::slice_to_vec(
            vstd::slice::slice_subrange(
                self.data.as_slice(),
                pos + BANK_HEADER_SIZE,
                pos + BANK_HEADER_SIZE + plen,
            ),
        );
        let b = Bank { index: self.refs[k].dense_index, header, bytes: payload };
        proof {
            let start = spec_bank_start(self.refs@, k as int);
            let n = b.header.sound_entries@.len() as int;
            lemma_with_sizes_within(
                spec_raw_entries(self.data@, start + 4, n),
                plen as int,
            );
            lemma_parsed_header_bytes(self.data@, start, plen as int, b.header);
        }
        Ok(b)
    }
}

/// A loaded SFX archive: its bytes and its resolved banks.
#[derive(Debug, Clone, PartialEq, Eq)]
pub struct SfxArchive {
    pub banks: Banks,
}

impl SfxManager {
    /// Load an archive from its base name and its file bytes: resolve
    /// which lookup entries are its banks (sorting them by offset when
    /// needed) and wrap the bytes. The boolean reports whether the
    /// entries had to be sorted, the caller's cue to warn.
    pub fn load(&self, basename: &str, archive_data: Vec<u8>) -> (r: Result<
        (SfxArchive, bool),
        Error,
    >)
        requires
            self.pak_names.wf(),
        ensures
            r matches Ok(p) ==> p.0.banks.data@ == archive_data@ && p.0.banks.refs@.len() > 0
                && spec_back_to_back(p.0.banks.refs@),
            spec_pak_index(self.pak_names.spec_names(), basename@) is None ==> (r matches Err(e)
                && e == Error::NoMatchInLookup),
            ({
                let entries = self.lookup_table.spec_entries();
                spec_pak_index(self.pak_names.spec_names(), basename@) matches Some(pidx) ==> {
                    let refs = spec_bank_refs(entries, pidx as u8);
                    &&& (refs.len() == 0 ==> (r matches Err(e) && e == Error::NoEntryForPakIndex))
                    &&& (refs.len() > 0 && spec_back_to_back(refs) ==> (r matches Ok(p)
                        && p.0.banks.refs@ == refs && !p.1))
                    &&& (r matches Ok(p) ==> {
                        &&& p.0.banks.refs@.len() == refs.len()
                        &&& p.0.banks.refs@.to_multiset() == refs.to_multiset()
                        &&& p.1 == !spec_back_to_back(refs)
                        &&& (!p.1 ==> p.0.banks.refs@ == refs)
                    })
                    &&& (refs.len() > 0 && r is Err ==> (r matches Err(e) && e
                        == Error::UnsortedBanks && !spec_back_to_back(refs)))
                }
            }),
    {
        let resolved = match self.get_sorted_lookup_table(basename) {
            Ok(p) => p,
            Err(e) => {
                return Err(e);
            }
        };
        Ok((SfxArchive { banks: Banks { data: archive_data, refs: resolved.0 } }, resolved.1))
    }
}

/// The bytes emitted for bank `k` during a bank import: the replacement
/// file verbatim when one exists for the bank's dense index, otherwise
/// the re-serialized original bank.
pub open spec fn spec_emitted_bank(
    data: Seq<u8>,
    refs: Seq<BankRef>,
    repl: Seq<Option<Vec<u8>>>,
    k: int,
) -> Seq<u8> {
    match repl[refs[k].dense_index as int] {
        Option::Some(buf) => buf@,
        Option::None => {
            let start = spec_bank_start(refs, k);
            spec_reser_header(data, start) + data.subrange(
                start + BANK_HEADER_SIZE,
                start + BANK_HEADER_SIZE + refs[k].entry.length,
            )
        }
    }
}

/// The output archive of a bank import, up to bank `k`.
pub open spec fn spec_import_banks_out(
    data: Seq<u8>,
    refs: Seq<BankRef>,
    repl: Seq<Option<Vec<u8>>>,
    k: int,
) -> Seq<u8>
    decreases k,
{
    if k <= 0 {
        Seq::empty()
    } else {
        spec_import_banks_out(data, refs, repl, k - 1) + spec_emitted_bank(data, refs, repl, k - 1)
    }
}

pub proof fn lemma_import_banks_out_monotone(
    data: Seq<u8>,
    refs: Seq<BankRef>,
    repl: Seq<Option<Vec<u8>>>,
    j: int,
    k: int,
)
    requires
        0 <= j <= k,
    ensures
        spec_import_banks_out(data, refs, repl, j).len() <= spec_import_banks_out(
            data,
            refs,
            repl,
            k,
        ).len(),
    decreases k - j,
{
    if j < k {
        lemma_import_banks_out_monotone(data, refs, repl, j, k - 1);
    }
}

/// What a bank import demands of its inputs: one replacement slot per
/// dense index, distinct table positions, whole-header replacement
/// files, and a total output that offsets can address.
pub open spec fn spec_import_banks_pre(
    tbl: Seq<LookUpEntry>,
    data: Seq<u8>,
    refs: Seq<BankRef>,
    repl: Seq<Option<Vec<u8>>>,
) -> bool {
    &&& forall|k: int| 0 <= k < refs.len() ==> (#[trigger] refs[k]).dense_index < repl.len()
    &&& forall|i: int, j: int| 0 <= i < j < refs.len() ==> (#[trigger] refs[i]).table_index != (
    #[trigger] refs[j]).table_index
    &&& forall|d: int| 0 <= d < repl.len() ==> (#[trigger] repl[d] matches Some(buf) ==> buf@.len()
        >= BANK_HEADER_SIZE)
    &&& spec_import_banks_out(data, refs, repl, refs.len() as int).len() <= u32::MAX
}

/// The lookup entry bank `kk` is rewritten to: same pak index and
/// padding, the bank's new offset, and its new payload length.
pub open spec fn spec_import_entry(
    old_e: LookUpEntry,
    data: Seq<u8>,
    refs: Seq<BankRef>,
    repl: Seq<Option<Vec<u8>>>,
    kk: int,
) -> LookUpEntry {
    LookUpEntry {
        index: old_e.index,
        padding: old_e.padding,
        offset: spec_import_banks_out(data, refs, repl, kk).len() as u32,
        length: (spec_emitted_bank(data, refs, repl, kk).len() - BANK_HEADER_SIZE) as u32,
    }
}

/// The table after the first `k` banks have been imported: their entries
/// rewritten, everything else untouched.
pub open spec fn spec_tbl_after(
    old_es: Seq<LookUpEntry>,
    es: Seq<LookUpEntry>,
    data: Seq<u8>,
    refs: Seq<BankRef>,
    repl: Seq<Option<Vec<u8>>>,
    k: int,
) -> bool {
    &&& es.len() == old_es.len()
    &&& forall|kk: int| 0 <= kk < k && (#[trigger] refs[kk]).table_index < old_es.len()
        ==> es[refs[kk].table_index as int] == spec_import_entry(
        old_es[refs[kk].table_index as int],
        data,
        refs,
        repl,
        kk,
    )
    &&& forall|t: int| 0 <= t < old_es.len() && (forall|kk: int| 0 <= kk < k ==> (
    #[trigger] refs[kk]).table_index != t) ==> es[t] == old_es[t]
}


/// The parsed sound entries of bank `k`, sizes derived against its
/// lookup length.
pub open spec fn spec_bank_oes(data: Seq<u8>, refs: Seq<BankRef>, k: int) -> Seq<SoundEntry> {
    let start = spec_bank_start(refs, k);
    spec_with_sizes(
        spec_raw_entries(data, start + 4, spec_u16_of_le(data.subrange(start, start + 2)) as int),
        refs[k].entry.length as int,
    )
}

/// The per-sound file list supplied for bank `k`, when any.
pub open spec fn spec_bank_files(
    refs: Seq<BankRef>,
    repl: Seq<Option<Vec<Option<Vec<u8>>>>>,
    k: int,
) -> Option<Vec<Option<Vec<u8>>>> {
    repl[refs[k].dense_index as int]
}

/// The payload length bank `k` has after a sound import.
pub open spec fn spec_sound_bank_payload_len(
    data: Seq<u8>,
    refs: Seq<BankRef>,
    repl: Seq<Option<Vec<Option<Vec<u8>>>>>,
    st: SoundType,
    k: int,
) -> int {
    match spec_bank_files(refs, repl, k) {
        Option::Some(files) => spec_rebuild_total(
            st,
            files@,
            spec_bank_oes(data, refs, k),
            spec_bank_oes(data, refs, k).len() as int,
        ),
        Option::None => refs[k].entry.length as int,
    }
}

/// Total output length of a sound import over the first `k` banks.
pub open spec fn spec_sound_import_total(
    data: Seq<u8>,
    refs: Seq<BankRef>,
    repl: Seq<Option<Vec<Option<Vec<u8>>>>>,
    st: SoundType,
    k: int,
) -> int
    decreases k,
{
    if k <= 0 {
        0
    } else {
        spec_sound_import_total(data, refs, repl, st, k - 1) + BANK_HEADER_SIZE
            + spec_sound_bank_payload_len(data, refs, repl, st, k - 1)
    }
}

pub proof fn lemma_sound_import_total_monotone(
    data: Seq<u8>,
    refs: Seq<BankRef>,
    repl: Seq<Option<Vec<Option<Vec<u8>>>>>,
    st: SoundType,
    j: int,
    k: int,
)
    requires
        0 <= j <= k,
    ensures
        spec_sound_import_total(data, refs, repl, st, j) <= spec_sound_import_total(
            data,
            refs,
            repl,
            st,
            k,
        ),
    decreases k - j,
{
    if j < k {
        lemma_sound_import_total_monotone(data, refs, repl, st, j, k - 1);
        match spec_bank_files(refs, repl, k - 1) {
            Option::Some(files) => {
                lemma_rebuild_total_monotone(
                    st,
                    files@,
                    spec_bank_oes(data, refs, k - 1),
                    0,
                    spec_bank_oes(data, refs, k - 1).len() as int,
                );
            }
            Option::None => {}
        }
    }
}

/// Bank `k`'s supplied files can all convert and its rebuilt payload
/// stays addressable; trivially true for a bank without files.
pub open spec fn spec_bank_convert_ok(
    data: Seq<u8>,
    refs: Seq<BankRef>,
    repl: Seq<Option<Vec<Option<Vec<u8>>>>>,
    st: SoundType,
    k: int,
) -> bool {
    match spec_bank_files(refs, repl, k) {
        Option::Some(files) => {
            let oes = spec_bank_oes(data, refs, k);
            &&& (forall|i: int|
                0 <= i < oes.len() ==> !((#[trigger] spec_sound_file(files@, i)) matches Some(f)
                    && spec_sound_emit_fails(st, f)))
            &&& spec_rebuild_total(st, files@, oes, oes.len() as int) <= u32::MAX
        },
        Option::None => true,
    }
}

/// Everything a sound import needs in order to succeed: every bank
/// reads, every supplied file converts, and the output stays
/// addressable by the lookup table's 32-bit offsets.
pub open spec fn spec_sound_import_ok(
    data: Seq<u8>,
    refs: Seq<BankRef>,
    repl: Seq<Option<Vec<Option<Vec<u8>>>>>,
    st: SoundType,
) -> bool {
    &&& forall|k: int| 0 <= k < refs.len() ==> #[trigger] spec_bank_read_ok(data, refs, k)
    &&& forall|k: int| 0 <= k < refs.len() ==> #[trigger] spec_bank_convert_ok(
        data,
        refs,
        repl,
        st,
        k,
    )
    &&& spec_sound_import_total(data, refs, repl, st, refs.len() as int) <= u32::MAX
}

/// The bytes bank `k` contributes to a sound import's output: either
/// the re-serialized original bank, or a rebuilt bank whose header holds
/// the chained entries and whose payload carries each sound converted
/// or copied (see `spec_rebuilt_sound`).
#[verifier::opaque]
pub open spec fn spec_sound_bank_segment(
    data: Seq<u8>,
    refs: Seq<BankRef>,
    repl: Seq<Option<Vec<Option<Vec<u8>>>>>,
    st: SoundType,
    k: int,
    seg: Seq<u8>,
) -> bool {
    let start = spec_bank_start(refs, k);
    let plen = refs[k].entry.length as int;
    match spec_bank_files(refs, repl, k) {
        Option::None => seg == spec_reser_header(data, start) + data.subrange(
            start + BANK_HEADER_SIZE,
            start + BANK_HEADER_SIZE + plen,
        ),
        Option::Some(files) => {
            let oes = spec_bank_oes(data, refs, k);
            exists|nes: Seq<SoundEntry>, payload: Seq<u8>|
                #![trigger nes.len(), payload.len()]
                {
                    &&& nes.len() == oes.len()
                &&& seg == spec_u16_le(nes.len() as u16) + spec_u16_le(
                    spec_u16_of_le(data.subrange(start + 2, start + 4)),
                ) + crate::bank::spec_entries_bytes(nes) + Seq::new(
                    ((MAX_SOUND_ENTRIES - nes.len()) * SOUND_ENTRY_SIZE) as nat,
                    |q: int| 0u8,
                ) + payload
                &&& forall|i: int| 0 <= i < nes.len() ==> (#[trigger] nes[i]).offset == (if i
                    == 0 {
                    0int
                } else {
                    nes[i - 1].offset + nes[i - 1].size
                })
                &&& (nes.len() > 0 ==> nes[nes.len() - 1].offset + nes[nes.len() - 1].size
                    == payload.len())
                &&& (nes.len() == 0 ==> payload.len() == 0)
                    &&& forall|i: int| 0 <= i < nes.len() ==> spec_rebuilt_sound(
                        st,
                        files@,
                        i,
                        oes[i],
                        (#[trigger] nes[i]),
                        payload.subrange(nes[i].offset as int, nes[i].offset + nes[i].size),
                        data.subrange(start + BANK_HEADER_SIZE, start + BANK_HEADER_SIZE + plen),
                    )
                }
        },
    }
}

/// Whether bank `k`'s supplied files include a non-mono import.
pub open spec fn spec_bank_not_mono(
    data: Seq<u8>,
    refs: Seq<BankRef>,
    repl: Seq<Option<Vec<Option<Vec<u8>>>>>,
    st: SoundType,
    k: int,
) -> bool {
    match spec_bank_files(refs, repl, k) {
        Option::Some(files) => spec_any_not_mono(
            st,
            files@,
            spec_bank_oes(data, refs, k).len() as int,
        ),
        Option::None => false,
    }
}

/// Whether any of the first `upto` banks imports a non-mono sound.
#[verifier::opaque]
pub open spec fn spec_import_any_not_mono(
    data: Seq<u8>,
    refs: Seq<BankRef>,
    repl: Seq<Option<Vec<Option<Vec<u8>>>>>,
    st: SoundType,
    upto: int,
) -> bool {
    exists|k: int| 0 <= k < upto && #[trigger] spec_bank_not_mono(data, refs, repl, st, k)
}

pub proof fn lemma_import_any_not_mono_zero(
    data: Seq<u8>,
    refs: Seq<BankRef>,
    repl: Seq<Option<Vec<Option<Vec<u8>>>>>,
    st: SoundType,
)
    ensures
        !spec_import_any_not_mono(data, refs, repl, st, 0),
{
    reveal(spec_import_any_not_mono);
}

pub proof fn lemma_import_any_not_mono_step(
    data: Seq<u8>,
    refs: Seq<BankRef>,
    repl: Seq<Option<Vec<Option<Vec<u8>>>>>,
    st: SoundType,
    k: int,
)
    requires
        k >= 0,
    ensures
        spec_import_any_not_mono(data, refs, repl, st, k + 1) == (spec_import_any_not_mono(
            data,
            refs,
            repl,
            st,
            k,
        ) || spec_bank_not_mono(data, refs, repl, st, k)),
{
    reveal(spec_import_any_not_mono);
    if spec_import_any_not_mono(data, refs, repl, st, k) {
        assert(spec_import_any_not_mono(data, refs, repl, st, k + 1));
    }
    if spec_bank_not_mono(data, refs, repl, st, k) {
        assert(spec_import_any_not_mono(data, refs, repl, st, k + 1));
    }
}

impl SfxArchive {
    /// The archive's banks.
    pub fn banks(self) -> (r: Banks)
        ensures
            r == self.banks,
    {
        self.banks
    }

    /// Import previously exported `.bnk` files into a new archive: each
    /// bank is either replaced wholesale by its file or copied from the
    /// original, while every lookup entry is rewritten to the bank's new
    /// offset and payload length.
    #[verifier::spinoff_prover]
    #[verifier::rlimit(100)]
    pub fn import_banks(self, replacements: &Vec<Option<Vec<u8>>>, lookuptbl: &mut LookUpTable) -> (r:
        Result<Vec<u8>, Error>)
        requires
            spec_import_banks_pre(old(lookuptbl).spec_entries(), self.banks.data@, self.banks.refs@, replacements@),
        ensures
            r matches Ok(out) ==> out@ == spec_import_banks_out(
                self.banks.data@,
                self.banks.refs@,
                replacements@,
                self.banks.refs@.len() as int,
            ) && spec_tbl_after(
                old(lookuptbl).spec_entries(),
                final(lookuptbl).spec_entries(),
                self.banks.data@,
                self.banks.refs@,
                replacements@,
                self.banks.refs@.len() as int,
            ),
            r matches Ok(out) ==> ({
                let refs = self.banks.refs@;
                let n = refs.len() as int;
                let es = final(lookuptbl).spec_entries();
                &&& forall|k: int| 0 <= k < n ==> (#[trigger] refs[k]).table_index < es.len()
                &&& (n > 0 ==> es[refs[0].table_index as int].offset == 0)
                &&& forall|k: int| 0 <= k < n - 1 ==> (
                #[trigger] es[refs[k].table_index as int]).offset
                    + es[refs[k].table_index as int].length + BANK_HEADER_SIZE
                    == es[refs[k + 1].table_index as int].offset
                &&& (n > 0 ==> out@.len() == es[refs[n - 1].table_index as int].offset
                    + es[refs[n - 1].table_index as int].length + BANK_HEADER_SIZE)
                &&& (n == 0 ==> out@.len() == 0)
            }),
            (forall|k: int| 0 <= k < self.banks.refs@.len() ==> (#[trigger] spec_bank_read_ok(
                self.banks.data@,
                self.banks.refs@,
                k,
            )) && self.banks.refs@[k].table_index < old(lookuptbl).spec_entries().len())
                ==> r is Ok,
    {
        let ghost data = self.banks.data@;
        let ghost refs = self.banks.refs@;
        let ghost repl = replacements@;
        let ghost old_entries = lookuptbl.spec_entries();
        let n = self.banks.refs.len();
        let mut out: Vec<u8> = Vec::new();
        let mut k: usize = 0;
        while k < n
            invariant
                k <= n,
                n == refs.len(),
                data == self.banks.data@,
                refs == self.banks.refs@,
                repl == replacements@,
                old_entries == old(lookuptbl).spec_entries(),
                spec_import_banks_pre(old_entries, data, refs, repl),
                out@ == spec_import_banks_out(data, refs, repl, k as int),
                spec_tbl_after(old_entries, lookuptbl.spec_entries(), data, refs, repl, k as int),
                forall|kk: int| 0 <= kk < k ==> (#[trigger] refs[kk]).table_index
                    < old_entries.len(),
                forall|kk: int| 0 <= kk < k ==> (#[trigger] spec_emitted_bank(
                    data,
                    refs,
                    repl,
                    kk,
                )).len() >= BANK_HEADER_SIZE,
            decreases n - k,
        {
            match Self::import_one_bank(&self.banks, replacements, lookuptbl, k, &mut out) {
                Ok(_) => {}
                Err(e) => {
                    proof {
                        if forall|kk: int| 0 <= kk < refs.len() ==> (
                        #[trigger] spec_bank_read_ok(data, refs, kk))
                            && refs[kk].table_index < old_entries.len() {
                            assert(spec_bank_read_ok(data, refs, k as int));
                            assert(false);
                        }
                    }
                    return Err(e);
                }
            }
            k = k + 1;
        }
        proof {
            let es = lookuptbl.spec_entries();
            assert forall|kk: int| 0 <= kk < refs.len() - 1 implies (
            #[trigger] es[refs[kk].table_index as int]).offset
                + es[refs[kk].table_index as int].length + BANK_HEADER_SIZE
                == es[refs[kk + 1].table_index as int].offset by {
                lemma_import_banks_out_monotone(data, refs, repl, kk + 1, refs.len() as int);
                lemma_import_banks_out_monotone(data, refs, repl, kk, kk + 1);
                assert(spec_import_banks_out(data, refs, repl, kk + 1)
                    == spec_import_banks_out(data, refs, repl, kk) + spec_emitted_bank(
                    data,
                    refs,
                    repl,
                    kk,
                ));
            }
            if refs.len() > 0 {
                let last = refs.len() - 1;
                lemma_import_banks_out_monotone(data, refs, repl, last, refs.len() as int);
                assert(spec_import_banks_out(data, refs, repl, last + 1)
                    == spec_import_banks_out(data, refs, repl, last) + spec_emitted_bank(
                    data,
                    refs,
                    repl,
                    last,
                ));
            }
        }
        Ok(out)
    }

    /// Emit one bank during a bank import and rewrite its lookup entry.
    #[verifier::spinoff_prover]
    #[verifier::rlimit(100)]
    fn import_one_bank(
        banks: &Banks,
        replacements: &Vec<Option<Vec<u8>>>,
        lookuptbl: &mut LookUpTable,
        k: usize,
        out: &mut Vec<u8>,
    ) -> (r: Result<(), Error>)
        requires
            k < banks.refs@.len(),
            spec_import_banks_pre(
                old(lookuptbl).spec_entries(),
                banks.data@,
                banks.refs@,
                replacements@,
            ),
            spec_tbl_after(
                old(lookuptbl).spec_entries(),
                old(lookuptbl).spec_entries(),
                banks.data@,
                banks.refs@,
                replacements@,
                k as int,
            ),
            old(out)@ == spec_import_banks_out(banks.data@, banks.refs@, replacements@, k as int),
        ensures
            r is Ok ==> spec_emitted_bank(banks.data@, banks.refs@, replacements@, k as int).len()
                >= BANK_HEADER_SIZE,
            r is Ok ==> banks.refs@[k as int].table_index < old(lookuptbl).spec_entries().len(),
            r is Ok ==> final(out)@ == spec_import_banks_out(
                banks.data@,
                banks.refs@,
                replacements@,
                k + 1,
            ) && spec_tbl_after(
                old(lookuptbl).spec_entries(),
                final(lookuptbl).spec_entries(),
                banks.data@,
                banks.refs@,
                replacements@,
                k + 1,
            ),
            r is Err ==> !(spec_bank_read_ok(banks.data@, banks.refs@, k as int)
                && banks.refs@[k as int].table_index < old(lookuptbl).spec_entries().len()),
    {
        let ghost data = banks.data@;
        let ghost refs = banks.refs@;
        let ghost repl = replacements@;
        let bank = match banks.read_bank(k) {
            Ok(b) => b,
            Err(e) => {
                return Err(e);
            }
        };
        proof {
            lemma_import_banks_out_monotone(data, refs, repl, k as int, refs.len() as int);
            lemma_import_banks_out_monotone(data, refs, repl, k + 1, refs.len() as int);
        }
        let new_offset = out.len() as u32;
        let table_index = banks.refs[k].table_index;
        let new_length: u32;
        match &replacements[bank.index] {
            Some(buf) => {
                new_length = (buf.len() - BANK_HEADER_SIZE) as u32;
                out.extend_from_slice(buf.as_slice());
            }
            None => {
                new_length = bank.bytes.len() as u32;
                let bank_bytes = bank.to_writer();
                out.extend_from_slice(bank_bytes.as_slice());
            }
        }
        proof {
            assert(final(out)@ =~= spec_import_banks_out(data, refs, repl, k + 1));
        }
        match lookuptbl.get_mut(table_index) {
            Some(e) => {
                e.offset = new_offset;
                e.length = new_length;
            }
            None => {
                return Err(Error::NoIndexInLookup);
            }
        }
        Ok(())
    }
}


/// The bank header stored at `start` keeps zeroes in its unused entry
/// slots, so re-serializing it is byte-exact.
pub open spec fn spec_zero_padded_header(data: Seq<u8>, start: int) -> bool {
    let n = spec_u16_of_le(data.subrange(start, start + 2)) as int;
    &&& n <= MAX_SOUND_ENTRIES
    &&& forall|j: int| start + 4 + 12 * n <= j < start + BANK_HEADER_SIZE ==> #[trigger] data[j]
        == 0
}

/// Bank-import identity: when no replacement file exists and every bank
/// header stores zeroes in its unused entry slots, a bank import
/// reproduces the original archive byte for byte up to bank `k`.
pub proof fn lemma_bank_import_identity(
    data: Seq<u8>,
    refs: Seq<BankRef>,
    repl: Seq<Option<Vec<u8>>>,
    k: int,
)
    requires
        0 <= k <= refs.len(),
        forall|d: int| 0 <= d < repl.len() ==> (#[trigger] repl[d]) is None,
        forall|kk: int| 0 <= kk < refs.len() ==> (#[trigger] refs[kk]).dense_index < repl.len(),
        spec_bank_start(refs, refs.len() as int) <= data.len(),
        forall|kk: int| 0 <= kk < refs.len() ==> spec_zero_padded_header(
            data,
            #[trigger] spec_bank_start(refs, kk),
        ),
    ensures
        spec_import_banks_out(data, refs, repl, k) == data.subrange(0, spec_bank_start(refs, k)),
    decreases k,
{
    if k == 0 {
        assert(spec_import_banks_out(data, refs, repl, 0) =~= data.subrange(0, 0));
    } else {
        lemma_bank_import_identity(data, refs, repl, k - 1);
        let start = spec_bank_start(refs, k - 1);
        lemma_bank_start_monotone(refs, 0, k - 1);
        lemma_bank_start_monotone(refs, k, refs.len() as int);
        assert(spec_zero_padded_header(data, start));
        let n = spec_u16_of_le(data.subrange(start, start + 2)) as int;
        assert(12 * n <= 4800) by (nonlinear_arith)
            requires
                n <= 400,
        ;
        assert(spec_reser_header(data, start) =~= data.subrange(
            start,
            start + BANK_HEADER_SIZE,
        ));
        assert(spec_emitted_bank(data, refs, repl, k - 1) =~= data.subrange(
            start,
            spec_bank_start(refs, k),
        ));
        assert(spec_import_banks_out(data, refs, repl, k) =~= data.subrange(
            0,
            spec_bank_start(refs, k),
        ));
    }
}


/// After a bank import, consecutive banks' rewritten lookup entries are
/// back to back: each bank's new offset, payload length and header span
/// end exactly where the next bank's new offset begins.
pub proof fn lemma_import_offsets_chain(
    data: Seq<u8>,
    refs: Seq<BankRef>,
    repl: Seq<Option<Vec<u8>>>,
    k: int,
)
    requires
        0 <= k < refs.len() - 1,
        spec_import_banks_out(data, refs, repl, refs.len() as int).len() <= u32::MAX,
        spec_emitted_bank(data, refs, repl, k).len() >= BANK_HEADER_SIZE,
    ensures
        spec_import_banks_out(data, refs, repl, k).len() + (spec_emitted_bank(
            data,
            refs,
            repl,
            k,
        ).len() - BANK_HEADER_SIZE) + BANK_HEADER_SIZE == spec_import_banks_out(
            data,
            refs,
            repl,
            k + 1,
        ).len(),
{
}

/// Whether converting a sound file of the given type must fail.
pub open spec fn spec_sound_emit_fails(st: SoundType, file: Seq<u8>) -> bool {
    match st {
        SoundType::Raw => false,
        SoundType::PcWav => !(spec_wav_parse(file) matches Some(t) && t.3.len() * 2
            <= usize::MAX),
        SoundType::Ps2Vag => !spec_vag_parse_ok(file),
        SoundType::Ps2Wav => !(spec_wav_parse(file) matches Some(t) && t.0 == 1 && spec_pad28(
            t.3,
        ).len() <= 0x0FFF_0000 * 28),
    }
}

/// Whether a sound file of the given type is not mono; only the PC WAV
/// path imports such files, with a warning.
pub open spec fn spec_sound_not_mono(st: SoundType, file: Seq<u8>) -> bool {
    st == SoundType::PcWav && (spec_wav_parse(file) matches Some(t) && t.0 != 1)
}

/// How one imported sound relates its file bytes, its rewritten entry
/// and the bytes appended to the new payload, per sound type. The
/// entry's offset is the caller's; size and (except for raw sounds) the
/// sample rate come from the file.
pub open spec fn spec_sound_converted(
    st: SoundType,
    file: Seq<u8>,
    old_e: SoundEntry,
    new_e: SoundEntry,
    appended: Seq<u8>,
) -> bool {
    match st {
        SoundType::Raw => appended == file && new_e == (SoundEntry {
            size: file.len() as usize,
            ..old_e
        }),
        SoundType::PcWav => spec_wav_parse(file) matches Some(t) && appended == spec_pcm_le(t.3)
            && new_e == (SoundEntry {
            sample_rate: spec_low16(t.1),
            size: (t.3.len() * 2) as usize,
            ..old_e
        }),
        SoundType::Ps2Vag => spec_vag_parse_ok(file) && appended == file.subrange(
            48,
            48 + spec_vag_size(file),
        ) && new_e == (SoundEntry {
            sample_rate: spec_low16(spec_u32_of_be(file.subrange(16, 20))),
            size: spec_vag_size(file) as usize,
            ..old_e
        }),
        SoundType::Ps2Wav => spec_wav_parse(file) matches Some(t) && exists|cs: Seq<VAGChunk>| {
            &&& spec_encoded_chunks_ok(
                cs,
                spec_pad28(t.3),
                true,
                spec_loop_bounds(spec_smpl_scan(file)).0,
                spec_loop_bounds(spec_smpl_scan(file)).1,
            )
            &&& appended == Seq::new(16, |i: int| 0u8) + spec_chunks_bytes(cs)
            &&& new_e == (SoundEntry {
                sample_rate: spec_low16(t.1),
                size: (16 + cs.len() * 16) as usize,
                ..old_e
            })
        },
    }
}

/// Convert one sound file and append its bank bytes, dispatching on the
/// sound type; reports whether the file was not mono.
fn convert_sound(st: SoundType, file: &Vec<u8>, sentry: &mut SoundEntry, out: &mut Vec<u8>) -> (r:
    Result<bool, Error>)
    ensures
        r is Ok <==> !spec_sound_emit_fails(st, file@),
        r matches Ok(nm) ==> {
            &&& final(out)@.len() >= old(out)@.len()
            &&& final(out)@.subrange(0, old(out)@.len() as int) == old(out)@
            &&& spec_sound_converted(
                st,
                file@,
                *old(sentry),
                *final(sentry),
                final(out)@.skip(old(out)@.len() as int),
            )
            &&& final(out)@.len() == old(out)@.len() + final(sentry).size
            &&& nm == spec_sound_not_mono(st, file@)
        },
        r is Err ==> final(out)@ == old(out)@ && *final(sentry) == *old(sentry),
{
    let ghost base = out@;
    let file_len = file.len();
    let r = match st {
        SoundType::Raw => crate::raw::import_raw(file, sentry, out),
        SoundType::PcWav => crate::pc::import_wav(file, sentry, out),
        SoundType::Ps2Vag => crate::ps2::import_vag(file, sentry, out),
        SoundType::Ps2Wav => crate::ps2::import_wav(file, sentry, out),
    };
    match r {
        Ok(nm) => {
            proof {
                assert(out@.subrange(0, base.len() as int) =~= base);
                let tail = out@.skip(base.len() as int);
                match st {
                    SoundType::Raw => {
                        assert(tail =~= file@);
                        assert(out@.len() == base.len() + sentry.size);
                    }
                    SoundType::PcWav => {
                        match spec_wav_parse(file@) {
                            Option::Some(t) => {
                                assert(tail =~= spec_pcm_le(t.3));
                                crate::pc::lemma_pcm_le_len(t.3);
                                assert(out@.len() == base.len() + sentry.size);
                            }
                            Option::None => {}
                        }
                    }
                    SoundType::Ps2Vag => {
                        assert(tail =~= file@.subrange(48, 48 + spec_vag_size(file@)));
                        assert(out@.len() == base.len() + sentry.size);
                    }
                    SoundType::Ps2Wav => {
                        match spec_wav_parse(file@) {
                            Option::Some(t) => {
                                let cs = choose|cs: Seq<VAGChunk>| {
                                    &&& spec_encoded_chunks_ok(
                                        cs,
                                        spec_pad28(t.3),
                                        true,
                                        spec_loop_bounds(spec_smpl_scan(file@)).0,
                                        spec_loop_bounds(spec_smpl_scan(file@)).1,
                                    )
                                    &&& out@ == base + Seq::new(16, |i: int| 0u8)
                                        + spec_chunks_bytes(cs)
                                    &&& *sentry == (SoundEntry {
                                        sample_rate: spec_low16(t.1),
                                        size: (16 + cs.len() * 16) as usize,
                                        ..*old(sentry)
                                    })
                                };
                                assert(tail =~= Seq::new(16, |i: int| 0u8) + spec_chunks_bytes(
                                    cs,
                                ));
                                crate::vag::lemma_chunks_bytes_len(cs);
                                let nn = spec_pad28(t.3).len() as int / 28;
                                assert(nn <= 0x0FFF_0000) by (nonlinear_arith)
                                    requires
                                        spec_pad28(t.3).len() <= 0x0FFF_0000 * 28,
                                        nn == spec_pad28(t.3).len() as int / 28,
                                ;
                                assert(cs.len() <= nn + 1);
                                assert(out@.len() == base.len() + sentry.size);
                            }
                            Option::None => {}
                        }
                    }
                }
            }
            Ok(nm)
        }
        Err(e) => Err(e),
    }
}



/// In a chain where every entry starts where the one before it ends and
/// the last processed entry ends at `total`, every processed entry ends
/// at or before `total`.
#[verifier::spinoff_prover]
#[verifier::rlimit(100)]
pub proof fn lemma_offset_chain_bound(es: Seq<SoundEntry>, i: int, total: int)
    requires
        0 <= i <= es.len(),
        forall|j: int| 0 <= j < i ==> (#[trigger] es[j]).offset == (if j == 0 {
            0int
        } else {
            es[j - 1].offset + es[j - 1].size
        }),
        i > 0 ==> es[i - 1].offset + es[i - 1].size == total,
        i == 0 ==> total >= 0,
    ensures
        forall|j: int| 0 <= j < i ==> (#[trigger] es[j]).offset + es[j].size <= total,
    decreases i,
{
    if i > 1 {
        assert(es[i - 1].offset == es[i - 2].offset + es[i - 2].size);
        lemma_offset_chain_bound(es, i - 1, es[i - 1].offset as int);
        assert forall|j: int| 0 <= j < i implies (#[trigger] es[j]).offset + es[j].size
            <= total by {
            if j < i - 1 {
                assert(es[j].offset + es[j].size <= es[i - 1].offset);
            }
        }
    }
}


/// Whether any of the first `upto` sounds with a file is not mono.
#[verifier::opaque]
pub open spec fn spec_any_not_mono(st: SoundType, files: Seq<Option<Vec<u8>>>, upto: int) -> bool {
    exists|j: int|
        #![trigger spec_sound_file(files, j)]
        0 <= j < upto && (spec_sound_file(files, j) matches Some(f) && spec_sound_not_mono(st, f))
}

pub proof fn lemma_any_not_mono_zero(st: SoundType, files: Seq<Option<Vec<u8>>>)
    ensures
        !spec_any_not_mono(st, files, 0),
{
    reveal(spec_any_not_mono);
}

pub proof fn lemma_any_not_mono_step(st: SoundType, files: Seq<Option<Vec<u8>>>, i: int)
    requires
        i >= 0,
    ensures
        spec_any_not_mono(st, files, i + 1) == (spec_any_not_mono(st, files, i) || (
        spec_sound_file(files, i) matches Some(f) && spec_sound_not_mono(st, f))),
{
    reveal(spec_any_not_mono);
    if spec_any_not_mono(st, files, i) {
        assert(spec_any_not_mono(st, files, i + 1));
    }
    if spec_sound_file(files, i) matches Some(f) && spec_sound_not_mono(st, f) {
        assert(spec_any_not_mono(st, files, i + 1));
    }
}

/// Extending a byte vector leaves every span of the old prefix intact.
pub proof fn lemma_prefix_subranges(prev: Seq<u8>, cur: Seq<u8>)
    requires
        prev.len() <= cur.len(),
        cur.subrange(0, prev.len() as int) == prev,
    ensures
        forall|a: int, b: int| 0 <= a <= b <= prev.len() ==> #[trigger] cur.subrange(a, b)
            == prev.subrange(a, b),
{
    assert forall|a: int, b: int| 0 <= a <= b <= prev.len() implies #[trigger] cur.subrange(a, b)
        == prev.subrange(a, b) by {
        assert(cur.subrange(a, b) =~= prev.subrange(a, b)) by {
            assert(forall|m: int| 0 <= m < prev.len() ==> #[trigger] cur[m] == prev[m]) by {
                assert(forall|m: int| 0 <= m < prev.len() ==> prev[m] == cur.subrange(
                    0,
                    prev.len() as int,
                )[m]);
            }
        }
    }
}

/// The file chosen for sound `i`, when the per-sound list holds one.
pub open spec fn spec_sound_file(files: Seq<Option<Vec<u8>>>, i: int) -> Option<Seq<u8>> {
    if 0 <= i < files.len() {
        match files[i] {
            Option::Some(f) => Option::Some(f@),
            Option::None => Option::None,
        }
    } else {
        Option::None
    }
}


/// How sound `i` of a rebuilt bank relates to its old entry and the old
/// payload: converted from its file when one exists, copied otherwise.
#[verifier::opaque]
pub open spec fn spec_rebuilt_sound(
    st: SoundType,
    files: Seq<Option<Vec<u8>>>,
    i: int,
    oe: SoundEntry,
    ne: SoundEntry,
    seg: Seq<u8>,
    old_src: Seq<u8>,
) -> bool {
    match spec_sound_file(files, i) {
        Option::Some(f) => spec_sound_converted(
            st,
            f,
            (SoundEntry { offset: ne.offset, ..oe }),
            ne,
            seg,
        ),
        Option::None => ne == (SoundEntry { offset: ne.offset, ..oe }) && seg == old_src.subrange(
            oe.offset as int,
            oe.offset + oe.size,
        ),
    }
}


/// The byte length a converted sound file contributes to the payload.
pub open spec fn spec_sound_emit_len(st: SoundType, file: Seq<u8>) -> int {
    match st {
        SoundType::Raw => file.len() as int,
        SoundType::PcWav => match spec_wav_parse(file) {
            Option::Some(t) => 2 * t.3.len() as int,
            Option::None => 0,
        },
        SoundType::Ps2Vag => if spec_vag_parse_ok(file) {
            spec_vag_size(file)
        } else {
            0
        },
        SoundType::Ps2Wav => match spec_wav_parse(file) {
            Option::Some(t) => 16 + 16 * crate::vagcodec::spec_enc_n_data(
                spec_pad28(t.3).len() as int / 28,
                true,
                spec_loop_bounds(spec_smpl_scan(file)).1,
            ),
            Option::None => 0,
        },
    }
}

pub proof fn lemma_emit_len_nonneg(st: SoundType, file: Seq<u8>)
    ensures
        spec_sound_emit_len(st, file) >= 0,
{
    match st {
        SoundType::Ps2Wav => {
            match spec_wav_parse(file) {
                Option::Some(t) => {
                    let n = spec_pad28(t.3).len() as int / 28;
                    let le = spec_loop_bounds(spec_smpl_scan(file)).1;
                    assert(le >= 0);
                    assert(crate::vagcodec::spec_enc_n_data(n, true, le) >= 0);
                }
                Option::None => {}
            }
        }
        _ => {}
    }
}

/// The size sound `i` has after a rebuild: the converted length when a
/// file exists, the old size otherwise.
pub open spec fn spec_new_sound_size(
    st: SoundType,
    files: Seq<Option<Vec<u8>>>,
    i: int,
    oe: SoundEntry,
) -> int {
    match spec_sound_file(files, i) {
        Option::Some(f) => spec_sound_emit_len(st, f),
        Option::None => oe.size as int,
    }
}

/// Total payload length of the first `k` sounds after a rebuild.
pub open spec fn spec_rebuild_total(
    st: SoundType,
    files: Seq<Option<Vec<u8>>>,
    oes: Seq<SoundEntry>,
    k: int,
) -> int
    decreases k,
{
    if k <= 0 {
        0
    } else {
        spec_rebuild_total(st, files, oes, k - 1) + spec_new_sound_size(st, files, k - 1, oes[k
            - 1])
    }
}

pub proof fn lemma_rebuild_total_monotone(
    st: SoundType,
    files: Seq<Option<Vec<u8>>>,
    oes: Seq<SoundEntry>,
    j: int,
    k: int,
)
    requires
        0 <= j <= k,
    ensures
        spec_rebuild_total(st, files, oes, j) <= spec_rebuild_total(st, files, oes, k),
    decreases k - j,
{
    if j < k {
        lemma_rebuild_total_monotone(st, files, oes, j, k - 1);
        match spec_sound_file(files, k - 1) {
            Option::Some(f) => {
                lemma_emit_len_nonneg(st, f);
            }
            Option::None => {}
        }
    }
}

/// Rewrite one sound entry and append its bytes to the payload being
/// built: the entry starts where the payload currently ends, and either
/// its file is converted in or its old bytes are copied from `src`.
#[verifier::spinoff_prover]
#[verifier::rlimit(100)]
fn rebuild_one_sound(
    entries: &mut Vec<SoundEntry>,
    i: usize,
    src: &Vec<u8>,
    sound_type: SoundType,
    files: &Vec<Option<Vec<u8>>>,
    out: &mut Vec<u8>,
) -> (r: Result<bool, Error>)
    requires
        i < old(entries)@.len(),
        old(entries)@[i as int].offset + old(entries)@[i as int].size <= src@.len(),
        old(out)@.len() <= u32::MAX,
    ensures
        r matches Ok(nm) ==> ({
            let oe = old(entries)@[i as int];
            let ne = final(entries)@[i as int];
            &&& final(entries)@ == old(entries)@.update(i as int, ne)
            &&& ne.offset == old(out)@.len()
            &&& final(out)@.len() <= u32::MAX
            &&& final(out)@.len() == old(out)@.len() + ne.size
            &&& ne.size == spec_new_sound_size(
                sound_type,
                files@,
                i as int,
                old(entries)@[i as int],
            )
            &&& !(spec_sound_file(files@, i as int) matches Some(f) && spec_sound_emit_fails(
                sound_type,
                f,
            ))
            &&& final(out)@.subrange(0, old(out)@.len() as int) == old(out)@
            &&& spec_rebuilt_sound(
                sound_type,
                files@,
                i as int,
                oe,
                ne,
                final(out)@.skip(old(out)@.len() as int),
                src@,
            )
            &&& nm == (spec_sound_file(files@, i as int) matches Some(f)
                && spec_sound_not_mono(sound_type, f))
        }),
        r is Err ==> ((spec_sound_file(files@, i as int) matches Some(f)
            && spec_sound_emit_fails(sound_type, f)) || old(out)@.len() + spec_new_sound_size(
            sound_type,
            files@,
            i as int,
            old(entries)@[i as int],
        ) > u32::MAX),
{
    let ghost base = out@;
    let new_offset = out.len() as u32;
    let mut replaced = false;
    if i < files.len() {
        replaced = match &files[i] {
            Some(_) => true,
            None => false,
        };
    }
    let nm: bool;
    if replaced {
        match &files[i] {
            Some(f) => {
                let entry = &mut entries[i];
                entry.offset = new_offset;
                nm = match convert_sound(sound_type, f, entry, out) {
                    Ok(x) => x,
                    Err(e) => {
                        return Err(e);
                    }
                };
            }
            None => {
                proof {
                    assert(false);
                }
                nm = false;
            }
        }
    } else {
        let src_total = src.len();
        let entry = &mut entries[i];
        let src_start = entry.offset as usize;
        let src_len = entry.size;
        entry.offset = new_offset;
        proof {
            assert(src_start + src_len <= src_total);
        }
        let piece = vstd::slice::slice_subrange(src.as_slice(), src_start, src_start + src_len);
        out.extend_from_slice(piece);
        nm = false;
        proof {
            assert(out@.subrange(0, base.len() as int) =~= base);
            assert(out@.skip(base.len() as int) =~= src@.subrange(
                src_start as int,
                src_start + src_len,
            ));
        }
    }
    if out.len() > 0xFFFF_FFFFusize {
        return Err(Error::BinaryFormat);
    }
    proof {
        reveal(spec_rebuilt_sound);
        let ne = entries@[i as int];
        assert(entries@ =~= old(entries)@.update(i as int, ne));
    }
    Ok(nm)
}

impl Bank {
    /// Rebuild this bank's payload, replacing the sounds that have files
    /// and copying the rest: every entry's offset is rewritten so that
    /// each sound starts exactly where the previous one ends and the last
    /// one ends at the payload's end.
    #[verifier::spinoff_prover]
    #[verifier::rlimit(100)]
    pub fn rebuild_bank(&mut self, sound_type: SoundType, files: &Vec<Option<Vec<u8>>>) -> (r:
        Result<bool, Error>)
        requires
            old(self).wf(),
        ensures
            r is Ok <==> ((forall|i: int|
                0 <= i < old(self).header.sound_entries@.len() ==> !((
                #[trigger] spec_sound_file(files@, i)) matches Some(f) && spec_sound_emit_fails(
                    sound_type,
                    f,
                ))) && spec_rebuild_total(
                sound_type,
                files@,
                old(self).header.sound_entries@,
                old(self).header.sound_entries@.len() as int,
            ) <= u32::MAX),
            r is Ok ==> final(self).bytes@.len() == spec_rebuild_total(
                sound_type,
                files@,
                old(self).header.sound_entries@,
                old(self).header.sound_entries@.len() as int,
            ),
            r matches Ok(nm) ==> ({
                let oes = old(self).header.sound_entries@;
                let nes = final(self).header.sound_entries@;
                let payload = final(self).bytes@;
                &&& final(self).index == old(self).index
                &&& final(self).header.padding == old(self).header.padding
                &&& nes.len() == oes.len()
                &&& forall|i: int| 0 <= i < nes.len() ==> (#[trigger] nes[i]).offset == (if i
                    == 0 {
                    0int
                } else {
                    nes[i - 1].offset + nes[i - 1].size
                })
                &&& (nes.len() > 0 ==> nes[nes.len() - 1].offset + nes[nes.len() - 1].size
                    == payload.len())
                &&& (nes.len() == 0 ==> payload.len() == 0)
                &&& forall|i: int| 0 <= i < nes.len() ==> spec_rebuilt_sound(
                    sound_type,
                    files@,
                    i,
                    oes[i],
                    (#[trigger] nes[i]),
                    payload.subrange(nes[i].offset as int, nes[i].offset + nes[i].size),
                    old(self).bytes@,
                )
                &&& nm == spec_any_not_mono(sound_type, files@, nes.len() as int)
                &&& final(self).wf()
            }),
    {
        let n = self.header.sound_entries.len();
        let payload_len = self.bytes.len();
        let ghost oes = self.header.sound_entries@;
        let ghost old_payload = self.bytes@;
        let mut new_payload: Vec<u8> = Vec::new();
        let mut not_mono = false;
        proof {
            lemma_any_not_mono_zero(sound_type, files@);
        }
        let mut i: usize = 0;
        while i < n
            invariant
                i <= n,
                n == oes.len(),
                oes == old(self).header.sound_entries@,
                old_payload == old(self).bytes@,
                forall|j: int| 0 <= j < n ==> (#[trigger] oes[j]).offset + oes[j].size
                    <= old_payload.len(),
                self.header.sound_entries@.len() == n,
                self.index == old(self).index,
                self.header.padding == old(self).header.padding,
                self.bytes@ == old_payload,
                payload_len == self.bytes@.len(),
                forall|j: int| i <= j < n ==> self.header.sound_entries@[j] == oes[j],
                forall|j: int| 0 <= j < i ==> (#[trigger] self.header.sound_entries@[j]).offset
                    == (if j == 0 {
                    0int
                } else {
                    self.header.sound_entries@[j - 1].offset + self.header.sound_entries@[j
                        - 1].size
                }),
                i > 0 ==> new_payload@.len() == self.header.sound_entries@[i - 1].offset
                    + self.header.sound_entries@[i - 1].size,
                i == 0 ==> new_payload@.len() == 0,
                new_payload@.len() == spec_rebuild_total(sound_type, files@, oes, i as int),
                forall|j: int| 0 <= j < i ==> !((#[trigger] spec_sound_file(files@, j))
                    matches Some(f) && spec_sound_emit_fails(sound_type, f)),
                new_payload@.len() <= u32::MAX,
                forall|j: int| 0 <= j < i ==> spec_rebuilt_sound(
                    sound_type,
                    files@,
                    j,
                    oes[j],
                    (#[trigger] self.header.sound_entries@[j]),
                    new_payload@.subrange(
                        self.header.sound_entries@[j].offset as int,
                        self.header.sound_entries@[j].offset
                            + self.header.sound_entries@[j].size,
                    ),
                    old_payload,
                ),
                not_mono == spec_any_not_mono(sound_type, files@, i as int),
            decreases n - i,
        {
            let ghost prev_entries = self.header.sound_entries@;
            let ghost prev_payload = new_payload@;
            proof {
                assert(self.header.sound_entries@[i as int] == oes[i as int]);
                assert(oes[i as int].offset + oes[i as int].size <= old_payload.len());
            }
            let nm = match rebuild_one_sound(
                &mut self.header.sound_entries,
                i,
                &self.bytes,
                sound_type,
                files,
                &mut new_payload,
            ) {
                Ok(x) => x,
                Err(e) => {
                    proof {
                        // either this sound's file cannot convert, or the
                        // rebuilt payload cannot fit the on-disk offsets
                        if !(spec_sound_file(files@, i as int) matches Some(f)
                            && spec_sound_emit_fails(sound_type, f)) {
                            lemma_rebuild_total_monotone(
                                sound_type,
                                files@,
                                oes,
                                i + 1,
                                oes.len() as int,
                            );
                            assert(spec_rebuild_total(sound_type, files@, oes, oes.len() as int)
                                > u32::MAX);
                        }
                    }
                    return Err(e);
                }
            };
            not_mono = not_mono || nm;
            proof {
                lemma_any_not_mono_step(sound_type, files@, i as int);
                let cur = self.header.sound_entries@;
                assert(cur[i as int].offset == prev_payload.len());
                lemma_prefix_subranges(prev_payload, new_payload@);
                assert(forall|j: int| 0 <= j < i ==> (#[trigger] cur[j]) == prev_entries[j]);
                lemma_offset_chain_bound(cur, i as int, prev_payload.len() as int);
            }
            i = i + 1;
        }
        proof {
            lemma_offset_chain_bound(
                self.header.sound_entries@,
                n as int,
                new_payload@.len() as int,
            );
        }
        self.bytes = new_payload;
        Ok(not_mono)
    }
}

impl SfxArchive {
    /// Import sound files back into the archive's banks: each bank with
    /// a per-sound file list is rebuilt sound by sound (see
    /// `Bank::rebuild_bank`), the rest are copied, and every lookup entry
    /// is rewritten so that the banks sit back to back from offset zero
    /// in the new archive. Reports whether any imported WAV was not mono.
    #[verifier::spinoff_prover]
    #[verifier::rlimit(100)]
    pub fn import_sounds(
        self,
        sound_type: SoundType,
        replacements: &Vec<Option<Vec<Option<Vec<u8>>>>>,
        lookuptbl: &mut LookUpTable,
    ) -> (r: Result<(Vec<u8>, bool), Error>)
        requires
            forall|k: int| 0 <= k < self.banks.refs@.len()
                ==> (#[trigger] self.banks.refs@[k]).dense_index < replacements@.len(),
            forall|i: int, j: int| 0 <= i < j < self.banks.refs@.len()
                ==> (#[trigger] self.banks.refs@[i]).table_index
                != (#[trigger] self.banks.refs@[j]).table_index,
        ensures
            r matches Ok(p) ==> ({
                let data = self.banks.data@;
                let refs = self.banks.refs@;
                let repl = replacements@;
                let n = refs.len() as int;
                let es = final(lookuptbl).spec_entries();
                let old_es = old(lookuptbl).spec_entries();
                &&& es.len() == old_es.len()
                &&& forall|k: int| 0 <= k < n ==> (#[trigger] refs[k]).table_index < es.len()
                &&& forall|k: int| 0 <= k < n ==> (#[trigger] es[refs[k].table_index as int]).index
                    == old_es[refs[k].table_index as int].index
                    && es[refs[k].table_index as int].padding
                    == old_es[refs[k].table_index as int].padding
                &&& (n > 0 ==> es[refs[0].table_index as int].offset == 0)
                &&& forall|k: int| 0 <= k < n - 1 ==> (#[trigger] es[refs[k].table_index as int]).offset
                    + es[refs[k].table_index as int].length + BANK_HEADER_SIZE
                    == es[refs[k + 1].table_index as int].offset
                &&& (n > 0 ==> p.0@.len() == es[refs[n - 1].table_index as int].offset
                    + es[refs[n - 1].table_index as int].length + BANK_HEADER_SIZE)
                &&& (n == 0 ==> p.0@.len() == 0)
                &&& p.0@.len() == spec_sound_import_total(data, refs, repl, sound_type, n)
                &&& forall|k: int| 0 <= k < n ==> (#[trigger] es[refs[k].table_index as int]).length
                    == spec_sound_bank_payload_len(data, refs, repl, sound_type, k)
                &&& forall|k: int| 0 <= k < n ==> spec_sound_bank_segment(
                    data,
                    refs,
                    repl,
                    sound_type,
                    k,
                    p.0@.subrange(
                        (#[trigger] es[refs[k].table_index as int]).offset as int,
                        es[refs[k].table_index as int].offset + BANK_HEADER_SIZE
                            + es[refs[k].table_index as int].length,
                    ),
                )
                &&& p.1 == spec_import_any_not_mono(data, refs, repl, sound_type, n)
                &&& forall|t: int| 0 <= t < old_es.len() && (forall|k: int| 0 <= k < n ==> (
                #[trigger] refs[k]).table_index != t) ==> es[t] == old_es[t]
            }),
            (spec_sound_import_ok(self.banks.data@, self.banks.refs@, replacements@, sound_type)
                && (forall|k: int| 0 <= k < self.banks.refs@.len() ==> (
            #[trigger] self.banks.refs@[k]).table_index < old(lookuptbl).spec_entries().len()))
                ==> r is Ok,
    {
        let ghost data = self.banks.data@;
        let ghost refs = self.banks.refs@;
        let ghost repl = replacements@;
        let ghost old_es = lookuptbl.spec_entries();
        let ghost import_ok = spec_sound_import_ok(data, refs, repl, sound_type) && (forall|
            k: int,
        | 0 <= k < refs.len() ==> (#[trigger] refs[k]).table_index < old_es.len());
        let n = self.banks.refs.len();
        let mut out: Vec<u8> = Vec::new();
        let mut not_mono = false;
        proof {
            lemma_import_any_not_mono_zero(data, refs, repl, sound_type);
        }
        let mut k: usize = 0;
        while k < n
            invariant
                k <= n,
                n == refs.len(),
                refs == self.banks.refs@,
                data == self.banks.data@,
                repl == replacements@,
                old_es == old(lookuptbl).spec_entries(),
                import_ok == (spec_sound_import_ok(data, refs, repl, sound_type) && (forall|
                    kq: int,
                | 0 <= kq < refs.len() ==> (#[trigger] refs[kq]).table_index < old_es.len())),
                forall|kk: int| 0 <= kk < refs.len()
                    ==> (#[trigger] refs[kk]).dense_index < repl.len(),
                forall|i: int, j: int| 0 <= i < j < refs.len()
                    ==> (#[trigger] refs[i]).table_index != (#[trigger] refs[j]).table_index,
                lookuptbl.spec_entries().len() == old_es.len(),
                forall|kk: int| 0 <= kk < k ==> (#[trigger] refs[kk]).table_index
                    < old_es.len(),
                forall|kk: int| 0 <= kk < k ==> (#[trigger] lookuptbl.spec_entries()[refs[kk].table_index as int]).index
                    == old_es[refs[kk].table_index as int].index
                    && lookuptbl.spec_entries()[refs[kk].table_index as int].padding
                    == old_es[refs[kk].table_index as int].padding,
                k > 0 ==> lookuptbl.spec_entries()[refs[0].table_index as int].offset == 0,
                forall|kk: int| 0 <= kk < k - 1 ==> (
                #[trigger] lookuptbl.spec_entries()[refs[kk].table_index as int]).offset
                    + lookuptbl.spec_entries()[refs[kk].table_index as int].length
                    + BANK_HEADER_SIZE
                    == lookuptbl.spec_entries()[refs[kk + 1].table_index as int].offset,
                k > 0 ==> out@.len() == lookuptbl.spec_entries()[refs[k - 1].table_index as int].offset
                    + lookuptbl.spec_entries()[refs[k - 1].table_index as int].length
                    + BANK_HEADER_SIZE,
                k == 0 ==> out@.len() == 0,
                out@.len() == spec_sound_import_total(data, refs, repl, sound_type, k as int),
                out@.len() <= u32::MAX,
                not_mono == spec_import_any_not_mono(data, refs, repl, sound_type, k as int),
                forall|kk: int| 0 <= kk < k ==> (
                #[trigger] lookuptbl.spec_entries()[refs[kk].table_index as int]).length
                    == spec_sound_bank_payload_len(data, refs, repl, sound_type, kk),
                forall|kk: int| 0 <= kk < k ==> (
                #[trigger] lookuptbl.spec_entries()[refs[kk].table_index as int]).offset
                    + BANK_HEADER_SIZE
                    + lookuptbl.spec_entries()[refs[kk].table_index as int].length
                    <= out@.len(),
                forall|kk: int| 0 <= kk < k ==> spec_sound_bank_segment(
                    data,
                    refs,
                    repl,
                    sound_type,
                    kk,
                    out@.subrange(
                        (#[trigger] lookuptbl.spec_entries()[refs[kk].table_index as int]).offset
                            as int,
                        lookuptbl.spec_entries()[refs[kk].table_index as int].offset
                            + BANK_HEADER_SIZE
                            + lookuptbl.spec_entries()[refs[kk].table_index as int].length,
                    ),
                ),
                forall|t: int| 0 <= t < old_es.len() && (forall|kk: int| 0 <= kk < k ==> (
                #[trigger] refs[kk]).table_index != t) ==> lookuptbl.spec_entries()[t]
                    == old_es[t],
            decreases n - k,
        {
            let pair = match Self::sound_import_segment(&self.banks, k, sound_type, replacements) {
                Ok(p) => p,
                Err(e) => {
                    proof {
                        if import_ok {
                            assert(spec_bank_read_ok(data, refs, k as int));
                            assert(spec_bank_convert_ok(data, refs, repl, sound_type, k as int));
                            assert(false);
                        }
                    }
                    return Err(e);
                }
            };
            let seg = pair.0;
            proof {
                lemma_import_any_not_mono_step(data, refs, repl, sound_type, k as int);
                // the new payload length is never negative
                match spec_bank_files(refs, repl, k as int) {
                    Option::Some(files) => {
                        lemma_rebuild_total_monotone(
                            sound_type,
                            files@,
                            spec_bank_oes(data, refs, k as int),
                            0,
                            spec_bank_oes(data, refs, k as int).len() as int,
                        );
                    }
                    Option::None => {}
                }
            }
            not_mono = not_mono || pair.1;
            if seg.len() - BANK_HEADER_SIZE > 0xFFFF_FFFFusize {
                proof {
                    if import_ok {
                        assert(spec_bank_convert_ok(data, refs, repl, sound_type, k as int));
                        assert(false);
                    }
                }
                return Err(Error::BinaryFormat);
            }
            if seg.len() > 0xFFFF_FFFFusize - out.len() {
                proof {
                    if import_ok {
                        lemma_sound_import_total_monotone(
                            data,
                            refs,
                            repl,
                            sound_type,
                            k + 1,
                            refs.len() as int,
                        );
                        assert(false);
                    }
                }
                return Err(Error::BinaryFormat);
            }
            let new_offset = out.len() as u32;
            let new_length = (seg.len() - BANK_HEADER_SIZE) as u32;
            let table_index = self.banks.refs[k].table_index;
            let ghost prev_out = out@;
            match lookuptbl.get_mut(table_index) {
                Some(e) => {
                    e.offset = new_offset;
                    e.length = new_length;
                }
                None => {
                    proof {
                        if import_ok {
                            assert(refs[k as int].table_index < old_es.len());
                            assert(false);
                        }
                    }
                    return Err(Error::NoIndexInLookup);
                }
            }
            out.extend_from_slice(seg.as_slice());
            proof {
                assert(out@.subrange(0, prev_out.len() as int) =~= prev_out);
                lemma_prefix_subranges(prev_out, out@);
                assert(out@.subrange(
                    prev_out.len() as int,
                    prev_out.len() as int + seg@.len() as int,
                ) =~= seg@);
            }
            k = k + 1;
        }
        Ok((out, not_mono))
    }

    /// Produce the bytes of one bank for a sound import — rebuilt when a
    /// per-sound file list exists for it, copied otherwise — along with
    /// whether any of its imported files was not mono.
    #[verifier::spinoff_prover]
    #[verifier::rlimit(100)]
    fn sound_import_segment(
        banks: &Banks,
        k: usize,
        sound_type: SoundType,
        replacements: &Vec<Option<Vec<Option<Vec<u8>>>>>,
    ) -> (r: Result<(Vec<u8>, bool), Error>)
        requires
            k < banks.refs@.len(),
            banks.refs@[k as int].dense_index < replacements@.len(),
        ensures
            r matches Ok(p) ==> ({
                &&& p.0@.len() == BANK_HEADER_SIZE + spec_sound_bank_payload_len(
                    banks.data@,
                    banks.refs@,
                    replacements@,
                    sound_type,
                    k as int,
                )
                &&& spec_sound_bank_segment(
                    banks.data@,
                    banks.refs@,
                    replacements@,
                    sound_type,
                    k as int,
                    p.0@,
                )
                &&& p.1 == spec_bank_not_mono(
                    banks.data@,
                    banks.refs@,
                    replacements@,
                    sound_type,
                    k as int,
                )
            }),
            r is Err ==> !(spec_bank_read_ok(banks.data@, banks.refs@, k as int)
                && spec_bank_convert_ok(
                banks.data@,
                banks.refs@,
                replacements@,
                sound_type,
                k as int,
            )),
    {
        let ghost data = banks.data@;
        let ghost refs = banks.refs@;
        let ghost repl = replacements@;
        let ghost start = spec_bank_start(refs, k as int);
        let mut bank = match banks.read_bank(k) {
            Ok(b) => b,
            Err(e) => {
                return Err(e);
            }
        };
        let ghost oes = bank.header.sound_entries@;
        proof {
            assert(oes == spec_bank_oes(data, refs, k as int));
        }
        let nm: bool;
        match &replacements[bank.index] {
            Some(files) => {
                nm = match bank.rebuild_bank(sound_type, files) {
                    Ok(x) => x,
                    Err(e) => {
                        proof {
                            assert(!spec_bank_convert_ok(data, refs, repl, sound_type, k as int));
                        }
                        return Err(e);
                    }
                };
            }
            None => {
                nm = false;
            }
        }
        let seg = bank.to_writer();
        proof {
            reveal(spec_sound_bank_segment);
            match spec_bank_files(refs, repl, k as int) {
                Option::Some(files) => {
                    let nes = bank.header.sound_entries@;
                    let payload = bank.bytes@;
                    assert(seg@ =~= spec_u16_le(nes.len() as u16) + spec_u16_le(
                        spec_u16_of_le(data.subrange(start + 2, start + 4)),
                    ) + crate::bank::spec_entries_bytes(nes) + Seq::new(
                        ((MAX_SOUND_ENTRIES - nes.len()) * SOUND_ENTRY_SIZE) as nat,
                        |q: int| 0u8,
                    ) + payload);
                    assert(spec_sound_bank_segment(data, refs, repl, sound_type, k as int, seg@));
                }
                Option::None => {
                    assert(seg@ =~= spec_reser_header(data, start) + data.subrange(
                        start + BANK_HEADER_SIZE,
                        start + BANK_HEADER_SIZE + refs[k as int].entry.length,
                    ));
                }
            }
        }
        Ok((seg, nm))
    }
}

} // verus!

