//! Tests for the lookup-table and bank-slot codecs.

use saamt::bankslot::BankSlot;
use saamt::lookup::LookUpTable;
use saamt::paknames::PakNames;

/// One 12-byte little-endian lookup record.
fn lookup_entry_bytes(index: u8, offset: u32, length: u32) -> Vec<u8> {
    let mut out = vec![index, 0, 0, 0];
    out.extend_from_slice(&offset.to_le_bytes());
    out.extend_from_slice(&length.to_le_bytes());
    out
}

/// A small lookup file: seven FEET (index 0) banks back to back, plus two
/// entries of another pak.
fn sample_lookup_bytes() -> Vec<u8> {
    let mut out = Vec::new();
    let mut offset = 0u32;
    let lengths = [100u32, 40, 64, 16, 200, 52, 88];
    for len in lengths {
        out.extend_from_slice(&lookup_entry_bytes(0, offset, len));
        offset += len + 4804;
    }
    out.extend_from_slice(&lookup_entry_bytes(1, 0, 32));
    out.extend_from_slice(&lookup_entry_bytes(1, 4836, 16));
    out
}

/// One 4,820-byte bank-slot record.
fn slot_bytes(offset: u32, size: u32) -> Vec<u8> {
    let mut out = Vec::new();
    out.extend_from_slice(&offset.to_le_bytes());
    out.extend_from_slice(&size.to_le_bytes());
    for unk in [0xFFFFFFFFu32, 0xFFFFFFFF, 7] {
        out.extend_from_slice(&unk.to_le_bytes());
    }
    for t in 0..400u32 {
        for part in 0..3u32 {
            out.extend_from_slice(&(t * 3 + part).to_le_bytes());
        }
    }
    out
}

fn sample_bankslot_bytes() -> Vec<u8> {
    let mut out = vec![3, 0];
    out.extend_from_slice(&slot_bytes(0, 1000));
    out.extend_from_slice(&slot_bytes(1000, 500));
    out.extend_from_slice(&slot_bytes(1500, 24));
    out
}

#[test]
fn load_bankslot() {
    let bytes = sample_bankslot_bytes();
    let bs = BankSlot::from_reader(&bytes);
    assert!(bs.is_ok());
}

#[test]
fn from_reader_sfx_banks() {
    let bytes = sample_lookup_bytes();
    let lookup_tbl = LookUpTable::from_reader(&bytes);
    let pak_name = PakNames::sfx().get_pak_idx_from_name("FEET").unwrap();
    assert!(lookup_tbl
        .map(|tbl| tbl.count_entries_matching_pak_idx(pak_name) != 0)
        .unwrap_or(false));
}

#[test]
fn from_reader_stream_tracks() {
    // a stream lookup: three entries for pak 0 ("AA")
    let mut bytes = Vec::new();
    bytes.extend_from_slice(&lookup_entry_bytes(0, 0, 10));
    bytes.extend_from_slice(&lookup_entry_bytes(0, 4814, 20));
    bytes.extend_from_slice(&lookup_entry_bytes(2, 0, 30));
    let lookup_tbl = LookUpTable::from_reader(&bytes);
    let pak_name = PakNames::stream().get_pak_idx_from_name("AA").unwrap();
    assert!(lookup_tbl
        .map(|tbl| tbl.count_entries_matching_pak_idx(pak_name) != 0)
        .unwrap_or(false));
}

#[test]
fn lookup_round_trip_is_byte_exact() {
    let bytes = sample_lookup_bytes();
    let tbl = LookUpTable::from_reader(&bytes).unwrap();
    assert_eq!(tbl.to_writer(), bytes);
}

#[test]
fn lookup_rejects_partial_records() {
    let mut bytes = sample_lookup_bytes();
    bytes.push(0);
    assert!(LookUpTable::from_reader(&bytes).is_err());
}

#[test]
fn bankslot_round_trip_is_byte_exact() {
    let bytes = sample_bankslot_bytes();
    let bs = BankSlot::from_reader(&bytes).unwrap();
    assert_eq!(bs.to_writer(), bytes);
}

#[test]
fn bankslot_rejects_truncated_slots() {
    let mut bytes = sample_bankslot_bytes();
    bytes.truncate(bytes.len() - 1);
    assert!(BankSlot::from_reader(&bytes).is_err());
}

#[test]
fn bankslot_update_buf_sizes_chains_offsets() {
    let bytes = sample_bankslot_bytes();
    let mut bs = BankSlot::from_reader(&bytes).unwrap();
    assert_eq!(bs.export_buf_sizes(), vec![1000, 500, 24]);
    bs.update_buf_sizes(&vec![10, 20, 30]);
    assert_eq!(bs.export_buf_sizes(), vec![10, 20, 30]);
    assert_eq!(bs.slots[0].offset, 0);
    assert_eq!(bs.slots[1].offset, 10);
    assert_eq!(bs.slots[2].offset, 30);
    // the tail stays verbatim
    let rewritten = bs.to_writer();
    assert_eq!(&rewritten[20..20 + 4800], &bytes[20..20 + 4800]);
}

#[test]
fn counting_feet_entries_is_positive() {
    let bytes = sample_lookup_bytes();
    let tbl = LookUpTable::from_reader(&bytes).unwrap();
    let names = PakNames::sfx();
    let idx = names.get_pak_idx_from_name("FEET").unwrap();
    assert!(tbl.count_entries_matching_pak_idx(idx) > 0);
    assert_eq!(tbl.count_entries_matching_pak_idx(idx), 7);
}
