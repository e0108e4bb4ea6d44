//! Tests for the archive engine: loading, exporting and re-importing.

use saamt::bank::BANK_HEADER_SIZE;
use saamt::lookup::LookUpTable;
use saamt::sfx::SfxManager;
use saamt::sound::SoundType;

/// A bank: a 4,804-byte header with the given `(offset, rate)` entries,
/// followed by the payload.
fn make_bank(entries: &[(u32, u16)], payload: &[u8]) -> Vec<u8> {
    let mut out = Vec::new();
    out.extend_from_slice(&(entries.len() as u16).to_le_bytes());
    out.extend_from_slice(&0u16.to_le_bytes());
    for (offset, rate) in entries {
        out.extend_from_slice(&offset.to_le_bytes());
        out.extend_from_slice(&0xFFFFFFFFu32.to_le_bytes());
        out.extend_from_slice(&rate.to_le_bytes());
        out.extend_from_slice(&0u16.to_le_bytes());
    }
    out.resize(BANK_HEADER_SIZE, 0);
    out.extend_from_slice(payload);
    out
}

/// An archive of banks plus the matching FEET lookup bytes.
fn make_archive(banks: &[Vec<u8>]) -> (Vec<u8>, Vec<u8>) {
    let mut archive = Vec::new();
    let mut lookup = Vec::new();
    let mut offset = 0u32;
    for bank in banks {
        let payload_len = (bank.len() - BANK_HEADER_SIZE) as u32;
        lookup.extend_from_slice(&[0, 0, 0, 0]);
        lookup.extend_from_slice(&offset.to_le_bytes());
        lookup.extend_from_slice(&payload_len.to_le_bytes());
        archive.extend_from_slice(bank);
        offset += payload_len + BANK_HEADER_SIZE as u32;
    }
    (archive, lookup)
}

fn seven_banks() -> Vec<Vec<u8>> {
    (0..7u8)
        .map(|k| {
            let payload: Vec<u8> = (0..32).map(|b| b as u8 ^ k).collect();
            make_bank(&[(0, 22050), (16, 11025)], &payload)
        })
        .collect()
}

#[test]
fn pc() {
    let (archive, lookup) = make_archive(&seven_banks());
    let sfx_manager = SfxManager::new(&lookup, None).expect("failed to open archive");
    let (archive, warned) = sfx_manager
        .load("FEET", archive)
        .expect("failed to load archive");
    assert!(!warned);
    assert_eq!(archive.banks.len(), 7);
    for k in 0..archive.banks.len() {
        archive.banks.read_bank(k).expect("Can't read the bank");
    }
}

#[test]
fn ps2() {
    let (archive, lookup) = make_archive(&seven_banks());
    let sfx_manager = SfxManager::new(&lookup, None).expect("failed to open archive");
    // the PS2 archive is named FEET01.pak; its base name canonicalizes to FEET
    let (archive, warned) = sfx_manager
        .load("FEET01", archive)
        .expect("failed to load archive");
    assert!(!warned);
    assert_eq!(archive.banks.len(), 7);
    for k in 0..archive.banks.len() {
        archive.banks.read_bank(k).expect("Can't read the bank");
    }
}

#[test]
fn unsorted_lookup_warns_exactly_when_not_contiguous() {
    let banks = seven_banks();
    let (archive, lookup) = make_archive(&banks);
    // swap two lookup records: same entries, no longer in offset order
    let mut shuffled = lookup.clone();
    for i in 0..12 {
        shuffled.swap(i, 12 + i);
    }
    let mgr = SfxManager::new(&shuffled, None).unwrap();
    let (_, warned) = mgr.load("FEET", archive.clone()).unwrap();
    assert!(warned);
    let mgr2 = SfxManager::new(&lookup, None).unwrap();
    let (_, warned2) = mgr2.load("FEET", archive).unwrap();
    assert!(!warned2);
}

#[test]
fn bank_import_with_no_files_is_identity() {
    let (archive_bytes, lookup) = make_archive(&seven_banks());
    let mut mgr = SfxManager::new(&lookup, None).unwrap();
    let (archive, _) = mgr.load("FEET", archive_bytes.clone()).unwrap();
    let n = archive.banks.len();
    let replacements: Vec<Option<Vec<u8>>> = vec![None; n];
    let out = archive
        .import_banks(&replacements, &mut mgr.lookup_table)
        .unwrap();
    assert_eq!(out, archive_bytes);
    assert_eq!(mgr.update_lookup(), lookup);
}

#[test]
fn bank_import_offsets_are_back_to_back() {
    let (archive_bytes, lookup) = make_archive(&seven_banks());
    let mut mgr = SfxManager::new(&lookup, None).unwrap();
    let (archive, _) = mgr.load("FEET", archive_bytes).unwrap();
    let n = archive.banks.len();
    // replace bank 2 with a longer bank
    let big = make_bank(&[(0, 8000)], &[7u8; 300]);
    let mut replacements: Vec<Option<Vec<u8>>> = vec![None; n];
    replacements[2] = Some(big);
    let out = archive
        .import_banks(&replacements, &mut mgr.lookup_table)
        .unwrap();
    let entries = mgr.lookup_table.entries();
    for k in 0..6 {
        let here = &entries[k];
        let next = &entries[k + 1];
        assert_eq!(
            here.offset + here.length + BANK_HEADER_SIZE as u32,
            next.offset
        );
    }
    let last = &entries[6];
    assert_eq!(
        (last.offset + last.length) as usize + BANK_HEADER_SIZE,
        out.len()
    );
}

#[test]
fn exported_bank_reimports_byte_identically() {
    let (archive_bytes, lookup) = make_archive(&seven_banks());
    let mgr = SfxManager::new(&lookup, None).unwrap();
    let (archive, _) = mgr.load("FEET", archive_bytes.clone()).unwrap();
    let n = archive.banks.len();
    // export every bank as its .bnk bytes
    let mut exported: Vec<Option<Vec<u8>>> = Vec::new();
    for k in 0..n {
        let bank = archive.banks.read_bank(k).unwrap();
        exported.push(Some(bank.to_writer()));
    }
    // re-import them into a fresh archive
    let mut mgr2 = SfxManager::new(&lookup, None).unwrap();
    let (archive2, _) = mgr2.load("FEET", archive_bytes.clone()).unwrap();
    let out = archive2
        .import_banks(&exported, &mut mgr2.lookup_table)
        .unwrap();
    assert_eq!(out, archive_bytes);
    assert_eq!(mgr2.update_lookup(), lookup);
}

#[test]
fn raw_sounds_follow_the_entry_table() {
    let payload: Vec<u8> = (0..32u8).collect();
    let bank_bytes = make_bank(&[(0, 22050), (16, 11025)], &payload);
    let (archive_bytes, lookup) = make_archive(&[bank_bytes]);
    let mgr = SfxManager::new(&lookup, None).unwrap();
    let (archive, _) = mgr.load("FEET", archive_bytes).unwrap();
    let bank = archive.banks.read_bank(0).unwrap();
    let sounds = bank.raw_sounds();
    assert_eq!(sounds.len(), 2);
    assert_eq!(sounds[0].bytes, (0..16u8).collect::<Vec<u8>>());
    assert_eq!(sounds[0].sample_rate, 22050);
    assert_eq!(sounds[1].bytes, (16..32u8).collect::<Vec<u8>>());
    assert_eq!(sounds[1].index, 1);
}

#[test]
fn rebuilt_bank_chains_sound_offsets() {
    let payload: Vec<u8> = (0..32u8).collect();
    let bank_bytes = make_bank(&[(0, 22050), (16, 11025)], &payload);
    let (archive_bytes, lookup) = make_archive(&[bank_bytes]);
    let mgr = SfxManager::new(&lookup, None).unwrap();
    let (archive, _) = mgr.load("FEET", archive_bytes).unwrap();
    let mut bank = archive.banks.read_bank(0).unwrap();
    // replace sound 0 with 10 raw bytes; keep sound 1
    let files: Vec<Option<Vec<u8>>> = vec![Some(vec![9u8; 10]), None];
    let not_mono = bank.rebuild_bank(SoundType::Raw, &files).unwrap();
    assert!(!not_mono);
    let es = &bank.header.sound_entries;
    assert_eq!(es[0].offset, 0);
    assert_eq!(es[0].size, 10);
    assert_eq!(es[1].offset, 10);
    assert_eq!(es[1].size, 16);
    assert_eq!(es[1].offset as usize + es[1].size, bank.bytes.len());
    assert_eq!(&bank.bytes[0..10], &[9u8; 10]);
    assert_eq!(&bank.bytes[10..26], &(16..32u8).collect::<Vec<u8>>()[..]);
}

#[test]
fn sound_import_rewrites_lookup_back_to_back() {
    let (archive_bytes, lookup) = make_archive(&seven_banks());
    let mut mgr = SfxManager::new(&lookup, None).unwrap();
    let (archive, _) = mgr.load("FEET", archive_bytes).unwrap();
    let n = archive.banks.len();
    // grow one sound of bank 3
    let mut replacements: Vec<Option<Vec<Option<Vec<u8>>>>> = vec![None; n];
    replacements[3] = Some(vec![Some(vec![5u8; 100]), None]);
    let (out, not_mono) = archive
        .import_sounds(SoundType::Raw, &replacements, &mut mgr.lookup_table)
        .unwrap();
    assert!(!not_mono);
    let entries = mgr.lookup_table.entries();
    assert_eq!(entries[0].offset, 0);
    for k in 0..6 {
        assert_eq!(
            entries[k].offset + entries[k].length + BANK_HEADER_SIZE as u32,
            entries[k + 1].offset
        );
    }
    assert_eq!(entries[3].length, 100 + 16);
    let last = &entries[6];
    assert_eq!(
        (last.offset + last.length) as usize + BANK_HEADER_SIZE,
        out.len()
    );
    // an untouched bank is written back byte for byte
    let banks = seven_banks();
    let b0 = &out[entries[0].offset as usize
        ..entries[0].offset as usize + BANK_HEADER_SIZE + entries[0].length as usize];
    assert_eq!(b0, &banks[0][..]);
    // the rebuilt bank's header chains its two sounds
    let start3 = entries[3].offset as usize;
    assert_eq!(&out[start3..start3 + 2], &2u16.to_le_bytes());
    let e0_off = u32::from_le_bytes(out[start3 + 4..start3 + 8].try_into().unwrap());
    let e1_off = u32::from_le_bytes(out[start3 + 16..start3 + 20].try_into().unwrap());
    assert_eq!(e0_off, 0);
    assert_eq!(e1_off, 100); // the replaced first sound now holds 100 bytes
    // the replaced bytes and the copied sound follow the header
    let payload3 = &out[start3 + BANK_HEADER_SIZE..start3 + BANK_HEADER_SIZE + 116];
    assert_eq!(&payload3[0..100], &[5u8; 100]);
}

#[test]
fn missing_archive_name_is_rejected() {
    let (_, lookup) = make_archive(&seven_banks());
    let mgr = SfxManager::new(&lookup, None).unwrap();
    assert!(mgr.get_sorted_lookup_table("NOPE").is_err());
    assert!(LookUpTable::from_reader(&lookup).is_ok());
}
