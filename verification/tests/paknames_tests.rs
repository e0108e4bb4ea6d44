//! Tests for pak-name lists: built-ins, canonicalization, and the
//! null-padded file format.

use saamt::paknames::PakNames;

#[test]
fn sfx_builtin() {
    let pak_names = PakNames::sfx();

    assert_eq!(Some(0), pak_names.get_pak_idx_from_name("FEET"));
    assert_eq!(Some(0), pak_names.get_pak_idx_from_name("feet"));
    assert_eq!(Some(8), pak_names.get_pak_idx_from_name("SPc_Pa"));
    assert_eq!(None, pak_names.get_pak_idx_from_name("Something"));
    assert_eq!(None, pak_names.get_pak_idx_from_name(""));
}

#[test]
fn stream_builtin() {
    let pak_names = PakNames::stream();

    assert_eq!(Some(0), pak_names.get_pak_idx_from_name("AA"));
    assert_eq!(Some(0), pak_names.get_pak_idx_from_name("aa"));
    assert_eq!(Some(16), pak_names.get_pak_idx_from_name("TK"));
    assert_eq!(None, pak_names.get_pak_idx_from_name("Something"));
    assert_eq!(None, pak_names.get_pak_idx_from_name(""));
}

#[test]
fn sfx_from_reader() {
    let bytes = PakNames::sfx().write_sfx();
    let pak_names = PakNames::sfx_from_reader(&bytes);
    assert!(pak_names.map(|v| v == PakNames::sfx()).unwrap_or(false));
}

#[test]
fn stream_from_reader() {
    let bytes = PakNames::stream().write_stream();
    let pak_names = PakNames::stream_from_reader(&bytes);
    assert!(pak_names.map(|v| v == PakNames::stream()).unwrap_or(false));
}

#[test]
fn sfx_file_records_are_52_bytes() {
    let bytes = PakNames::sfx().write_sfx();
    assert_eq!(bytes.len(), 9 * 52);
    assert_eq!(&bytes[0..4], b"FEET");
    assert_eq!(bytes[4], 0);
    assert_eq!(&bytes[52..57], b"GENRL");
}

#[test]
fn from_reader_dispatches_on_file_name() {
    let sfx_bytes = PakNames::sfx().write_sfx();
    assert!(PakNames::from_reader("PakFiles", &sfx_bytes).is_ok());
    assert!(PakNames::from_reader("pakfiles2", &sfx_bytes).is_ok());
    let stream_bytes = PakNames::stream().write_stream();
    assert!(PakNames::from_reader("StrmPaks", &stream_bytes).is_ok());
    assert!(PakNames::from_reader("Other", &sfx_bytes).is_err());
}

#[test]
fn canonicalization_cases() {
    let names = PakNames::sfx();
    let feet = names.get_pak_idx_from_name("FEET");
    assert_eq!(feet, Some(0));
    assert_eq!(names.get_pak_idx_from_name("feet"), feet);
    assert_eq!(names.get_pak_idx_from_name("FEET01"), feet);
    assert_eq!(names.get_pak_idx_from_name("feet2"), feet);
    assert_eq!(names.get_pak_idx_from_name(""), None);
    assert_eq!(names.get_pak_idx_from_name("Unknown"), None);
}

#[test]
fn try_get_defaults_picks_the_right_set() {
    assert_eq!(PakNames::try_get_defaults("FEET"), Some(PakNames::sfx()));
    assert_eq!(PakNames::try_get_defaults("genrl1"), Some(PakNames::sfx()));
    assert_eq!(PakNames::try_get_defaults("TK"), Some(PakNames::stream()));
    assert_eq!(PakNames::try_get_defaults("nothing"), None);
}
