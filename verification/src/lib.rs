//! Verified engine for the audio archives of a well-known open-world game:
//! binary codecs for the lookup table, bank-slot table, pak-name lists and
//! PS2 VAG audio, plus the bank import/export pipeline that keeps the
//! archive and its lookup metadata consistent.

pub mod bank;
pub mod bankslot;
pub mod error;
pub mod lookup;
pub mod paknames;
pub mod pc;
pub mod ps2;
pub mod raw;
pub mod sfx;
pub mod sound;
pub mod vag;
pub mod vagcodec;
pub mod wav;
pub mod wire;
