//! Raw sounds extracted from a bank, and the sound formats the toolkit
//! can export to and import from.

use vstd::prelude::*;

use crate::bank::Bank;

verus! {

/// The sound formats supported by the export and import pipeline.
///
/// `Raw` is the game's own byte format; `PcWav` the PC build's 16-bit PCM
/// WAV form; `Ps2Vag` the PS2 build's VAG container; `Ps2Wav` a WAV
/// obtained by decoding (or produced by encoding) PS2 VAG audio.
#[derive(Debug, Clone, Copy, PartialEq, Eq)]
pub enum SoundType {
    Raw,
    PcWav,
    Ps2Vag,
    Ps2Wav,
}

impl SoundType {
    /// The file extension used for sounds of this type.
    pub fn extension(&self) -> (r: &'static str)
        ensures
            r@ == match self {
                SoundType::Raw => "raw"@,
                SoundType::PcWav => "wav"@,
                SoundType::Ps2Vag => "vag"@,
                SoundType::Ps2Wav => "wav"@,
            },
    {
        match self {
            SoundType::Raw => "raw",
            SoundType::PcWav => "wav",
            SoundType::Ps2Vag => "vag",
            SoundType::Ps2Wav => "wav",
        }
    }
}

/// One raw sound cut out of a bank payload.
#[derive(Debug, Clone, PartialEq, Eq)]
pub struct RawSound {
    /// Position of the sound within its bank's entry table.
    pub index: usize,
    /// Sample rate in Hz, from the sound's entry.
    pub sample_rate: u16,
    /// The sound's bytes, copied out of the payload.
    pub bytes: Vec<u8>,
}

impl RawSound {
    /// The sound's bytes verbatim, as written for the `Raw` sound type.
    pub fn to_writer(&self) -> (out: Vec<u8>)
        ensures
            out@ == self.bytes@,
    {
        let mut out: Vec<u8> = Vec::new();
        out.extend_from_slice(self.bytes.as_slice());
        proof {
            assert(out@ =~= self.bytes@);
        }
        out
    }
}

impl Bank {
    /// All raw sounds of this bank, in entry-table order: the bytes of
    /// sound `i` are the payload slice its entry addresses.
    pub fn raw_sounds(&self) -> (r: Vec<RawSound>)
        requires
            self.wf(),
        ensures
            r@.len() == self.header.sound_entries@.len(),
            forall|i: int| 0 <= i < r@.len() ==> {
                &&& (#[trigger] r@[i]).index == i
                &&& r@[i].sample_rate == self.header.sound_entries@[i].sample_rate
                &&& r@[i].bytes@ == self.bytes@.subrange(
                    self.header.sound_entries@[i].offset as int,
                    self.header.sound_entries@[i].offset
                        + self.header.sound_entries@[i].size,
                )
            },
    {
        let n = self.header.sound_entries.len();
        let payload_len = self.bytes.len();
        let mut r: Vec<RawSound> = Vec::new();
        let mut i: usize = 0;
        while i < n
            invariant
                i <= n,
                n == self.header.sound_entries@.len(),
                payload_len == self.bytes@.len(),
                self.wf(),
                r@.len() == i,
                forall|j: int| 0 <= j < i ==> {
                    &&& (#[trigger] r@[j]).index == j
                    &&& r@[j].sample_rate == self.header.sound_entries@[j].sample_rate
                    &&& r@[j].bytes@ == self.bytes@.subrange(
                        self.header.sound_entries@[j].offset as int,
                        self.header.sound_entries@[j].offset
                            + self.header.sound_entries@[j].size,
                    )
                },
            decreases n - i,
        {
            let e = &self.header.sound_entries[i];
            let start = e.offset as usize;
            let sound_bytes = vstd::slice::slice_to_vec(
                vstd::slice::slice_subrange(self.bytes.as_slice(), start, start + e.size),
            );
            r.push(RawSound { index: i, sample_rate: e.sample_rate, bytes: sound_bytes });
            i = i + 1;
        }
        r
    }
}

} // verus!
