//! The PS2 sound adapter: bank sounds are the 16-byte VAG sub-header
//! followed by ADPCM chunks, exported and imported as VAG or WAV files.

use vstd::prelude::*;

use crate::bank::{Bank, SoundEntry};
use crate::error::Error;
use crate::pc::spec_low16;
use crate::sound::RawSound;
use crate::vag::{Vag, VagAudio, VAGChunk, spec_chunks_bytes, spec_vag_parse_ok, spec_vag_size};
use crate::vagcodec::{spec_encoded_chunks_ok, spec_pad28, spec_loop_bounds, spec_smpl_scan,
    spec_vag_pcm, LoopMode};
use crate::wav::{Wav, spec_wav_parse};
use crate::wire::spec_u32_of_be;

verus! {

/// Import a VAG file into a bank under construction: its main header is
/// stripped, the opaque sub-header and all chunks are appended, and the
/// entry takes the VAG's sample rate and the new byte size. VAG sounds
/// are never flagged as non-mono.
pub fn import_vag(bytes: &Vec<u8>, sentry: &mut SoundEntry, out: &mut Vec<u8>) -> (r: Result<
    bool,
    Error,
>)
    ensures
        r is Ok <==> spec_vag_parse_ok(bytes@),
        r matches Ok(not_mono) ==> {
            &&& !not_mono
            &&& final(out)@ == old(out)@ + bytes@.subrange(48, 48 + spec_vag_size(bytes@))
            &&& *final(sentry) == (SoundEntry {
                sample_rate: spec_low16(spec_u32_of_be(bytes@.subrange(16, 20))),
                size: spec_vag_size(bytes@) as usize,
                ..*old(sentry)
            })
        },
        r is Err ==> final(out)@ == old(out)@ && *final(sentry) == *old(sentry),
        r matches Err(e) ==> e == Error::BinaryFormat,
{
    let vag = match VagAudio::from_reader(bytes.as_slice()) {
        Ok(v) => v,
        Err(e) => {
            return Err(e);
        }
    };
    let rb = vag.raw_vag_bytes();
    proof {
        let sb = vag.0.spec_bytes();
        vag.0.lemma_bytes_len();
        assert(sb.subrange(48, sb.len() as int) =~= vag.0.vag_header@ + spec_chunks_bytes(
            vag.0.chunks@,
        ));
        assert(bytes@.subrange(0, 48 + spec_vag_size(bytes@)).subrange(
            48,
            48 + spec_vag_size(bytes@),
        ) =~= bytes@.subrange(48, 48 + spec_vag_size(bytes@)));
        assert(rb@ == bytes@.subrange(48, 48 + spec_vag_size(bytes@)));
        // the stored sample rate is the big-endian word at offset 16
        assert(sb.subrange(16, 20) =~= crate::wire::spec_u32_be(vag.0.sample_rate));
        crate::wire::lemma_u32_be_round_trip(vag.0.sample_rate);
        assert(bytes@.subrange(0, 48 + spec_vag_size(bytes@)).subrange(16, 20) =~= bytes@
            .subrange(16, 20));
        assert(vag.0.sample_rate == spec_u32_of_be(bytes@.subrange(16, 20)));
    }
    sentry.sample_rate = (vag.0.sample_rate % 0x10000) as u16;
    sentry.size = rb.len();
    out.extend_from_slice(rb.as_slice());
    Ok(false)
}

/// Import a WAV file into a bank under construction by encoding it to
/// VAG first: a zero sub-header and the encoded chunks are appended, and
/// the entry takes the WAV's sample rate and the new byte size. The
/// encoder demands mono input, so nothing imported this way is flagged
/// as non-mono.
pub fn import_wav(bytes: &Vec<u8>, sentry: &mut SoundEntry, out: &mut Vec<u8>) -> (r: Result<
    bool,
    Error,
>)
    ensures
        r is Ok <==> (spec_wav_parse(bytes@) matches Some(t) && t.0 == 1 && spec_pad28(
            t.3,
        ).len() <= 0x0FFF_0000 * 28),
        r matches Ok(not_mono) ==> (spec_wav_parse(bytes@) matches Some(t) && {
            &&& !not_mono
            &&& exists|cs: Seq<VAGChunk>| {
                &&& spec_encoded_chunks_ok(
                    cs,
                    spec_pad28(t.3),
                    true,
                    spec_loop_bounds(spec_smpl_scan(bytes@)).0,
                    spec_loop_bounds(spec_smpl_scan(bytes@)).1,
                )
                &&& final(out)@ == old(out)@ + Seq::new(16, |i: int| 0u8) + spec_chunks_bytes(cs)
                &&& *final(sentry) == (SoundEntry {
                    sample_rate: spec_low16(t.1),
                    size: (16 + cs.len() * 16) as usize,
                    ..*old(sentry)
                })
            }
        }),
        r is Err ==> final(out)@ == old(out)@ && *final(sentry) == *old(sentry),
        r matches Err(e) ==> (e matches Error::Wav(_) || e matches Error::InvalidWav(_)),
{
    let vag = match VagAudio::from_wav("", bytes.as_slice(), LoopMode::FromInput) {
        Ok(v) => v,
        Err(e) => {
            return Err(e);
        }
    };
    let rb = vag.raw_vag_bytes();
    proof {
        crate::vag::lemma_chunks_bytes_len(vag.0.chunks@);
    }
    sentry.sample_rate = (vag.0.sample_rate % 0x10000) as u16;
    sentry.size = rb.len();
    out.extend_from_slice(rb.as_slice());
    proof {
        let cs = vag.0.chunks@;
        assert(out@ =~= old(out)@ + Seq::new(16, |i: int| 0u8) + spec_chunks_bytes(cs));
    }
    Ok(false)
}

/// The raw-sound bytes of a valid PS2 sound cut into whole chunks with
/// valid flags, as `Vag::new` demands; anything else cannot be wrapped
/// as a VAG file.
pub open spec fn spec_ps2_sound_ok(b: Seq<u8>) -> bool {
    &&& b.len() > 16
    &&& b.len() <= u32::MAX
    &&& (b.len() - 16) % 16 == 0
    &&& forall|k: int| 0 <= k < (b.len() - 32) / 16 + 1 ==> #[trigger] b[16 + 16 * k + 1] <= 7
}

/// The 16-byte name field of an exported sound: `sound_`, three decimal
/// digits of the index, and zero padding.
pub open spec fn spec_sound_name(idx: int) -> Seq<u8> {
    seq![
        0x73u8,
        0x6fu8,
        0x75u8,
        0x6eu8,
        0x64u8,
        0x5fu8,
        (0x30 + (idx / 100) % 10) as u8,
        (0x30 + (idx / 10) % 10) as u8,
        (0x30 + idx % 10) as u8,
        0u8,
        0u8,
        0u8,
        0u8,
        0u8,
        0u8,
        0u8,
    ]
}

impl RawSound {
    /// Wrap this sound's bytes as a VAG file named after the sound's
    /// index (`sound_` and three digits).
    pub fn as_ps2_vag(&self) -> (v: VagAudio)
        requires
            spec_ps2_sound_ok(self.bytes@),
            self.index <= 999,
        ensures
            v.0.wf(),
            v.0.sample_rate == self.sample_rate as u32,
            v.0.version == 0x20u32,
            v.0.ssa == 0u32,
            v.0.vol_left == 0u16 && v.0.vol_right == 0u16 && v.0.pitch == 0u16,
            v.0.adsr1 == 0u16 && v.0.adsr2 == 0u16,
            v.0.channels == 0u16,
            v.0.name@ == spec_sound_name(self.index as int),
            v.0.vag_header@ == self.bytes@.subrange(0, 16),
            spec_chunks_bytes(v.0.chunks@) == self.bytes@.skip(16),
            v.0.chunks@.len() * 16 == self.bytes@.len() - 16,
    {
        let d0 = 0x30u8 + (self.index / 100) as u8;
        let d1 = 0x30u8 + ((self.index / 10) % 10) as u8;
        let d2 = 0x30u8 + (self.index % 10) as u8;
        let name: [u8; 16] = [0x73, 0x6f, 0x75, 0x6e, 0x64, 0x5f, d0, d1, d2, 0, 0, 0, 0, 0, 0, 0];
        proof {
            assert(self.index / 100 <= 9 && (self.index / 100) as int % 10 == self.index as int
                / 100) by (nonlinear_arith)
                requires
                    self.index <= 999,
            ;
            assert(name@ =~= spec_sound_name(self.index as int));
        }
        let mut data: Vec<u8> = Vec::new();
        data.extend_from_slice(self.bytes.as_slice());
        proof {
            assert(data@ =~= self.bytes@);
        }
        let vag = Vag::new(self.sample_rate as u32, name, data);
        VagAudio(vag)
    }

    /// Decode this PS2 sound to a mono 16-bit WAV: it is wrapped as a
    /// VAG file first and then run through the decoder.
    pub fn as_ps2_wav(&self) -> (w: Wav)
        requires
            spec_ps2_sound_ok(self.bytes@),
            self.index <= 999,
        ensures
            w.channels == 1u16,
            w.sample_rate == self.sample_rate as u32,
            w.bits_per_sample == 16u16,
            exists|cs: Seq<VAGChunk>| spec_chunks_bytes(cs) == self.bytes@.skip(16)
                && w.samples@ == #[trigger] spec_vag_pcm(cs),
    {
        let vag = self.as_ps2_vag();
        let w = vag.to_wav();
        proof {
            assert(spec_chunks_bytes(vag.0.chunks@) == self.bytes@.skip(16) && w.samples@
                == spec_vag_pcm(vag.0.chunks@));
        }
        w
    }
}

impl Bank {
    /// Whether every sound of this bank carries valid PS2 sound bytes.
    pub open spec fn spec_all_ps2_sounds_ok(self) -> bool {
        forall|i: int| 0 <= i < self.header.sound_entries@.len() ==> spec_ps2_sound_ok(
            #[trigger] self.bytes@.subrange(
                self.header.sound_entries@[i].offset as int,
                self.header.sound_entries@[i].offset + self.header.sound_entries@[i].size,
            ),
        )
    }

    /// All sounds of this bank as VAG files, in entry order.
    pub fn ps2_sounds(&self) -> (r: Vec<VagAudio>)
        requires
            self.wf(),
            self.spec_all_ps2_sounds_ok(),
            self.header.sound_entries@.len() <= 400,
        ensures
            r@.len() == self.header.sound_entries@.len(),
            forall|i: int| 0 <= i < r@.len() ==> {
                &&& (#[trigger] r@[i]).0.wf()
                &&& r@[i].0.sample_rate == self.header.sound_entries@[i].sample_rate as u32
                &&& spec_chunks_bytes(r@[i].0.chunks@) == self.bytes@.subrange(
                    self.header.sound_entries@[i].offset as int,
                    self.header.sound_entries@[i].offset + self.header.sound_entries@[i].size,
                ).skip(16)
            },
    {
        let raws = self.raw_sounds();
        let mut r: Vec<VagAudio> = Vec::new();
        let mut i: usize = 0;
        while i < raws.len()
            invariant
                i <= raws@.len(),
                raws@.len() == self.header.sound_entries@.len(),
                raws@.len() <= 400,
                self.spec_all_ps2_sounds_ok(),
                forall|j: int| 0 <= j < raws@.len() ==> {
                    &&& (#[trigger] raws@[j]).index == j
                    &&& raws@[j].sample_rate == self.header.sound_entries@[j].sample_rate
                    &&& raws@[j].bytes@ == self.bytes@.subrange(
                        self.header.sound_entries@[j].offset as int,
                        self.header.sound_entries@[j].offset
                            + self.header.sound_entries@[j].size,
                    )
                },
                r@.len() == i,
                forall|j: int| 0 <= j < i ==> {
                    &&& (#[trigger] r@[j]).0.wf()
                    &&& r@[j].0.sample_rate == self.header.sound_entries@[j].sample_rate as u32
                    &&& spec_chunks_bytes(r@[j].0.chunks@) == self.bytes@.subrange(
                        self.header.sound_entries@[j].offset as int,
                        self.header.sound_entries@[j].offset
                            + self.header.sound_entries@[j].size,
                    ).skip(16)
                },
            decreases raws@.len() - i,
        {
            r.push(raws[i].as_ps2_vag());
            i = i + 1;
        }
        r
    }
}

} // verus!
