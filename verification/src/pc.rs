//! The PC sound adapter: bank sounds are bare little-endian 16-bit PCM,
//! exported and imported as WAV files.

use vstd::prelude::*;

use crate::bank::{Bank, SoundEntry};
use crate::error::Error;
use crate::sound::RawSound;
use crate::wav::{Wav, spec_wav_parse};
use crate::wire::{spec_u16_le, spec_u16_of_le, push_u16_le, read_u16_le};

verus! {

/// The `u16` bit pattern of a 16-bit sample (two's complement).
pub open spec fn spec_bits_of_i16(x: i16) -> u16 {
    ((x as int) % 0x10000) as u16
}

/// The 16-bit sample a `u16` bit pattern stands for.
pub open spec fn spec_i16_of_bits(x: u16) -> i16 {
    if x >= 0x8000 {
        (x - 0x10000) as i16
    } else {
        x as i16
    }
}

/// The low 16 bits of a sample rate, as stored in a sound entry.
pub open spec fn spec_low16(x: u32) -> u16 {
    ((x as int) % 0x10000) as u16
}

/// 16-bit samples as the little-endian byte stream a bank stores.
pub open spec fn spec_pcm_le(s: Seq<i16>) -> Seq<u8>
    decreases s.len(),
{
    if s.len() == 0 {
        Seq::empty()
    } else {
        spec_pcm_le(s.drop_last()) + spec_u16_le(spec_bits_of_i16(s.last()))
    }
}

pub proof fn lemma_pcm_le_len(s: Seq<i16>)
    ensures
        spec_pcm_le(s).len() == s.len() * 2,
    decreases s.len(),
{
    if s.len() > 0 {
        lemma_pcm_le_len(s.drop_last());
    }
}

/// The 16-bit samples stored in a little-endian byte stream; a trailing
/// odd byte is ignored.
pub open spec fn spec_pcm_from_le(b: Seq<u8>) -> Seq<i16> {
    Seq::new((b.len() / 2) as nat, |i: int| spec_i16_of_bits(spec_u16_of_le(b.subrange(2 * i, 2 * i
        + 2))))
}

/// Append samples in the bank's little-endian form.
fn write_pcm_le(samples: &Vec<i16>, out: &mut Vec<u8>)
    ensures
        final(out)@ == old(out)@ + spec_pcm_le(samples@),
{
    let mut i: usize = 0;
    while i < samples.len()
        invariant
            i <= samples@.len(),
            out@ == old(out)@ + spec_pcm_le(samples@.subrange(0, i as int)),
        decreases samples@.len() - i,
    {
        let v = samples[i];
        let bits: u16 = if v >= 0 {
            v as u16
        } else {
            ((v as i32) + 0x10000) as u16
        };
        proof {
            if v < 0 {
                assert((v as int) % 0x10000 == v + 0x10000) by (nonlinear_arith)
                    requires
                        -0x8000 <= v < 0,
                ;
            }
            assert(bits == spec_bits_of_i16(samples@[i as int]));
        }
        push_u16_le(out, bits);
        proof {
            let pre = samples@.subrange(0, i as int);
            let cur = samples@.subrange(0, i + 1);
            assert(cur.drop_last() == pre);
            assert(out@ =~= old(out)@ + spec_pcm_le(cur));
        }
        i = i + 1;
    }
    proof {
        assert(samples@.subrange(0, samples@.len() as int) =~= samples@);
    }
}

/// Import a WAV file into a bank under construction: its samples are
/// written in the bank's little-endian form, and the entry takes the
/// WAV's sample rate and the new byte size. A WAV that is not mono is
/// imported anyway; the caller only warns about it.
pub fn import_wav(bytes: &Vec<u8>, sentry: &mut SoundEntry, out: &mut Vec<u8>) -> (r: Result<
    bool,
    Error,
>)
    ensures
        r is Ok <==> (spec_wav_parse(bytes@) matches Some(t) && t.3.len() * 2 <= usize::MAX),
        r matches Ok(not_mono) ==> (spec_wav_parse(bytes@) matches Some(t) && {
            &&& not_mono == (t.0 != 1)
            &&& final(out)@ == old(out)@ + spec_pcm_le(t.3)
            &&& *final(sentry) == (SoundEntry {
                sample_rate: spec_low16(t.1),
                size: (t.3.len() * 2) as usize,
                ..*old(sentry)
            })
        }),
        r is Err ==> final(out)@ == old(out)@ && *final(sentry) == *old(sentry),
        r matches Err(e) ==> (e matches Error::Wav(_) || e matches Error::InvalidWav(_)),
    {
        let wav = match Wav::new(bytes.as_slice()) {
            Ok(w) => w,
            Err(e) => {
                return Err(e);
            }
        };
        if wav.samples.len() > usize::MAX / 2 {
            proof {
                assert(wav.samples@.len() * 2 > usize::MAX) by (nonlinear_arith)
                    requires
                        wav.samples@.len() > usize::MAX / 2,
                ;
            }
            return Err(Error::InvalidWav(String::from_str("wav holds too many samples")));
        }
        sentry.sample_rate = (wav.sample_rate % 0x10000) as u16;
        sentry.size = wav.samples.len() * 2;
        write_pcm_le(&wav.samples, out);
        Ok(wav.channels != 1)
    }

impl RawSound {
    /// This sound's bytes viewed as bare 16-bit PCM and wrapped as a
    /// mono WAV at the sound's rate.
    pub fn as_pc_wav(&self) -> (w: Wav)
        ensures
            w.channels == 1u16,
            w.sample_rate == self.sample_rate as u32,
            w.bits_per_sample == 16u16,
            w.samples@ == spec_pcm_from_le(self.bytes@),
    {
        let blen = self.bytes.len();
        let n = blen / 2;
        let mut samples: Vec<i16> = Vec::new();
        let mut i: usize = 0;
        proof {
            assert(2 * (n as int) <= self.bytes@.len()) by (nonlinear_arith)
                requires
                    n == self.bytes@.len() / 2,
            ;
        }
        while i < n
            invariant
                i <= n,
                blen == self.bytes@.len(),
                n == self.bytes@.len() / 2,
                2 * (n as int) <= self.bytes@.len(),
                samples@.len() == i,
                forall|j: int| 0 <= j < i ==> samples@[j] == spec_pcm_from_le(self.bytes@)[j],
            decreases n - i,
        {
            proof {
                assert(2 * (i as int) + 2 <= 2 * (n as int)) by (nonlinear_arith)
                    requires
                        i < n,
                ;
            }
            let bits = read_u16_le(self.bytes.as_slice(), 2 * i);
            let v: i16 = if bits >= 0x8000 {
                ((bits as i32) - 0x10000) as i16
            } else {
                bits as i16
            };
            samples.push(v);
            i = i + 1;
        }
        proof {
            assert(samples@ =~= spec_pcm_from_le(self.bytes@));
        }
        Wav { channels: 1, sample_rate: self.sample_rate as u32, bits_per_sample: 16, samples }
    }
}

impl Bank {
    /// All sounds of this bank as PC WAVs, in entry order.
    pub fn pc_sounds(&self) -> (r: Vec<Wav>)
        requires
            self.wf(),
        ensures
            r@.len() == self.header.sound_entries@.len(),
            forall|i: int| 0 <= i < r@.len() ==> {
                &&& (#[trigger] r@[i]).channels == 1u16
                &&& r@[i].sample_rate == self.header.sound_entries@[i].sample_rate as u32
                &&& r@[i].samples@ == spec_pcm_from_le(
                    self.bytes@.subrange(
                        self.header.sound_entries@[i].offset as int,
                        self.header.sound_entries@[i].offset
                            + self.header.sound_entries@[i].size,
                    ),
                )
            },
    {
        let raws = self.raw_sounds();
        let mut r: Vec<Wav> = Vec::new();
        let mut i: usize = 0;
        while i < raws.len()
            invariant
                i <= raws@.len(),
                raws@.len() == self.header.sound_entries@.len(),
                forall|j: int| 0 <= j < raws@.len() ==> {
                    &&& (#[trigger] raws@[j]).sample_rate
                        == self.header.sound_entries@[j].sample_rate
                    &&& raws@[j].bytes@ == self.bytes@.subrange(
                        self.header.sound_entries@[j].offset as int,
                        self.header.sound_entries@[j].offset
                            + self.header.sound_entries@[j].size,
                    )
                },
                r@.len() == i,
                forall|j: int| 0 <= j < i ==> {
                    &&& (#[trigger] r@[j]).channels == 1u16
                    &&& r@[j].sample_rate == self.header.sound_entries@[j].sample_rate as u32
                    &&& r@[j].samples@ == spec_pcm_from_le(
                        self.bytes@.subrange(
                            self.header.sound_entries@[j].offset as int,
                            self.header.sound_entries@[j].offset
                                + self.header.sound_entries@[j].size,
                        ),
                    )
                },
            decreases raws@.len() - i,
        {
            r.push(raws[i].as_pc_wav());
            i = i + 1;
        }
        r
    }
}

} // verus!
