//! The WAV front-end: a minimal 16-bit PCM view of a WAV file.
//!
//! Container parsing and writing are delegated to the `hound` crate
//! behind trusted wrappers; everything downstream works on the plain
//! channel count, sample rate and sample vector these yield.

use vstd::prelude::*;

use crate::error::Error;

verus! {

/// What hound's reader yields for the given WAV bytes: channel count,
/// sample rate, bits per sample and the 16-bit samples. A pure function
/// of the bytes alone; `None` when hound rejects them.
pub uninterp spec fn spec_wav_parse(b: Seq<u8>) -> Option<(u16, u32, u16, Seq<i16>)>;

/// The WAV file hound's writer produces for a 16-bit integer PCM stream
/// with the given channel count and sample rate. A pure function of its
/// arguments alone.
pub uninterp spec fn spec_wav_bytes(channels: u16, sample_rate: u32, samples: Seq<i16>) -> Seq<u8>;

/// Relies on hound's `WavReader::new`, `WavReader::spec` and
/// `WavReader::into_samples::<i16>`: together they parse the bytes of a
/// WAV file into its spec fields and 16-bit samples, or fail; the result
/// depends on the bytes alone.
#[verifier::external_body]
fn wav_decode_bytes(bytes: &[u8]) -> (r: Result<(u16, u32, u16, Vec<i16>), String>)
    ensures
        r is Ok <==> spec_wav_parse(bytes@) is Some,
        r matches Ok(t) ==> spec_wav_parse(bytes@) == Some((t.0, t.1, t.2, t.3@)),
{
    let reader = hound::WavReader::new(std::io::Cursor::new(bytes)).map_err(|e| e.to_string())?;
    let spec = reader.spec();
    let samples: Result<Vec<i16>, _> = reader.into_samples::<i16>().collect();
    match samples {
        Ok(s) => Ok((spec.channels, spec.sample_rate, spec.bits_per_sample, s)),
        Err(e) => Err(e.to_string()),
    }
}

/// Relies on hound's `WavWriter::new`, `WavWriter::write_sample` and
/// `WavWriter::finalize`: they serialize a 16-bit integer PCM stream to a
/// WAV file; the result depends on the spec and samples alone, and the
/// only failure left is a sample count that does not fill whole frames.
/// The bounds exclude hound's unchecked `u32` header arithmetic and its
/// divisions by the channel count and sample rate.
#[verifier::external_body]
fn wav_encode_bytes(channels: u16, sample_rate: u32, samples: &Vec<i16>) -> (r: Result<
    Vec<u8>,
    String,
>)
    requires
        channels >= 1,
        sample_rate >= 1,
        sample_rate * 2 * channels <= u32::MAX,
        samples@.len() * 2 <= u32::MAX - 68,
    ensures
        r is Ok <==> samples@.len() as int % (channels as int) == 0,
        r matches Ok(out) ==> out@ == spec_wav_bytes(channels, sample_rate, samples@),
{
    let spec = hound::WavSpec {
        channels,
        sample_rate,
        bits_per_sample: 16,
        sample_format: hound::SampleFormat::Int,
    };
    let mut cursor = std::io::Cursor::new(Vec::new());
    let mut writer = hound::WavWriter::new(&mut cursor, spec).map_err(|e| e.to_string())?;
    for s in samples.iter() {
        writer.write_sample(*s).map_err(|e| e.to_string())?;
    }
    writer.finalize().map_err(|e| e.to_string())?;
    Ok(cursor.into_inner())
}

/// A WAV audio file, reduced to the fields the toolkit works with.
#[derive(Debug, Clone, PartialEq, Eq)]
pub struct Wav {
    /// Channel count; the encoding paths demand mono.
    pub channels: u16,
    pub sample_rate: u32,
    /// Bits per sample as stored in the file; 16 on every supported path.
    pub bits_per_sample: u16,
    /// The 16-bit PCM samples.
    pub samples: Vec<i16>,
}

impl Wav {
    /// Parse a WAV file's bytes. Succeeds exactly when the WAV reader
    /// accepts them; the fields are exactly what it yields.
    pub fn new(bytes: &[u8]) -> (r: Result<Wav, Error>)
        ensures
            r is Ok <==> spec_wav_parse(bytes@) is Some,
            r matches Ok(w) ==> spec_wav_parse(bytes@) == Some(
                (w.channels, w.sample_rate, w.bits_per_sample, w.samples@),
            ),
            r matches Err(e) ==> e matches Error::Wav(_),
    {
        match wav_decode_bytes(bytes) {
            Ok(t) => Ok(
                Wav { channels: t.0, sample_rate: t.1, bits_per_sample: t.2, samples: t.3 },
            ),
            Err(msg) => Err(Error::Wav(msg)),
        }
    }

    /// The samples, for read-only inspection.
    pub fn samples(&self) -> (r: &Vec<i16>)
        ensures
            r@ == self.samples@,
    {
        &self.samples
    }

    /// Whether this file can be serialized at all: at least one channel,
    /// a nonzero rate, whole frames, and sizes the WAV header's 32-bit
    /// fields can carry.
    pub open spec fn spec_writable(self) -> bool {
        &&& self.channels >= 1
        &&& self.sample_rate >= 1
        &&& self.sample_rate * 2 * self.channels <= u32::MAX
        &&& self.samples@.len() * 2 <= u32::MAX - 68
        &&& self.samples@.len() as int % (self.channels as int) == 0
    }

    /// Serialize to a 16-bit integer PCM WAV file. Succeeds exactly on
    /// writable files and then yields the writer's bytes for this spec
    /// and these samples.
    pub fn to_writer(&self) -> (r: Result<Vec<u8>, Error>)
        ensures
            r is Ok <==> self.spec_writable(),
            r matches Ok(out) ==> out@ == spec_wav_bytes(
                self.channels,
                self.sample_rate,
                self.samples@,
            ),
            r matches Err(e) ==> (e matches Error::Wav(_) || e matches Error::InvalidWav(_)),
    {
        if self.channels < 1 || self.sample_rate < 1 {
            return Err(Error::InvalidWav(String::from_str("zero channels or sample rate")));
        }
        proof {
            assert((self.sample_rate as int) * 2 * (self.channels as int) < 0x4_0000_0000_0000)
                by (nonlinear_arith)
                requires
                    self.sample_rate <= 0xFFFF_FFFF,
                    self.channels <= 0xFFFF,
            ;
        }
        if (self.sample_rate as u64) * 2 * (self.channels as u64) > u32::MAX as u64 {
            return Err(Error::InvalidWav(String::from_str("byte rate overflows the header")));
        }
        if self.samples.len() as u64 > ((u32::MAX - 68) / 2) as u64 {
            return Err(Error::InvalidWav(String::from_str("too many samples for the header")));
        }
        match wav_encode_bytes(self.channels, self.sample_rate, &self.samples) {
            Ok(out) => Ok(out),
            Err(msg) => Err(Error::Wav(msg)),
        }
    }
}

} // verus!
