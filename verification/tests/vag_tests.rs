//! Tests for the VAG container and the ADPCM codec.

use saamt::vag::{PackInfo, VAGFlag, VagAudio};
use saamt::vagcodec::{decode_chunks, get_loop_offset, LoopMode};
use saamt::wav::Wav;

/// A well-formed VAG file with the given chunk payloads.
fn sample_vag_bytes(chunks: &[(u8, u8)]) -> Vec<u8> {
    let mut out = Vec::new();
    out.extend_from_slice(b"VAGp");
    out.extend_from_slice(&0x20u32.to_be_bytes()); // version
    out.extend_from_slice(&0u32.to_be_bytes()); // ssa
    out.extend_from_slice(&((chunks.len() * 16 + 16) as u32).to_be_bytes()); // size
    out.extend_from_slice(&22050u32.to_be_bytes()); // sample rate
    for _ in 0..5 {
        out.extend_from_slice(&0u16.to_be_bytes()); // volumes, pitch, adsr
    }
    out.extend_from_slice(&1u16.to_be_bytes()); // channels
    out.extend_from_slice(b"sample_name\0\0\0\0\0");
    out.extend_from_slice(&[0xAA; 16]); // opaque sub-header
    for (pack, flag) in chunks {
        out.push(*pack);
        out.push(*flag);
        out.extend_from_slice(&[0x21; 14]);
    }
    out
}

#[test]
fn vag_round_trip_is_byte_exact() {
    let bytes = sample_vag_bytes(&[(0x12, 0), (0x43, 2), (0x04, 7)]);
    let vag = VagAudio::from_reader(&bytes).unwrap();
    assert_eq!(vag.to_writer(), bytes);
}

#[test]
fn vag_rejects_bad_magic_and_flags() {
    let mut bytes = sample_vag_bytes(&[(0x12, 0)]);
    bytes[0] = b'W';
    assert!(VagAudio::from_reader(&bytes).is_err());
    let mut bytes2 = sample_vag_bytes(&[(0x12, 0)]);
    bytes2[65] = 9; // invalid flag byte
    assert!(VagAudio::from_reader(&bytes2).is_err());
}

#[test]
fn vag_name_is_read_from_header() {
    let bytes = sample_vag_bytes(&[(0x12, 0)]);
    let vag = VagAudio::from_reader(&bytes).unwrap();
    assert!(vag.name().starts_with("sample_name"));
}

#[test]
fn pack_info_nibbles() {
    let mut p = PackInfo(0x34);
    assert_eq!(p.shift_factor(), 4);
    assert_eq!(p.predict(), 3);
    p.update_shift_factor(9);
    assert_eq!(p.shift_factor(), 9);
    assert_eq!(p.predict(), 3);
    p.update_predict(1);
    assert_eq!(p.predict(), 1);
    assert_eq!(p.shift_factor(), 9);
}

#[test]
fn flag_bytes_round_trip() {
    for b in 0u8..8 {
        let f = VAGFlag::from_byte(b).unwrap();
        assert_eq!(f.to_byte(), b);
    }
    assert!(VAGFlag::from_byte(8).is_none());
}

#[test]
fn loop_offset_formula() {
    assert_eq!(get_loop_offset(0), 1);
    assert_eq!(get_loop_offset(28), 2);
    assert_eq!(get_loop_offset(29), 3);
    assert_eq!(get_loop_offset(27), 2);
}

#[test]
fn decoder_halts_at_playback_end() {
    let bytes = sample_vag_bytes(&[(0x10, 0), (0x10, 7), (0x10, 0)]);
    let vag = VagAudio::from_reader(&bytes).unwrap();
    let pcm = vag.decoder().to_decoded();
    assert_eq!(pcm.len(), 28); // only the first chunk plays
}

#[test]
fn decode_bound_holds_on_noisy_input() {
    // extreme data: loudest nibbles, shift zero, strongest predictor
    let bytes = sample_vag_bytes(&[(0x40, 0); 64].as_slice());
    let vag = VagAudio::from_reader(&bytes).unwrap();
    let pcm = vag.decoder().to_decoded();
    assert_eq!(pcm.len(), 64 * 28);
    for s in pcm {
        assert!(s >= i16::MIN && s <= i16::MAX);
    }
}

#[test]
fn encode_then_decode_approximates_input() {
    // a gentle ramp, two chunks' worth
    let mut samples: Vec<i16> = Vec::new();
    for i in 0..56i32 {
        samples.push((i * 8) as i16);
    }
    let wav = Wav {
        channels: 1,
        sample_rate: 11025,
        bits_per_sample: 16,
        samples: samples.clone(),
    };
    let wav_bytes = wav.to_writer().unwrap();
    let vag = VagAudio::from_wav("ramp", &wav_bytes, LoopMode::ForceNoLoop).unwrap();
    assert_eq!(vag.0.sample_rate, 11025);
    // two data chunks plus the synthetic terminator
    assert_eq!(vag.0.chunks.len(), 3);
    let decoded = decode_chunks(&vag.0.chunks);
    assert_eq!(decoded.len(), 56);
    for i in 0..56 {
        let diff = (decoded[i] as i32 - samples[i] as i32).abs();
        assert!(diff <= 64, "sample {} differs by {}", i, diff);
    }
}

#[test]
fn encoder_rejects_stereo_wavs() {
    let wav = Wav {
        channels: 2,
        sample_rate: 8000,
        bits_per_sample: 16,
        samples: vec![0i16; 56],
    };
    let wav_bytes = wav.to_writer().unwrap();
    assert!(VagAudio::from_wav("x", &wav_bytes, LoopMode::FromInput).is_err());
}

#[test]
fn wav_writer_rejects_zero_rate_and_unfinished_frames() {
    let bad_rate = Wav { channels: 1, sample_rate: 0, bits_per_sample: 16, samples: vec![0i16; 4] };
    assert!(bad_rate.to_writer().is_err());
    let bad_channels = Wav { channels: 0, sample_rate: 8000, bits_per_sample: 16, samples: vec![] };
    assert!(bad_channels.to_writer().is_err());
    let odd_frames =
        Wav { channels: 2, sample_rate: 8000, bits_per_sample: 16, samples: vec![0i16; 3] };
    assert!(odd_frames.to_writer().is_err());
}

#[test]
fn wav_front_end_round_trips_through_container() {
    let samples: Vec<i16> = vec![1, -2, 3, -4, 32767, -32768];
    let wav = Wav {
        channels: 1,
        sample_rate: 44100,
        bits_per_sample: 16,
        samples: samples.clone(),
    };
    let bytes = wav.to_writer().unwrap();
    let parsed = Wav::new(&bytes).unwrap();
    assert_eq!(parsed.channels, 1);
    assert_eq!(parsed.sample_rate, 44100);
    assert_eq!(parsed.samples, samples);
}
