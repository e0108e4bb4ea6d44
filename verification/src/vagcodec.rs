//! The PS2 ADPCM codec: decoding VAG chunks to 16-bit PCM and encoding
//! PCM back into VAG chunks.
//!
//! The two-tap predictor uses the canonical rational coefficients with
//! denominator 64. All arithmetic here is integer: divisions round toward
//! negative infinity, and the running prediction history is kept in
//! 16-bit fixed point and saturated at a bound far outside the range any
//! real signal reaches, so that every operation provably stays in `i64`.

use vstd::prelude::*;
use vstd::arithmetic::div_mod::{lemma_fundamental_div_mod, lemma_fundamental_div_mod_converse};

use crate::error::Error;
use crate::vag::{VAGChunk, VAGFlag, PackInfo, VagAudio, Vag, spec_flag_byte, VAG_SAMPLE_NIBBL};
use crate::wav::Wav;

verus! {

/// Saturation bound for the decoder's prediction history.
pub const DEC_HIST_SAT: i64 = 0x4000_0000;

/// Saturation bound for the encoder's fixed-point prediction history.
pub const ENC_HIST_SAT: i64 = 0x100_0000_0000;

/// Two to the power `n`, for the 4-bit shift range.
pub open spec fn spec_pow2_sel(n: int) -> int {
    if n <= 0 {
        1
    } else if n == 1 {
        2
    } else if n == 2 {
        4
    } else if n == 3 {
        8
    } else if n == 4 {
        16
    } else if n == 5 {
        32
    } else if n == 6 {
        64
    } else if n == 7 {
        128
    } else if n == 8 {
        256
    } else if n == 9 {
        512
    } else if n == 10 {
        1024
    } else if n == 11 {
        2048
    } else if n == 12 {
        4096
    } else if n == 13 {
        8192
    } else if n == 14 {
        16384
    } else {
        32768
    }
}

/// Two to the power `n`, executable.
fn pow2_sel(n: u8) -> (r: i64)
    ensures
        r == spec_pow2_sel(n as int),
        1 <= r <= 32768,
{
    if n == 0 {
        1
    } else if n == 1 {
        2
    } else if n == 2 {
        4
    } else if n == 3 {
        8
    } else if n == 4 {
        16
    } else if n == 5 {
        32
    } else if n == 6 {
        64
    } else if n == 7 {
        128
    } else if n == 8 {
        256
    } else if n == 9 {
        512
    } else if n == 10 {
        1024
    } else if n == 11 {
        2048
    } else if n == 12 {
        4096
    } else if n == 13 {
        8192
    } else if n == 14 {
        16384
    } else {
        32768
    }
}

/// Division rounding toward negative infinity, as the mathematical `/`
/// of the specifications.
fn div_floor(x: i64, d: i64) -> (r: i64)
    requires
        1 <= d <= 0x1_0000_0000,
        -0x4000_0000_0000_0000 <= x <= 0x4000_0000_0000_0000,
    ensures
        r == x as int / d as int,
{
    if x >= 0 {
        let q = (x as u64) / (d as u64);
        q as i64
    } else {
        let y = (-x) as u64;
        let dd = d as u64;
        let q = (y + dd - 1) / dd;
        proof {
            let yi = y as int;
            let di = d as int;
            let qi = (yi + di - 1) / di;
            lemma_fundamental_div_mod(yi + di - 1, di);
            let ri = (yi + di - 1) % di;
            assert(yi + di - 1 == di * qi + ri);
            assert(-yi == (-qi) * di + (di - 1 - ri)) by (nonlinear_arith)
                requires
                    yi + di - 1 == di * qi + ri,
            ;
            lemma_fundamental_div_mod_converse(-yi, di, -qi, di - 1 - ri);
            assert(qi <= yi) by (nonlinear_arith)
                requires
                    yi + di - 1 == di * qi + ri,
                    0 <= ri,
                    di >= 1,
                    yi >= 1,
            ;
        }
        -(q as i64)
    }
}

/// First decoder coefficient (numerator over 64) for each predictor.
pub open spec fn spec_dec_c0(p: int) -> int {
    if p == 1 {
        60
    } else if p == 2 {
        115
    } else if p == 3 {
        98
    } else if p >= 4 {
        122
    } else {
        0
    }
}

/// Second decoder coefficient (numerator over 64) for each predictor.
pub open spec fn spec_dec_c1(p: int) -> int {
    if p == 2 {
        -52
    } else if p == 3 {
        -55
    } else if p >= 4 {
        -60
    } else {
        0
    }
}

fn dec_c0(p: u8) -> (r: i64)
    ensures
        r == spec_dec_c0(p as int),
        0 <= r <= 122,
{
    if p == 1 {
        60
    } else if p == 2 {
        115
    } else if p == 3 {
        98
    } else if p >= 4 {
        122
    } else {
        0
    }
}

fn dec_c1(p: u8) -> (r: i64)
    ensures
        r == spec_dec_c1(p as int),
        -60 <= r <= 0,
{
    if p == 2 {
        -52
    } else if p == 3 {
        -55
    } else if p >= 4 {
        -60
    } else {
        0
    }
}

/// A 4-bit sample, sign extended.
pub open spec fn spec_nib_signed(v: u8) -> int {
    if v >= 8 {
        v - 16
    } else {
        v as int
    }
}

/// The `j`-th 4-bit sample of a chunk: low nibble first.
pub open spec fn spec_chunk_nib(c: VAGChunk, j: int) -> u8 {
    if j % 2 == 0 {
        c.sample@[j / 2] & 0xf
    } else {
        c.sample@[j / 2] >> 4
    }
}

/// A chunk's shift factor.
pub open spec fn spec_chunk_shift(c: VAGChunk) -> int {
    (c.pack_infos.0 & 0xf) as int
}

/// A chunk's predictor, clamped to the coefficient table.
pub open spec fn spec_chunk_predict(c: VAGChunk) -> int {
    if (c.pack_infos.0 >> 4) as int > 4 {
        4
    } else {
        (c.pack_infos.0 >> 4) as int
    }
}

/// Clamp into the 16-bit sample range.
pub open spec fn spec_clamp16(s: int) -> i16 {
    if s < -32768 {
        -32768i16
    } else if s > 32767 {
        32767i16
    } else {
        s as i16
    }
}

fn clamp16(s: i64) -> (r: i16)
    ensures
        r == spec_clamp16(s as int),
{
    if s < -32768 {
        -32768
    } else if s > 32767 {
        32767
    } else {
        s as i16
    }
}

/// Saturate the decoder history.
pub open spec fn spec_dec_sat(s: int) -> int {
    if s < -0x4000_0000 {
        -0x4000_0000
    } else if s > 0x4000_0000 {
        0x4000_0000
    } else {
        s
    }
}

fn dec_sat(s: i64) -> (r: i64)
    ensures
        r == spec_dec_sat(s as int),
{
    if s < -DEC_HIST_SAT {
        -DEC_HIST_SAT
    } else if s > DEC_HIST_SAT {
        DEC_HIST_SAT
    } else {
        s
    }
}

/// The raw predictor output for sample `j` of a chunk, before clamping:
/// the shifted 4-bit sample plus the two-tap prediction from the running
/// history.
pub open spec fn spec_dec_sample(c: VAGChunk, j: int, h1: int, h2: int) -> int {
    (spec_nib_signed(spec_chunk_nib(c, j)) * 4096) / spec_pow2_sel(spec_chunk_shift(c)) + (h1
        * spec_dec_c0(spec_chunk_predict(c)) + h2 * spec_dec_c1(spec_chunk_predict(c))) / 64
}

/// The (saturated) history after the first `j` samples of a chunk.
pub open spec fn spec_dec_state(c: VAGChunk, j: int, h1: int, h2: int) -> (int, int)
    decreases j,
{
    if j <= 0 {
        (h1, h2)
    } else {
        let hp = spec_dec_state(c, j - 1, h1, h2);
        (spec_dec_sat(spec_dec_sample(c, j - 1, hp.0, hp.1)), hp.0)
    }
}

/// The 28 PCM samples of one chunk, decoded from the given history.
pub open spec fn spec_chunk_pcm(c: VAGChunk, h1: int, h2: int) -> Seq<i16> {
    Seq::new(
        28,
        |j: int|
            {
                let hp = spec_dec_state(c, j, h1, h2);
                spec_clamp16(spec_dec_sample(c, j, hp.0, hp.1))
            },
    )
}

/// Decode a chunk sequence, halting at the first `PlaybackEnd` chunk.
pub open spec fn spec_decode_chunks(cs: Seq<VAGChunk>, h1: int, h2: int) -> Seq<i16>
    decreases cs.len(),
{
    if cs.len() == 0 {
        Seq::empty()
    } else if cs[0].flags == VAGFlag::PlaybackEnd {
        Seq::empty()
    } else {
        let hn = spec_dec_state(cs[0], 28, h1, h2);
        spec_chunk_pcm(cs[0], h1, h2) + spec_decode_chunks(cs.skip(1), hn.0, hn.1)
    }
}

/// The PCM stream a chunk sequence decodes to, from zero history.
pub open spec fn spec_vag_pcm(cs: Seq<VAGChunk>) -> Seq<i16> {
    spec_decode_chunks(cs, 0, 0)
}

/// Every decoded sample lies in the 16-bit range: the decoder clamps each
/// predictor output before emitting it.
pub proof fn lemma_decode_bound(cs: Seq<VAGChunk>)
    ensures
        forall|i: int|
            0 <= i < spec_vag_pcm(cs).len() ==> i16::MIN <= #[trigger] spec_vag_pcm(cs)[i]
                <= i16::MAX,
{
}

/// Decode VAG chunks into their PCM samples.
#[verifier::rlimit(50)]
pub fn decode_chunks(chunks: &Vec<VAGChunk>) -> (out: Vec<i16>)
    ensures
        out@ == spec_vag_pcm(chunks@),
{
    let mut out: Vec<i16> = Vec::new();
    let mut h1: i64 = 0;
    let mut h2: i64 = 0;
    let mut ci: usize = 0;
    let n = chunks.len();
    proof {
        assert(chunks@.skip(0) =~= chunks@);
    }
    while ci < n
        invariant
            ci <= n,
            n == chunks@.len(),
            -0x4000_0000 <= h1 <= 0x4000_0000,
            -0x4000_0000 <= h2 <= 0x4000_0000,
            spec_vag_pcm(chunks@) == out@ + spec_decode_chunks(
                chunks@.skip(ci as int),
                h1 as int,
                h2 as int,
            ),
        ensures
            spec_vag_pcm(chunks@) == out@,
        decreases n - ci,
    {
        let c: VAGChunk = chunks[ci];
        proof {
            assert(chunks@.skip(ci as int)[0] == c);
        }
        if c.flags == VAGFlag::PlaybackEnd {
            proof {
                assert(spec_decode_chunks(chunks@.skip(ci as int), h1 as int, h2 as int)
                    =~= Seq::<i16>::empty());
                assert(spec_vag_pcm(chunks@) =~= out@);
            }
            break;
        }
        let shift = c.pack_infos.0 & 0xf;
        let predict_raw = c.pack_infos.0 >> 4;
        proof {
            let b = c.pack_infos.0;
            assert(b & 0xf < 16) by (bit_vector);
            assert(b >> 4 < 16) by (bit_vector);
        }
        let predict = if predict_raw > 4 {
            4
        } else {
            predict_raw
        };
        let c0 = dec_c0(predict);
        let c1 = dec_c1(predict);
        let divisor = pow2_sel(shift);
        let ghost h1_0 = h1 as int;
        let ghost h2_0 = h2 as int;
        let ghost base = out@;
        let mut j: usize = 0;
        while j < VAG_SAMPLE_NIBBL
            invariant
                j <= VAG_SAMPLE_NIBBL,
                ci < chunks@.len(),
                c == chunks@[ci as int],
                c.flags != VAGFlag::PlaybackEnd,
                shift == c.pack_infos.0 & 0xf,
                shift < 16,
                c0 == spec_dec_c0(spec_chunk_predict(c)),
                c1 == spec_dec_c1(spec_chunk_predict(c)),
                0 <= c0 <= 122,
                -60 <= c1 <= 0,
                divisor == spec_pow2_sel(spec_chunk_shift(c)),
                1 <= divisor <= 32768,
                -0x4000_0000 <= h1 <= 0x4000_0000,
                -0x4000_0000 <= h2 <= 0x4000_0000,
                (h1 as int, h2 as int) == spec_dec_state(c, j as int, h1_0, h2_0),
                out@ == base + spec_chunk_pcm(c, h1_0, h2_0).subrange(0, j as int),
            decreases VAG_SAMPLE_NIBBL - j,
        {
            let byte = c.sample[j / 2];
            let nib: u8 = if j % 2 == 0 {
                byte & 0xf
            } else {
                byte >> 4
            };
            proof {
                assert(byte & 0xf < 16) by (bit_vector);
                assert(byte >> 4 < 16) by (bit_vector);
                assert(nib == spec_chunk_nib(c, j as int));
            }
            let sv: i64 = if nib >= 8 {
                nib as i64 - 16
            } else {
                nib as i64
            };
            let shifted = div_floor(sv * 4096, divisor);
            proof {
                assert(-(122 * 0x4000_0000i64) <= h1 * c0 <= 122 * 0x4000_0000i64)
                    by (nonlinear_arith)
                    requires
                        -0x4000_0000 <= h1 <= 0x4000_0000,
                        0 <= c0 <= 122,
                ;
                assert(-(60 * 0x4000_0000i64) <= h2 * c1 <= 60 * 0x4000_0000i64)
                    by (nonlinear_arith)
                    requires
                        -0x4000_0000 <= h2 <= 0x4000_0000,
                        -60 <= c1 <= 0,
                ;
            }
            let pred = div_floor(h1 * c0 + h2 * c1, 64);
            let s = shifted + pred;
            proof {
                assert(s == spec_dec_sample(c, j as int, h1 as int, h2 as int));
            }
            out.push(clamp16(s));
            let new_h1 = dec_sat(s);
            h2 = h1;
            h1 = new_h1;
            proof {
                assert((h1 as int, h2 as int) == spec_dec_state(c, j + 1, h1_0, h2_0));
                assert(out@ =~= base + spec_chunk_pcm(c, h1_0, h2_0).subrange(0, j + 1));
            }
            j = j + 1;
        }
        proof {
            assert(spec_chunk_pcm(c, h1_0, h2_0).subrange(0, 28) =~= spec_chunk_pcm(
                c,
                h1_0,
                h2_0,
            ));
            assert(chunks@.skip(ci as int).skip(1) =~= chunks@.skip(ci + 1));
            assert(spec_decode_chunks(chunks@.skip(ci as int), h1_0, h2_0) == spec_chunk_pcm(
                c,
                h1_0,
                h2_0,
            ) + spec_decode_chunks(chunks@.skip(ci + 1), h1 as int, h2 as int));
        }
        ci = ci + 1;
    }
    out
}

/// A decoder from a VAG file to PCM samples or a WAV file.
pub struct VAG2WAVDecoder<'a> {
    pub vag: &'a VagAudio,
}

impl<'a> VAG2WAVDecoder<'a> {
    /// A decoder over the given file's chunks.
    pub fn new(vag: &'a VagAudio) -> (r: VAG2WAVDecoder<'a>)
        ensures
            r.vag == vag,
    {
        VAG2WAVDecoder { vag }
    }

    /// The decoded PCM samples.
    pub fn to_decoded(&self) -> (out: Vec<i16>)
        ensures
            out@ == spec_vag_pcm(self.vag.0.chunks@),
    {
        decode_chunks(&self.vag.0.chunks)
    }

    /// The decoded samples as a mono 16-bit WAV at the file's rate; a
    /// stored channel count of zero plays as mono.
    pub fn to_wav(&self) -> (w: Wav)
        ensures
            w.channels == (if self.vag.0.channels == 0 {
                1u16
            } else {
                self.vag.0.channels
            }),
            w.sample_rate == self.vag.0.sample_rate,
            w.bits_per_sample == 16u16,
            w.samples@ == spec_vag_pcm(self.vag.0.chunks@),
    {
        let channels: u16 = if self.vag.0.channels == 0 {
            1
        } else {
            self.vag.0.channels
        };
        Wav {
            channels,
            sample_rate: self.vag.0.sample_rate,
            bits_per_sample: 16,
            samples: self.to_decoded(),
        }
    }
}

impl VagAudio {
    /// A decoder over this file's chunks.
    pub fn decoder(&self) -> (r: VAG2WAVDecoder<'_>)
        ensures
            r == (VAG2WAVDecoder { vag: self }),
    {
        VAG2WAVDecoder::new(self)
    }

    /// Decode the file to a mono 16-bit WAV.
    pub fn to_wav(&self) -> (w: Wav)
        ensures
            w.channels == (if self.0.channels == 0 {
                1u16
            } else {
                self.0.channels
            }),
            w.sample_rate == self.0.sample_rate,
            w.bits_per_sample == 16u16,
            w.samples@ == spec_vag_pcm(self.0.chunks@),
    {
        self.decoder().to_wav()
    }
}

/// Clamp a sample into the encoder's working range.
pub open spec fn spec_clamp_enc(x: int) -> int {
    if x < -30720 {
        -30720
    } else if x > 30719 {
        30719
    } else {
        x
    }
}

fn clamp_enc(x: i64) -> (r: i64)
    ensures
        r == spec_clamp_enc(x as int),
        -30720 <= r <= 30719,
{
    if x < -30720 {
        -30720
    } else if x > 30719 {
        30719
    } else {
        x
    }
}

/// First encoder coefficient: the negative of the decoder's.
pub open spec fn spec_enc_e0(p: int) -> int {
    -spec_dec_c0(p)
}

/// Second encoder coefficient: the negative of the decoder's.
pub open spec fn spec_enc_e1(p: int) -> int {
    -spec_dec_c1(p)
}

/// The input sample one step before position `n` of a window, clamped;
/// for the first position it is the history carried in from the previous
/// chunk.
pub open spec fn spec_sprev1(w: Seq<i16>, s1: int, n: int) -> int {
    if n == 0 {
        s1
    } else {
        spec_clamp_enc(w[n - 1] as int)
    }
}

/// The input sample two steps before position `n` of a window, clamped.
pub open spec fn spec_sprev2(w: Seq<i16>, s1: int, s2: int, n: int) -> int {
    if n == 0 {
        s2
    } else if n == 1 {
        s1
    } else {
        spec_clamp_enc(w[n - 2] as int)
    }
}

/// The filtered difference at position `n` of a window, in units of
/// 1/64: 64 times the clamped sample plus the two-tap filter over the
/// two previous clamped samples.
pub open spec fn spec_ds64(w: Seq<i16>, s1: int, s2: int, p: int, n: int) -> int {
    64 * spec_clamp_enc(w[n] as int) + spec_enc_e0(p) * spec_sprev1(w, s1, n) + spec_enc_e1(p)
        * spec_sprev2(w, s1, s2, n)
}

/// Largest magnitude of the filtered differences over the first `n`
/// positions, in units of 1/64.
pub open spec fn spec_maxabs(w: Seq<i16>, s1: int, s2: int, p: int, n: int) -> int
    decreases n,
{
    if n <= 0 {
        0
    } else {
        let m = spec_maxabs(w, s1, s2, p, n - 1);
        let d = spec_ds64(w, s1, s2, p, n - 1);
        let a = if d < 0 {
            -d
        } else {
            d
        };
        if a > m {
            a
        } else {
            m
        }
    }
}

/// Initial best-so-far for predictor selection; any real window beats it.
pub open spec fn spec_enc_min_init() -> int {
    640_000_000_000
}

/// Predictor selection from predictor `p` on, carrying the best so far:
/// the predictor with the smallest peak difference wins, earlier ones win
/// ties, and a peak at or below 7 (448/64) settles for predictor 0 at
/// once.
pub open spec fn spec_choose_from(
    w: Seq<i16>,
    s1: int,
    s2: int,
    p: int,
    best_p: int,
    best_min: int,
) -> (int, int)
    decreases 5 - p,
{
    if p >= 5 {
        (best_p, best_min)
    } else {
        let m = spec_maxabs(w, s1, s2, p, 28);
        let bp = if m < best_min {
            p
        } else {
            best_p
        };
        let bm = if m < best_min {
            m
        } else {
            best_min
        };
        if bm <= 448 {
            (0, bm)
        } else {
            spec_choose_from(w, s1, s2, p + 1, bp, bm)
        }
    }
}

/// The chosen predictor and its peak difference for one window.
pub open spec fn spec_choose(w: Seq<i16>, s1: int, s2: int) -> (int, int) {
    spec_choose_from(w, s1, s2, 0, 0, spec_enc_min_init())
}

/// Shift selection: walk a mask down from bit 14 until it meets the peak.
pub open spec fn spec_shift_from(m: u64, shift: int, mask: u64) -> int
    decreases 12 - shift,
{
    if shift >= 12 {
        12
    } else if mask & ((m + (mask >> 3)) as u64) != 0 {
        shift
    } else {
        spec_shift_from(m, shift + 1, mask >> 1)
    }
}

/// The shift factor chosen for a peak difference in units of 1/64.
pub open spec fn spec_shift_sel(min64: int) -> int {
    spec_shift_from((min64 / 64) as u64, 0, 0x4000)
}

/// Saturate the encoder's fixed-point history.
pub open spec fn spec_enc_sat(x: int) -> int {
    if x < -0x100_0000_0000 {
        -0x100_0000_0000
    } else if x > 0x100_0000_0000 {
        0x100_0000_0000
    } else {
        x
    }
}

fn enc_sat(x: i64) -> (r: i64)
    ensures
        r == spec_enc_sat(x as int),
{
    if x < -ENC_HIST_SAT {
        -ENC_HIST_SAT
    } else if x > ENC_HIST_SAT {
        ENC_HIST_SAT
    } else {
        x
    }
}

/// The closed-loop residual at position `n`, in 16-bit fixed point: the
/// filtered difference plus the two-tap filter over the quantization
/// error history.
pub open spec fn spec_strans(
    w: Seq<i16>,
    s1: int,
    s2: int,
    p: int,
    h1f: int,
    h2f: int,
    n: int,
) -> int {
    spec_ds64(w, s1, s2, p, n) * 1024 + (h1f * spec_enc_e0(p) + h2f * spec_enc_e1(p)) / 64
}

/// Quantize a fixed-point residual at the given shift: scale up, round
/// to the 12-bit quantization step, clamp to the 16-bit range.
pub open spec fn spec_q(st: int, shift: int) -> int {
    let s_int = (st * spec_pow2_sel(shift)) / 65536;
    let q0 = ((s_int + 2048) / 4096) * 4096;
    if q0 < -32768 {
        -32768
    } else if q0 > 32767 {
        32767
    } else {
        q0
    }
}

/// The quantization-error history after the first `n` positions of a
/// window's pack phase.
pub open spec fn spec_pack_h(
    w: Seq<i16>,
    s1: int,
    s2: int,
    p: int,
    shift: int,
    h1f: int,
    h2f: int,
    n: int,
) -> (int, int)
    decreases n,
{
    if n <= 0 {
        (h1f, h2f)
    } else {
        let hp = spec_pack_h(w, s1, s2, p, shift, h1f, h2f, n - 1);
        let st = spec_strans(w, s1, s2, p, hp.0, hp.1, n - 1);
        let q = spec_q(st, shift);
        let fb = q / spec_pow2_sel(shift);
        (spec_enc_sat(fb * 65536 - st), hp.0)
    }
}

/// The 4-bit code emitted at position `n` of a window's pack phase.
pub open spec fn spec_pack_nib(
    w: Seq<i16>,
    s1: int,
    s2: int,
    p: int,
    shift: int,
    h1f: int,
    h2f: int,
    n: int,
) -> u8 {
    let hp = spec_pack_h(w, s1, s2, p, shift, h1f, h2f, n);
    let st = spec_strans(w, s1, s2, p, hp.0, hp.1, n);
    ((spec_q(st, shift) / 4096) % 16) as u8
}

/// The encoder state carried across chunks: the last two clamped input
/// samples and the fixed-point quantization-error history.
pub open spec fn spec_chunk_state_out(w: Seq<i16>, st: (int, int, int, int)) -> (
    int,
    int,
    int,
    int,
) {
    let pm = spec_choose(w, st.0, st.1);
    let shift = spec_shift_sel(pm.1);
    let h = spec_pack_h(w, st.0, st.1, pm.0, shift, st.2, st.3, 28);
    (spec_clamp_enc(w[27] as int), spec_clamp_enc(w[26] as int), h.0, h.1)
}

/// The encoder state before chunk `idx` of a padded sample stream.
pub open spec fn spec_enc_st(samples: Seq<i16>, idx: int) -> (int, int, int, int)
    decreases idx,
{
    if idx <= 0 {
        (0, 0, 0, 0)
    } else {
        spec_chunk_state_out(
            samples.subrange(28 * (idx - 1), 28 * idx),
            spec_enc_st(samples, idx - 1),
        )
    }
}

/// The pack byte of chunk `idx`: predictor in the high nibble, shift in
/// the low nibble.
pub open spec fn spec_enc_pack_byte(samples: Seq<i16>, idx: int) -> u8 {
    let st = spec_enc_st(samples, idx);
    let w = samples.subrange(28 * idx, 28 * idx + 28);
    let pm = spec_choose(w, st.0, st.1);
    (pm.0 * 16 + spec_shift_sel(pm.1)) as u8
}

/// The 14 sample bytes of chunk `idx`: two 4-bit codes per byte, the
/// even-positioned code in the low nibble.
pub open spec fn spec_enc_sample_bytes(samples: Seq<i16>, idx: int) -> Seq<u8> {
    let st = spec_enc_st(samples, idx);
    let w = samples.subrange(28 * idx, 28 * idx + 28);
    let pm = spec_choose(w, st.0, st.1);
    let shift = spec_shift_sel(pm.1);
    Seq::new(
        14,
        |i: int| (spec_pack_nib(w, st.0, st.1, pm.0, shift, st.2, st.3, 2 * i) + 16
            * spec_pack_nib(w, st.0, st.1, pm.0, shift, st.2, st.3, 2 * i + 1)) as u8,
    )
}

/// The flag of data chunk `idx` out of `nchunks`.
pub open spec fn spec_enc_flag(
    idx: int,
    nchunks: int,
    use_loop: bool,
    ls: int,
    le: int,
) -> VAGFlag {
    if idx + 1 < nchunks {
        if use_loop {
            if idx == le {
                VAGFlag::LoopEnd
            } else if idx == ls {
                VAGFlag::LoopStart
            } else {
                VAGFlag::LoopRegion
            }
        } else {
            VAGFlag::Nothing
        }
    } else {
        if use_loop {
            VAGFlag::LoopEnd
        } else {
            VAGFlag::LoopLastBlock
        }
    }
}

/// How many data chunks are emitted: a loop whose end falls before the
/// last chunk halts the encoder right after it.
pub open spec fn spec_enc_n_data(nchunks: int, use_loop: bool, le: int) -> int {
    if use_loop && nchunks > 0 && le < nchunks - 1 {
        le + 1
    } else {
        nchunks
    }
}

fn enc_e0(p: u8) -> (r: i64)
    ensures
        r == spec_enc_e0(p as int),
        -122 <= r <= 0,
{
    -dec_c0(p)
}

fn enc_e1(p: u8) -> (r: i64)
    ensures
        r == spec_enc_e1(p as int),
        0 <= r <= 60,
{
    -dec_c1(p)
}

/// Peak magnitude of the filtered differences of one window under
/// predictor `p`, in units of 1/64.
#[verifier::rlimit(50)]
fn window_maxabs(samples: &Vec<i16>, base: usize, s1: i64, s2: i64, p: u8) -> (m: i64)
    requires
        base + 28 <= samples@.len(),
        -30720 <= s1 <= 30719,
        -30720 <= s2 <= 30719,
    ensures
        m == spec_maxabs(samples@.subrange(base as int, base + 28), s1 as int, s2 as int, p as int, 28),
        0 <= m <= 7_557_120,
{
    let ghost w = samples@.subrange(base as int, base + 28);
    let slen = samples.len();
    let e0 = enc_e0(p);
    let e1 = enc_e1(p);
    let mut m: i64 = 0;
    let mut ps1: i64 = s1;
    let mut ps2: i64 = s2;
    let mut n: usize = 0;
    while n < 28
        invariant
            n <= 28,
            base + 28 <= samples@.len(),
            slen == samples@.len(),
            w == samples@.subrange(base as int, base + 28),
            e0 == spec_enc_e0(p as int),
            e1 == spec_enc_e1(p as int),
            -122 <= e0 <= 0,
            0 <= e1 <= 60,
            -30720 <= ps1 <= 30719,
            -30720 <= ps2 <= 30719,
            ps1 == spec_sprev1(w, s1 as int, n as int),
            ps2 == spec_sprev2(w, s1 as int, s2 as int, n as int),
            m == spec_maxabs(w, s1 as int, s2 as int, p as int, n as int),
            0 <= m <= 7_557_120,
        decreases 28 - n,
    {
        let cur = clamp_enc(samples[base + n] as i64);
        proof {
            assert(w[n as int] == samples@[base + n]);
            assert(-(122i64 * 30720) <= e0 * ps1 <= 122i64 * 30720) by (nonlinear_arith)
                requires
                    -122 <= e0 <= 0,
                    -30720 <= ps1 <= 30719,
            ;
            assert(-(60i64 * 30720) <= e1 * ps2 <= 60i64 * 30720) by (nonlinear_arith)
                requires
                    0 <= e1 <= 60,
                    -30720 <= ps2 <= 30719,
            ;
        }
        let d = 64 * cur + e0 * ps1 + e1 * ps2;
        let a = if d < 0 {
            -d
        } else {
            d
        };
        if a > m {
            m = a;
        }
        ps2 = ps1;
        ps1 = cur;
        proof {
            assert(d == spec_ds64(w, s1 as int, s2 as int, p as int, n as int));
            assert(ps1 == spec_sprev1(w, s1 as int, n + 1));
            assert(ps2 == spec_sprev2(w, s1 as int, s2 as int, n + 1));
        }
        n = n + 1;
    }
    m
}

/// Choose the predictor for one window: the smallest peak wins, and a
/// peak of at most 7 settles for predictor 0 at once.
fn choose_predictor(samples: &Vec<i16>, base: usize, s1: i64, s2: i64) -> (r: (u8, i64))
    requires
        base + 28 <= samples@.len(),
        -30720 <= s1 <= 30719,
        -30720 <= s2 <= 30719,
    ensures
        (r.0 as int, r.1 as int) == spec_choose(
            samples@.subrange(base as int, base + 28),
            s1 as int,
            s2 as int,
        ),
        r.0 <= 4,
        0 <= r.1 <= 7_557_120,
{
    let ghost w = samples@.subrange(base as int, base + 28);
    let mut best_p: u8 = 0;
    let mut best_min: i64 = 640_000_000_000;
    let mut p: u8 = 0;
    while p < 5
        invariant_except_break
            best_min > 448,
            spec_choose(w, s1 as int, s2 as int) == spec_choose_from(
                w,
                s1 as int,
                s2 as int,
                p as int,
                best_p as int,
                best_min as int,
            ),
        invariant
            p <= 5,
            base + 28 <= samples@.len(),
            w == samples@.subrange(base as int, base + 28),
            -30720 <= s1 <= 30719,
            -30720 <= s2 <= 30719,
            best_p <= 4,
            0 <= best_min <= 640_000_000_000,
            p > 0 ==> best_min <= 7_557_120,
        ensures
            (best_p as int, best_min as int) == spec_choose(w, s1 as int, s2 as int),
            0 <= best_min <= 7_557_120,
            best_p <= 4,
        decreases 5 - p,
    {
        let m = window_maxabs(samples, base, s1, s2, p);
        if m < best_min {
            best_min = m;
            best_p = p;
        }
        if best_min <= 448 {
            proof {
                assert((0int, best_min as int) == spec_choose(w, s1 as int, s2 as int));
            }
            best_p = 0;
            break;
        }
        p = p + 1;
    }
    (best_p, best_min)
}

/// Shift selection for a peak difference in units of 1/64.
fn select_shift(min64: i64) -> (r: u8)
    requires
        0 <= min64 <= 7_557_120,
    ensures
        r as int == spec_shift_sel(min64 as int),
        r <= 12,
{
    let m = (min64 as u64) / 64;
    let mut shift: u8 = 0;
    let mut mask: u64 = 0x4000;
    proof {
        assert(m == min64 as int / 64);
    }
    while shift < 12
        invariant
            shift <= 12,
            0 <= min64,
            m == (min64 as int / 64) as u64,
            m <= 0x2_0000,
            mask <= 0x4000,
            spec_shift_sel(min64 as int) == spec_shift_from(m, shift as int, mask),
        ensures
            shift as int == spec_shift_sel(min64 as int),
        decreases 12 - shift,
    {
        proof {
            assert(mask <= 0x4000 ==> ((mask >> 3) <= 0x4000 && (mask >> 1) <= 0x4000))
                by (bit_vector);
        }
        if mask & (m + (mask >> 3)) != 0 {
            break;
        }
        shift = shift + 1;
        mask = mask >> 1;
    }
    shift
}


/// Fourteen bytes built from consecutive 4-bit code pairs are exactly
/// the packed sample-byte sequence.
#[verifier::spinoff_prover]
#[verifier::rlimit(100)]
proof fn lemma_pack_arr(
    w: Seq<i16>,
    s1: int,
    s2: int,
    p: int,
    shift: int,
    h1f: int,
    h2f: int,
    bs: Seq<u8>,
)
    requires
        bs.len() == 14,
        forall|k: int| 0 <= k < 14 ==> #[trigger] bs[k] == (spec_pack_nib(
            w,
            s1,
            s2,
            p,
            shift,
            h1f,
            h2f,
            2 * k,
        ) + 16 * spec_pack_nib(w, s1, s2, p, shift, h1f, h2f, 2 * k + 1)) as u8,
    ensures
        bs == Seq::new(
            14,
            |i: int| (spec_pack_nib(w, s1, s2, p, shift, h1f, h2f, 2 * i) + 16 * spec_pack_nib(
                w,
                s1,
                s2,
                p,
                shift,
                h1f,
                h2f,
                2 * i + 1,
            )) as u8,
        ),
{
    assert(bs =~= Seq::new(
        14,
        |i: int| (spec_pack_nib(w, s1, s2, p, shift, h1f, h2f, 2 * i) + 16 * spec_pack_nib(
            w,
            s1,
            s2,
            p,
            shift,
            h1f,
            h2f,
            2 * i + 1,
        )) as u8,
    ));
}

/// Pack one window into 14 sample bytes at the chosen predictor and
/// shift, advancing the fixed-point quantization-error history.
#[verifier::spinoff_prover]
#[verifier::rlimit(100)]
fn pack_window(
    samples: &Vec<i16>,
    base: usize,
    s1: i64,
    s2: i64,
    p: u8,
    shift: u8,
    h1f: i64,
    h2f: i64,
) -> (r: ([u8; 14], i64, i64))
    requires
        base + 28 <= samples@.len(),
        -30720 <= s1 <= 30719,
        -30720 <= s2 <= 30719,
        p <= 4,
        shift <= 12,
        -0x100_0000_0000 <= h1f <= 0x100_0000_0000,
        -0x100_0000_0000 <= h2f <= 0x100_0000_0000,
    ensures
        ({
            let w = samples@.subrange(base as int, base + 28);
            let hend = spec_pack_h(
                w,
                s1 as int,
                s2 as int,
                p as int,
                shift as int,
                h1f as int,
                h2f as int,
                28,
            );
            &&& r.0@ == Seq::new(
                14,
                |i: int| (spec_pack_nib(
                    w,
                    s1 as int,
                    s2 as int,
                    p as int,
                    shift as int,
                    h1f as int,
                    h2f as int,
                    2 * i,
                ) + 16 * spec_pack_nib(
                    w,
                    s1 as int,
                    s2 as int,
                    p as int,
                    shift as int,
                    h1f as int,
                    h2f as int,
                    2 * i + 1,
                )) as u8,
            )
            &&& r.1 as int == hend.0
            &&& r.2 as int == hend.1
            &&& -0x100_0000_0000 <= r.1 <= 0x100_0000_0000
            &&& -0x100_0000_0000 <= r.2 <= 0x100_0000_0000
        }),
{
    let ghost w = samples@.subrange(base as int, base + 28);
    let slen = samples.len();
    let e0 = enc_e0(p);
    let e1 = enc_e1(p);
    let factor = pow2_sel(shift);
    let mut nibs: Vec<u8> = Vec::new();
    let mut h1: i64 = h1f;
    let mut h2: i64 = h2f;
    let mut ps1: i64 = s1;
    let mut ps2: i64 = s2;
    let mut n: usize = 0;
    while n < 28
        invariant
            n <= 28,
            base + 28 <= samples@.len(),
            slen == samples@.len(),
            w == samples@.subrange(base as int, base + 28),
            e0 == spec_enc_e0(p as int),
            e1 == spec_enc_e1(p as int),
            -122 <= e0 <= 0,
            0 <= e1 <= 60,
            shift <= 12,
            factor == spec_pow2_sel(shift as int),
            1 <= factor <= 4096,
            -30720 <= ps1 <= 30719,
            -30720 <= ps2 <= 30719,
            ps1 == spec_sprev1(w, s1 as int, n as int),
            ps2 == spec_sprev2(w, s1 as int, s2 as int, n as int),
            -0x100_0000_0000 <= h1 <= 0x100_0000_0000,
            -0x100_0000_0000 <= h2 <= 0x100_0000_0000,
            (h1 as int, h2 as int) == spec_pack_h(
                w,
                s1 as int,
                s2 as int,
                p as int,
                shift as int,
                h1f as int,
                h2f as int,
                n as int,
            ),
            nibs@.len() == n,
            forall|k: int| 0 <= k < n ==> nibs@[k] == spec_pack_nib(
                w,
                s1 as int,
                s2 as int,
                p as int,
                shift as int,
                h1f as int,
                h2f as int,
                k,
            ),
        decreases 28 - n,
    {
        let cur = clamp_enc(samples[base + n] as i64);
        proof {
            assert(w[n as int] == samples@[base + n]);
            assert(-(122i64 * 30720) <= e0 * ps1 <= 122i64 * 30720) by (nonlinear_arith)
                requires
                    -122 <= e0 <= 0,
                    -30720 <= ps1 <= 30719,
            ;
            assert(-(60i64 * 30720) <= e1 * ps2 <= 60i64 * 30720) by (nonlinear_arith)
                requires
                    0 <= e1 <= 60,
                    -30720 <= ps2 <= 30719,
            ;
        }
        let ds: i64 = 64 * cur + e0 * ps1 + e1 * ps2;
        proof {
            assert(ds == spec_ds64(w, s1 as int, s2 as int, p as int, n as int));
            assert(-(122i64 * 0x100_0000_0000) <= h1 * e0 <= 122i64 * 0x100_0000_0000)
                by (nonlinear_arith)
                requires
                    -122 <= e0 <= 0,
                    -0x100_0000_0000 <= h1 <= 0x100_0000_0000,
            ;
            assert(-(60i64 * 0x100_0000_0000) <= h2 * e1 <= 60i64 * 0x100_0000_0000)
                by (nonlinear_arith)
                requires
                    0 <= e1 <= 60,
                    -0x100_0000_0000 <= h2 <= 0x100_0000_0000,
            ;
        }
        let st: i64 = ds * 1024 + div_floor(h1 * e0 + h2 * e1, 64);
        proof {
            assert(st == spec_strans(w, s1 as int, s2 as int, p as int, h1 as int, h2 as int, n as int));
            assert(-0x800_0000_0000i64 * 4096 <= st * factor <= 0x800_0000_0000i64 * 4096)
                by (nonlinear_arith)
                requires
                    -0x800_0000_0000 <= st <= 0x800_0000_0000,
                    1 <= factor <= 4096,
            ;
        }
        let s_int = div_floor(st * factor, 65536);
        let q0 = div_floor(s_int + 2048, 4096) * 4096;
        let q: i64 = if q0 < -32768 {
            -32768
        } else if q0 > 32767 {
            32767
        } else {
            q0
        };
        proof {
            assert(q == spec_q(st as int, shift as int));
        }
        let fb = div_floor(q, factor);
        let nib_q = div_floor(q, 4096);
        let nib: u8 = if nib_q < 0 {
            (nib_q + 16) as u8
        } else {
            nib_q as u8
        };
        proof {
            assert(-8 <= nib_q <= 7);
            if nib_q < 0 {
                assert((q as int / 4096) % 16 == nib_q + 16) by (nonlinear_arith)
                    requires
                        nib_q == q as int / 4096,
                        -8 <= nib_q < 0,
                ;
            } else {
                assert((q as int / 4096) % 16 == nib_q) by (nonlinear_arith)
                    requires
                        nib_q == q as int / 4096,
                        0 <= nib_q <= 7,
                ;
            }
            assert(nib == spec_pack_nib(
                w,
                s1 as int,
                s2 as int,
                p as int,
                shift as int,
                h1f as int,
                h2f as int,
                n as int,
            ));
        }
        nibs.push(nib);
        let new_h1 = enc_sat(fb * 65536 - st);
        h2 = h1;
        h1 = new_h1;
        ps2 = ps1;
        ps1 = cur;
        proof {
            assert((h1 as int, h2 as int) == spec_pack_h(
                w,
                s1 as int,
                s2 as int,
                p as int,
                shift as int,
                h1f as int,
                h2f as int,
                n + 1,
            ));
            assert(ps1 == spec_sprev1(w, s1 as int, n + 1));
            assert(ps2 == spec_sprev2(w, s1 as int, s2 as int, n + 1));
        }
        n = n + 1;
    }
    let mut bytes: Vec<u8> = Vec::new();
    let mut i: usize = 0;
    while i < 14
        invariant
            i <= 14,
            nibs@.len() == 28,
            forall|k: int| 0 <= k < 28 ==> nibs@[k] == spec_pack_nib(
                w,
                s1 as int,
                s2 as int,
                p as int,
                shift as int,
                h1f as int,
                h2f as int,
                k,
            ),
            forall|k: int| 0 <= k < 28 ==> nibs@[k] < 16,
            bytes@.len() == i,
            forall|k: int| 0 <= k < i ==> bytes@[k] == (spec_pack_nib(
                w,
                s1 as int,
                s2 as int,
                p as int,
                shift as int,
                h1f as int,
                h2f as int,
                2 * k,
            ) + 16 * spec_pack_nib(
                w,
                s1 as int,
                s2 as int,
                p as int,
                shift as int,
                h1f as int,
                h2f as int,
                2 * k + 1,
            )) as u8,
        decreases 14 - i,
    {
        let b = nibs[2 * i] + 16 * nibs[2 * i + 1];
        bytes.push(b);
        i = i + 1;
    }
    let arr: [u8; 14] = [
        bytes[0], bytes[1], bytes[2], bytes[3], bytes[4], bytes[5], bytes[6], bytes[7],
        bytes[8], bytes[9], bytes[10], bytes[11], bytes[12], bytes[13],
    ];
    proof {
        assert(arr@ =~= bytes@);
        lemma_pack_arr(
            w,
            s1 as int,
            s2 as int,
            p as int,
            shift as int,
            h1f as int,
            h2f as int,
            bytes@,
        );
    }
    (arr, h1, h2)
}

fn enc_flag(idx: usize, nchunks: usize, use_loop: bool, ls: usize, le: usize) -> (f: VAGFlag)
    requires
        idx < nchunks,
    ensures
        f == spec_enc_flag(idx as int, nchunks as int, use_loop, ls as int, le as int),
{
    if idx + 1 < nchunks {
        if use_loop {
            if idx == le {
                VAGFlag::LoopEnd
            } else if idx == ls {
                VAGFlag::LoopStart
            } else {
                VAGFlag::LoopRegion
            }
        } else {
            VAGFlag::Nothing
        }
    } else {
        if use_loop {
            VAGFlag::LoopEnd
        } else {
            VAGFlag::LoopLastBlock
        }
    }
}

/// The data chunks of an encode run match the chunk-by-chunk encoder
/// specification, and a non-looping run ends with a synthetic
/// `PlaybackEnd` chunk carrying the last data chunk's pack byte.
pub open spec fn spec_encoded_chunks_ok(
    chunks: Seq<VAGChunk>,
    samples: Seq<i16>,
    use_loop: bool,
    ls: int,
    le: int,
) -> bool {
    let n = samples.len() as int / 28;
    let ndata = spec_enc_n_data(n, use_loop, le);
    &&& chunks.len() == ndata + (if !use_loop && ndata > 0 {
        1int
    } else {
        0int
    })
    &&& forall|k: int| 0 <= k < ndata ==> {
        &&& (#[trigger] chunks[k]).pack_infos.0 == spec_enc_pack_byte(samples, k)
        &&& chunks[k].flags == spec_enc_flag(k, n, use_loop, ls, le)
        &&& chunks[k].sample@ == spec_enc_sample_bytes(samples, k)
    }
    &&& (!use_loop && ndata > 0) ==> {
        &&& chunks[ndata].pack_infos == chunks[ndata - 1].pack_infos
        &&& chunks[ndata].flags == VAGFlag::PlaybackEnd
        &&& chunks[ndata].sample@ == Seq::new(14, |i: int| 0u8)
    }
}

/// Encode a padded PCM stream into VAG chunks.
#[verifier::rlimit(100)]
pub fn encode_chunks(samples: &Vec<i16>, use_loop: bool, loop_start: usize, loop_end: usize) -> (out:
    Vec<VAGChunk>)
    requires
        samples@.len() % 28 == 0,
    ensures
        spec_encoded_chunks_ok(out@, samples@, use_loop, loop_start as int, loop_end as int),
{
    let slen = samples.len();
    let n = slen / 28;
    proof {
        assert(n * 28 == slen) by (nonlinear_arith)
            requires
                slen % 28 == 0,
                n == slen / 28,
        ;
    }
    let ndata: usize = if use_loop && n > 0 && loop_end < n - 1 {
        loop_end + 1
    } else {
        n
    };
    let mut out: Vec<VAGChunk> = Vec::new();
    let mut s1: i64 = 0;
    let mut s2: i64 = 0;
    let mut h1: i64 = 0;
    let mut h2: i64 = 0;
    let mut idx: usize = 0;
    while idx < ndata
        invariant
            idx <= ndata,
            ndata <= n,
            ndata as int == spec_enc_n_data(n as int, use_loop, loop_end as int),
            slen == samples@.len(),
            n * 28 == slen,
            n == slen / 28,
            -30720 <= s1 <= 30719,
            -30720 <= s2 <= 30719,
            -0x100_0000_0000 <= h1 <= 0x100_0000_0000,
            -0x100_0000_0000 <= h2 <= 0x100_0000_0000,
            (s1 as int, s2 as int, h1 as int, h2 as int) == spec_enc_st(samples@, idx as int),
            out@.len() == idx,
            forall|k: int| 0 <= k < idx ==> {
                &&& (#[trigger] out@[k]).pack_infos.0 == spec_enc_pack_byte(samples@, k)
                &&& out@[k].flags == spec_enc_flag(
                    k,
                    n as int,
                    use_loop,
                    loop_start as int,
                    loop_end as int,
                )
                &&& out@[k].sample@ == spec_enc_sample_bytes(samples@, k)
            },
        decreases ndata - idx,
    {
        proof {
            assert((idx + 1) * 28 <= n * 28) by (nonlinear_arith)
                requires
                    idx < n,
            ;
            assert(idx * 28 + 28 == (idx + 1) * 28) by (nonlinear_arith);
        }
        let base = idx * 28;
        let ghost w = samples@.subrange(base as int, base + 28);
        let ghost st = spec_enc_st(samples@, idx as int);
        let pm = choose_predictor(samples, base, s1, s2);
        let p = pm.0;
        let shift = select_shift(pm.1);
        let packed = pack_window(samples, base, s1, s2, p, shift, h1, h2);
        let flag = enc_flag(idx, n, use_loop, loop_start, loop_end);
        let pack_byte: u8 = p * 16 + shift;
        let chunk = VAGChunk { pack_infos: PackInfo(pack_byte), flags: flag, sample: packed.0 };
        proof {
            assert((p as int, pm.1 as int) == spec_choose(w, st.0, st.1));
            assert(pack_byte == spec_enc_pack_byte(samples@, idx as int));
            assert(chunk.sample@ =~= spec_enc_sample_bytes(samples@, idx as int));
        }
        out.push(chunk);
        s1 = clamp_enc(samples[base + 27] as i64);
        s2 = clamp_enc(samples[base + 26] as i64);
        h1 = packed.1;
        h2 = packed.2;
        proof {
            assert(w[27] == samples@[base + 27] && w[26] == samples@[base + 26]);
            assert((s1 as int, s2 as int, h1 as int, h2 as int) == spec_chunk_state_out(w, st));
            assert(samples@.subrange(28 * (idx as int), 28 * (idx + 1)) == w);
            assert((s1 as int, s2 as int, h1 as int, h2 as int) == spec_enc_st(
                samples@,
                idx + 1,
            ));
        }
        idx = idx + 1;
    }
    if !use_loop && ndata > 0 {
        let lastp = out[ndata - 1].pack_infos;
        let term = VAGChunk {
            pack_infos: lastp,
            flags: VAGFlag::PlaybackEnd,
            sample: [0, 0, 0, 0, 0, 0, 0, 0, 0, 0, 0, 0, 0, 0],
        };
        proof {
            assert(term.sample@ =~= Seq::new(14, |i: int| 0u8));
        }
        out.push(term);
    }
    out
}

/// How a loop region is chosen when encoding a WAV to VAG.
#[derive(Debug, Clone, Copy, PartialEq, Eq)]
pub enum LoopMode {
    /// Use the WAV's own `smpl` chunk, when present.
    FromInput,
    /// Loop unconditionally.
    ForceLoop,
    /// Never loop.
    ForceNoLoop,
}

/// The four bytes naming a RIFF `smpl` chunk.
pub open spec fn spec_smpl_id() -> Seq<u8> {
    seq![0x73u8, 0x6du8, 0x70u8, 0x6cu8]
}

/// The loop read out of an `smpl` chunk whose payload starts at `p`: the
/// first sample-loop's start and end, `(0, 0)` when the chunk holds no
/// loops, `None` when the chunk is cut short.
pub open spec fn spec_smpl_payload(b: Seq<u8>, p: int) -> Option<(u32, u32)> {
    if p + 36 > b.len() {
        None
    } else {
        let nloops = crate::wire::spec_u32_of_le(b.subrange(p + 32, p + 36));
        if nloops == 0 || nloops >= 0x8000_0000 {
            Some((0u32, 0u32))
        } else if p + 60 <= b.len() {
            Some(
                (
                    crate::wire::spec_u32_of_le(b.subrange(p + 52, p + 56)),
                    crate::wire::spec_u32_of_le(b.subrange(p + 56, p + 60)),
                ),
            )
        } else {
            None
        }
    }
}

/// Walk the RIFF chunk list from `pos` to the first `smpl` chunk.
pub open spec fn spec_find_smpl(b: Seq<u8>, pos: int) -> Option<(u32, u32)>
    decreases b.len() - pos,
{
    if pos < 0 || pos + 8 > b.len() {
        None
    } else if b.subrange(pos, pos + 4) == spec_smpl_id() {
        spec_smpl_payload(b, pos + 8)
    } else {
        let clen = crate::wire::spec_u32_of_le(b.subrange(pos + 4, pos + 8)) as int;
        let next = if pos + 8 + clen > b.len() {
            b.len() as int
        } else {
            pos + 8 + clen
        };
        spec_find_smpl(b, next)
    }
}

/// The loop stored in a WAV file's `smpl` chunk, scanning from right
/// after the 12-byte RIFF/WAVE header.
pub open spec fn spec_smpl_scan(b: Seq<u8>) -> Option<(u32, u32)> {
    spec_find_smpl(b, 12)
}

/// Find the WAV file's `smpl` loop, if any.
pub fn find_smpl(bytes: &[u8]) -> (r: Option<(u32, u32)>)
    ensures
        r == spec_smpl_scan(bytes@),
{
    let len = bytes.len();
    let mut pos: usize = 12;
    loop
        invariant
            len == bytes@.len(),
            0 <= pos,
            spec_smpl_scan(bytes@) == spec_find_smpl(bytes@, pos as int),
        ensures
            spec_smpl_scan(bytes@) == spec_find_smpl(bytes@, pos as int),
            pos + 8 > len || bytes@.subrange(pos as int, pos + 4) == spec_smpl_id(),
        decreases len - pos,
    {
        if pos > len || len - pos < 8 {
            break;
        }
        if bytes[pos] == 0x73 && bytes[pos + 1] == 0x6d && bytes[pos + 2] == 0x70 && bytes[pos
            + 3] == 0x6c {
            proof {
                assert(bytes@.subrange(pos as int, pos + 4) =~= spec_smpl_id());
            }
            break;
        }
        proof {
            assert(bytes@.subrange(pos as int, pos + 4)[0] == bytes@[pos as int]);
            assert(bytes@.subrange(pos as int, pos + 4)[1] == bytes@[pos + 1]);
            assert(bytes@.subrange(pos as int, pos + 4)[2] == bytes@[pos + 2]);
            assert(bytes@.subrange(pos as int, pos + 4)[3] == bytes@[pos + 3]);
        }
        let clen = crate::wire::read_u32_le(bytes, pos + 4) as usize;
        if len - pos - 8 < clen {
            pos = len;
        } else {
            pos = pos + 8 + clen;
        }
    }
    if pos > len || len - pos < 8 {
        return None;
    }
    // an smpl chunk starts here; read its first loop
    let p = pos + 8;
    if len - p < 36 {
        return None;
    }
    let nloops = crate::wire::read_u32_le(bytes, p + 32);
    if nloops == 0 || nloops >= 0x8000_0000 {
        return Some((0, 0));
    }
    if len - p >= 60 {
        let start = crate::wire::read_u32_le(bytes, p + 52);
        let end = crate::wire::read_u32_le(bytes, p + 56);
        Some((start, end))
    } else {
        None
    }
}

/// The chunk index a loop sample offset falls in, one-based, stepping
/// one further past a partly filled chunk; the canonical formula of the
/// format, preserved exactly.
pub open spec fn spec_loop_offset(x: u32) -> int {
    x as int / 28 + if x as int % 28 != 0 {
        2int
    } else {
        1int
    }
}

/// The chunk index for a loop point taken from a WAV `smpl` chunk.
pub fn get_loop_offset(loop_offset: u32) -> (r: u32)
    ensures
        r as int == spec_loop_offset(loop_offset),
{
    loop_offset / 28 + if loop_offset % 28 != 0 {
        2
    } else {
        1
    }
}

/// The encoder's loop chunk bounds for a scanned `smpl` loop: the usual
/// one- and two-chunk adjustments, with the end wrapping to the largest
/// index when the loop ends in the very first chunk, and a no-loop
/// default when no usable `smpl` chunk exists.
pub open spec fn spec_loop_bounds(sm: Option<(u32, u32)>) -> (int, int) {
    match sm {
        Some((a, b)) => (
            spec_loop_offset(a) - 1,
            if spec_loop_offset(b) >= 2 {
                spec_loop_offset(b) - 2
            } else {
                0xFFFF_FFFFint
            },
        ),
        None => (0int, usize::MAX as int),
    }
}

fn loop_bounds(sm: Option<(u32, u32)>) -> (r: (usize, usize))
    ensures
        (r.0 as int, r.1 as int) == spec_loop_bounds(sm),
{
    match sm {
        Some((a, b)) => {
            let s = get_loop_offset(a) - 1;
            let eoff = get_loop_offset(b);
            let e: usize = if eoff >= 2 {
                (eoff - 2) as usize
            } else {
                0xFFFF_FFFFusize
            };
            (s as usize, e)
        }
        None => (0, usize::MAX),
    }
}

/// `s` zero-padded on the right to a whole number of 28-sample chunks.
pub open spec fn spec_pad28(s: Seq<i16>) -> Seq<i16> {
    if s.len() % 28 == 0 {
        s
    } else {
        s + Seq::new((28 - s.len() % 28) as nat, |i: int| 0i16)
    }
}

/// An encoder from a 16-bit mono WAV to a VAG file.
#[derive(Debug, Clone, PartialEq, Eq)]
pub struct WAV2VAGEncoder {
    /// UTF-8 bytes of the name to store in the VAG header.
    pub name: Vec<u8>,
    pub sample_rate: u32,
    /// The samples, zero-padded to whole chunks.
    pub samples: Vec<i16>,
    pub loop_start: usize,
    pub loop_end: usize,
    pub use_loop: bool,
}

impl WAV2VAGEncoder {
    /// Prepare an encoder from a WAV file's bytes: the file must parse
    /// and be mono; its `smpl` loop is extracted and its samples padded.
    pub fn new(name: &str, wav_bytes: &[u8], loop_mode: LoopMode) -> (r: Result<
        WAV2VAGEncoder,
        Error,
    >)
        ensures
            r is Ok <==> (crate::wav::spec_wav_parse(wav_bytes@) matches Some(t) && t.0 == 1),
            r matches Ok(enc) ==> (crate::wav::spec_wav_parse(wav_bytes@) matches Some(t) && {
                &&& enc.name@ == vstd::utf8::encode_utf8(name@)
                &&& enc.sample_rate == t.1
                &&& enc.samples@ == spec_pad28(t.3)
                &&& enc.use_loop == (loop_mode != LoopMode::ForceNoLoop)
                &&& (enc.loop_start as int, enc.loop_end as int) == spec_loop_bounds(
                    spec_smpl_scan(wav_bytes@),
                )
            }),
            r matches Err(e) ==> (e matches Error::Wav(_) || e matches Error::InvalidWav(_)),
    {
        let wav = match crate::wav::Wav::new(wav_bytes) {
            Ok(w) => w,
            Err(e) => {
                return Err(e);
            }
        };
        if wav.channels != 1 {
            return Err(
                Error::InvalidWav(
                    String::from_str("wav with more than one channel isn't supported"),
                ),
            );
        }
        let bounds = loop_bounds(find_smpl(wav_bytes));
        let mut samples = wav.samples;
        let rem = samples.len() % 28;
        if rem != 0 {
            let pad = 28 - rem;
            let ghost before = samples@;
            let mut z: usize = 0;
            while z < pad
                invariant
                    z <= pad,
                    pad == 28 - before.len() % 28,
                    before.len() % 28 != 0,
                    samples@ == before + Seq::new(z as nat, |i: int| 0i16),
                decreases pad - z,
            {
                samples.push(0);
                proof {
                    assert(samples@ =~= before + Seq::new((z + 1) as nat, |i: int| 0i16));
                }
                z = z + 1;
            }
        }
        proof {
            assert(samples@ == spec_pad28(samples@));
        }
        Ok(
            WAV2VAGEncoder {
                name: name.as_bytes_vec(),
                sample_rate: wav.sample_rate,
                samples,
                loop_start: bounds.0,
                loop_end: bounds.1,
                use_loop: !matches!(loop_mode, LoopMode::ForceNoLoop),
            },
        )
    }

    /// Encode the prepared samples and wrap them in a VAG container, the
    /// name field holding up to the first 16 bytes of the name.
    pub fn generate_vag(&self) -> (r: VagAudio)
        requires
            self.samples@.len() % 28 == 0,
            self.samples@.len() <= 0x0FFF_0000 * 28,
        ensures
            r.0.wf(),
            r.0.sample_rate == self.sample_rate,
            r.0.channels == 0u16,
            r.0.vag_header@ == Seq::new(16, |i: int| 0u8),
            spec_encoded_chunks_ok(
                r.0.chunks@,
                self.samples@,
                self.use_loop,
                self.loop_start as int,
                self.loop_end as int,
            ),
            r.0.name@ == Seq::new(
                16,
                |i: int| if i < self.name@.len() {
                    self.name@[i]
                } else {
                    0u8
                },
            ),
    {
        let chunks = encode_chunks(&self.samples, self.use_loop, self.loop_start, self.loop_end);
        proof {
            let n = self.samples@.len() as int / 28;
            assert(n <= 0x0FFF_0000) by (nonlinear_arith)
                requires
                    self.samples@.len() <= 0x0FFF_0000 * 28,
                    n == self.samples@.len() as int / 28,
            ;
            assert(chunks@.len() <= n + 1);
            assert(chunks@.len() * 16 + 16 <= u32::MAX) by (nonlinear_arith)
                requires
                    chunks@.len() <= 0x0FFF_0001,
            ;
        }
        let mut nm: Vec<u8> = Vec::new();
        let mut i: usize = 0;
        while i < 16
            invariant
                i <= 16,
                nm@.len() == i,
                forall|k: int| 0 <= k < i ==> nm@[k] == (if k < self.name@.len() {
                    self.name@[k]
                } else {
                    0u8
                }),
            decreases 16 - i,
        {
            if i < self.name.len() {
                nm.push(self.name[i]);
            } else {
                nm.push(0);
            }
            i = i + 1;
        }
        let name16: [u8; 16] = [
            nm[0], nm[1], nm[2], nm[3], nm[4], nm[5], nm[6], nm[7], nm[8], nm[9], nm[10],
            nm[11], nm[12], nm[13], nm[14], nm[15],
        ];
        proof {
            assert(name16@ =~= Seq::new(
                16,
                |k: int| if k < self.name@.len() {
                    self.name@[k]
                } else {
                    0u8
                },
            ));
        }
        let vag = Vag::new_from_chunks(self.sample_rate, name16, chunks);
        VagAudio(vag)
    }
}

impl VagAudio {
    /// Encode a 16-bit mono WAV into a VAG file: the samples are padded
    /// to whole chunks, the `smpl` loop drives the chunk flags, and the
    /// result carries the given name.
    pub fn from_wav(name: &str, wav_bytes: &[u8], loop_mode: LoopMode) -> (r: Result<
        VagAudio,
        Error,
    >)
        ensures
            r is Ok <==> (crate::wav::spec_wav_parse(wav_bytes@) matches Some(t) && t.0 == 1
                && spec_pad28(t.3).len() <= 0x0FFF_0000 * 28),
            r matches Ok(v) ==> (crate::wav::spec_wav_parse(wav_bytes@) matches Some(t) && {
                &&& v.0.wf()
                &&& v.0.sample_rate == t.1
                &&& v.0.channels == 0u16
                &&& v.0.vag_header@ == Seq::new(16, |i: int| 0u8)
                &&& spec_encoded_chunks_ok(
                    v.0.chunks@,
                    spec_pad28(t.3),
                    loop_mode != LoopMode::ForceNoLoop,
                    spec_loop_bounds(spec_smpl_scan(wav_bytes@)).0,
                    spec_loop_bounds(spec_smpl_scan(wav_bytes@)).1,
                )
            }),
            r matches Err(e) ==> (e matches Error::Wav(_) || e matches Error::InvalidWav(_)),
    {
        let enc = match WAV2VAGEncoder::new(name, wav_bytes, loop_mode) {
            Ok(enc) => enc,
            Err(e) => {
                return Err(e);
            }
        };
        if (enc.samples.len() as u64) > 0x0FFF_0000u64 * 28 {
            return Err(Error::InvalidWav(String::from_str("wav holds too many samples")));
        }
        Ok(enc.generate_vag())
    }
}

} // verus!
