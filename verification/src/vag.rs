//! The Sony PS2 VAG audio container: a big-endian header followed by
//! 16-byte ADPCM chunks.
//!
//! Every numeric header field is big-endian; the chunks themselves are
//! plain bytes. A chunk holds a pack byte (shift and predictor nibbles), a
//! flag byte, and 14 bytes carrying 28 four-bit samples.

use vstd::prelude::*;

use crate::error::Error;
use crate::wire::{spec_u16_be, spec_u32_be, spec_u16_of_be, spec_u32_of_be, read_u16_be,
    read_u32_be, push_u16_be, push_u32_be, lemma_u16_of_be_round_trip,
    lemma_u32_of_be_round_trip};

verus! {

/// Bytes of sample payload in one VAG chunk.
pub const VAG_SAMPLE_BYTES: usize = 14;

/// Samples (nibbles) in one VAG chunk.
pub const VAG_SAMPLE_NIBBL: usize = 28;

/// Size in bytes of one VAG chunk on disk.
pub const VAG_CHUNK_SIZE: usize = 16;

/// Size in bytes of the VAG main header (up to and including the opaque
/// 16-byte sub-header).
pub const VAG_HEADER_SIZE: usize = 64;

/// The pack byte of a chunk: low nibble shift factor, high nibble
/// predictor.
#[derive(Debug, Clone, Copy, PartialEq, Eq, Structural)]
pub struct PackInfo(pub u8);

impl PackInfo {
    /// The shift factor stored in the low nibble.
    pub fn shift_factor(&self) -> (r: i8)
        ensures
            r == (self.0 & 0xf) as i8,
            0 <= r < 16,
    {
        proof {
            let b = self.0;
            assert(b & 0xf < 16) by (bit_vector);
        }
        (self.0 & 0xf) as i8
    }

    /// The predictor stored in the high nibble.
    pub fn predict(&self) -> (r: i8)
        ensures
            r == (self.0 >> 4) as i8,
            0 <= r < 16,
    {
        proof {
            let b = self.0;
            assert(b >> 4 < 16) by (bit_vector);
        }
        (self.0 >> 4) as i8
    }

    /// Store a new shift factor, preserving the predictor nibble.
    pub fn update_shift_factor(&mut self, value: i8)
        ensures
            final(self).0 == (old(self).0 & 0xf0) | ((value & 0xf) as u8),
    {
        proof {
            assert(0 <= (value & 0xf) < 16) by (bit_vector);
        }
        let low = (value & 0xf) as u8;
        self.0 = (self.0 & 0xf0) | low;
    }

    /// Store a new predictor, preserving the shift nibble.
    pub fn update_predict(&mut self, value: i8)
        ensures
            final(self).0 == (((value & 0xf) as u8) << 4) | (old(self).0 & 0xf),
    {
        proof {
            assert(0 <= (value & 0xf) < 16) by (bit_vector);
        }
        let high = (value & 0xf) as u8;
        proof {
            assert(high < 16 ==> (high << 4) <= 0xf0) by (bit_vector);
        }
        self.0 = (high << 4) | (self.0 & 0xf);
    }
}

/// The meaning of a chunk's flag byte.
#[derive(Debug, Clone, Copy, PartialEq, Eq, Structural)]
pub enum VAGFlag {
    /// Plain data.
    Nothing,
    /// Last block to loop.
    LoopLastBlock,
    /// Inside the loop region.
    LoopRegion,
    /// Ending block of the loop.
    LoopEnd,
    /// First block of looped data.
    LoopFirstBlock,
    /// Meaning unknown; preserved.
    Unk,
    /// Starting block of the loop.
    LoopStart,
    /// Playback ending position.
    PlaybackEnd,
}

/// The byte a flag is stored as.
pub open spec fn spec_flag_byte(f: VAGFlag) -> u8 {
    match f {
        VAGFlag::Nothing => 0,
        VAGFlag::LoopLastBlock => 1,
        VAGFlag::LoopRegion => 2,
        VAGFlag::LoopEnd => 3,
        VAGFlag::LoopFirstBlock => 4,
        VAGFlag::Unk => 5,
        VAGFlag::LoopStart => 6,
        VAGFlag::PlaybackEnd => 7,
    }
}

/// The flag a byte decodes to, for bytes 0 through 7.
pub open spec fn spec_flag_of_byte(b: u8) -> VAGFlag {
    if b == 0 {
        VAGFlag::Nothing
    } else if b == 1 {
        VAGFlag::LoopLastBlock
    } else if b == 2 {
        VAGFlag::LoopRegion
    } else if b == 3 {
        VAGFlag::LoopEnd
    } else if b == 4 {
        VAGFlag::LoopFirstBlock
    } else if b == 5 {
        VAGFlag::Unk
    } else if b == 6 {
        VAGFlag::LoopStart
    } else {
        VAGFlag::PlaybackEnd
    }
}

impl VAGFlag {
    /// The byte this flag is stored as.
    pub fn to_byte(&self) -> (r: u8)
        ensures
            r == spec_flag_byte(*self),
    {
        match self {
            VAGFlag::Nothing => 0,
            VAGFlag::LoopLastBlock => 1,
            VAGFlag::LoopRegion => 2,
            VAGFlag::LoopEnd => 3,
            VAGFlag::LoopFirstBlock => 4,
            VAGFlag::Unk => 5,
            VAGFlag::LoopStart => 6,
            VAGFlag::PlaybackEnd => 7,
        }
    }

    /// Decode a flag byte; bytes above 7 are invalid.
    pub fn from_byte(b: u8) -> (r: Option<VAGFlag>)
        ensures
            r is Some <==> b <= 7,
            r matches Some(f) ==> f == spec_flag_of_byte(b) && spec_flag_byte(f) == b,
    {
        match b {
            0 => Some(VAGFlag::Nothing),
            1 => Some(VAGFlag::LoopLastBlock),
            2 => Some(VAGFlag::LoopRegion),
            3 => Some(VAGFlag::LoopEnd),
            4 => Some(VAGFlag::LoopFirstBlock),
            5 => Some(VAGFlag::Unk),
            6 => Some(VAGFlag::LoopStart),
            7 => Some(VAGFlag::PlaybackEnd),
            _ => None,
        }
    }
}

/// One 16-byte VAG chunk: pack byte, flag byte, and 28 four-bit samples.
#[derive(Debug, Clone, Copy, PartialEq, Eq)]
pub struct VAGChunk {
    pub pack_infos: PackInfo,
    pub flags: VAGFlag,
    pub sample: [u8; 14],
}

impl VAGChunk {
    /// The 16 bytes this chunk occupies on disk.
    pub open spec fn spec_bytes(self) -> Seq<u8> {
        seq![self.pack_infos.0, spec_flag_byte(self.flags)] + self.sample@
    }
}

/// The bytes of a sequence of chunks, concatenated in order.
pub open spec fn spec_chunks_bytes(cs: Seq<VAGChunk>) -> Seq<u8>
    decreases cs.len(),
{
    if cs.len() == 0 {
        Seq::empty()
    } else {
        spec_chunks_bytes(cs.drop_last()) + cs.last().spec_bytes()
    }
}

pub proof fn lemma_chunks_bytes_len(cs: Seq<VAGChunk>)
    ensures
        spec_chunks_bytes(cs).len() == cs.len() * VAG_CHUNK_SIZE,
    decreases cs.len(),
{
    if cs.len() > 0 {
        lemma_chunks_bytes_len(cs.drop_last());
    }
}

/// A PS2 VAG audio file.
#[derive(Debug, Clone, PartialEq, Eq)]
pub struct Vag {
    pub version: u32,
    pub ssa: u32,
    pub sample_rate: u32,
    pub vol_left: u16,
    pub vol_right: u16,
    pub pitch: u16,
    pub adsr1: u16,
    pub adsr2: u16,
    /// Channel count; only mono (0 or 1) is supported.
    pub channels: u16,
    /// The file's name field, 16 bytes, NUL padded.
    pub name: [u8; 16],
    /// An opaque 16-byte sub-header, preserved verbatim.
    pub vag_header: [u8; 16],
    pub chunks: Vec<VAGChunk>,
}

impl Vag {
    /// Mono only, and the size field must fit its `u32`.
    pub open spec fn wf(self) -> bool {
        &&& self.channels <= 1
        &&& self.chunks@.len() * VAG_CHUNK_SIZE + 16 <= u32::MAX
    }

    /// The stored size field: all chunk bytes plus the 16-byte sub-header.
    pub open spec fn spec_size(self) -> int {
        self.chunks@.len() * VAG_CHUNK_SIZE + 16
    }

    /// The whole file as stored on disk.
    pub open spec fn spec_bytes(self) -> Seq<u8> {
        seq![0x56u8, 0x41u8, 0x47u8, 0x70u8] + spec_u32_be(self.version) + spec_u32_be(self.ssa)
            + spec_u32_be(self.spec_size() as u32) + spec_u32_be(self.sample_rate) + spec_u16_be(
            self.vol_left,
        ) + spec_u16_be(self.vol_right) + spec_u16_be(self.pitch) + spec_u16_be(self.adsr1)
            + spec_u16_be(self.adsr2) + spec_u16_be(self.channels) + self.name@ + self.vag_header@
            + spec_chunks_bytes(self.chunks@)
    }

    pub proof fn lemma_bytes_len(self)
        ensures
            self.spec_bytes().len() == VAG_HEADER_SIZE + self.chunks@.len() * VAG_CHUNK_SIZE,
    {
        lemma_chunks_bytes_len(self.chunks@);
    }
}

/// The stored size field of a VAG file's bytes.
pub open spec fn spec_vag_size(b: Seq<u8>) -> int {
    spec_u32_of_be(b.subrange(12, 16)) as int
}

/// Whether `b` starts with a parseable VAG file: the magic, a size that
/// is a whole number of chunks, a mono channel count, enough bytes for
/// the data, and a valid flag byte in every chunk.
pub open spec fn spec_vag_parse_ok(b: Seq<u8>) -> bool {
    &&& b.len() >= VAG_HEADER_SIZE
    &&& b.subrange(0, 4) == seq![0x56u8, 0x41u8, 0x47u8, 0x70u8]
    &&& spec_vag_size(b) >= 16
    &&& (spec_vag_size(b) - 16) % 16 == 0
    &&& spec_u16_of_be(b.subrange(30, 32)) <= 1
    &&& b.len() >= VAG_HEADER_SIZE + spec_vag_size(b) - 16
    &&& forall|k: int| 0 <= k < (spec_vag_size(b) - 16) / 16 ==> #[trigger] b[64 + 16 * k + 1]
        <= 7
}

impl Vag {
    /// Parse a VAG file. Succeeds exactly when the bytes carry the magic,
    /// a consistent size field, a mono channel count and valid chunk
    /// flags; the parsed file re-serializes to exactly the bytes it was
    /// read from (trailing bytes beyond the stored size are ignored).
    #[verifier::rlimit(100)]
    pub fn read(bytes: &[u8]) -> (r: Result<Vag, Error>)
        ensures
            r is Ok <==> spec_vag_parse_ok(bytes@),
            r matches Ok(v) ==> {
                &&& v.wf()
                &&& v.spec_size() == spec_vag_size(bytes@)
                &&& v.spec_bytes() == bytes@.subrange(0, 48 + spec_vag_size(bytes@))
            },
            r matches Err(e) ==> e == Error::BinaryFormat,
    {
        let len = bytes.len();
        if len < VAG_HEADER_SIZE {
            return Err(Error::BinaryFormat);
        }
        if !(bytes[0] == 0x56 && bytes[1] == 0x41 && bytes[2] == 0x47 && bytes[3] == 0x70) {
            proof {
                assert(bytes@.subrange(0, 4)[0] == bytes@[0]);
                assert(bytes@.subrange(0, 4)[1] == bytes@[1]);
                assert(bytes@.subrange(0, 4)[2] == bytes@[2]);
                assert(bytes@.subrange(0, 4)[3] == bytes@[3]);
            }
            return Err(Error::BinaryFormat);
        }
        proof {
            assert(bytes@.subrange(0, 4) =~= seq![0x56u8, 0x41u8, 0x47u8, 0x70u8]);
        }
        let version = read_u32_be(bytes, 4);
        let ssa = read_u32_be(bytes, 8);
        let size = read_u32_be(bytes, 12);
        let sample_rate = read_u32_be(bytes, 16);
        let vol_left = read_u16_be(bytes, 20);
        let vol_right = read_u16_be(bytes, 22);
        let pitch = read_u16_be(bytes, 24);
        let adsr1 = read_u16_be(bytes, 26);
        let adsr2 = read_u16_be(bytes, 28);
        let channels = read_u16_be(bytes, 30);
        if size < 16 || (size - 16) % 16 != 0 {
            return Err(Error::BinaryFormat);
        }
        if channels > 1 {
            return Err(Error::BinaryFormat);
        }
        let num_chunks = ((size - 16) / 16) as usize;
        proof {
            assert(num_chunks * 16 == size - 16) by (nonlinear_arith)
                requires
                    size >= 16,
                    (size - 16) % 16 == 0,
                    num_chunks == (size - 16) / 16,
            ;
        }
        if (len - VAG_HEADER_SIZE) / VAG_CHUNK_SIZE < num_chunks {
            proof {
                assert((len - 64) / 16 < num_chunks ==> len < 64 + num_chunks * 16)
                    by (nonlinear_arith);
            }
            return Err(Error::BinaryFormat);
        }
        proof {
            assert(len - 64 >= num_chunks * 16) by (nonlinear_arith)
                requires
                    (len - 64) / 16 >= num_chunks,
            ;
        }
        let name: [u8; 16] = [
            bytes[32], bytes[33], bytes[34], bytes[35], bytes[36], bytes[37], bytes[38],
            bytes[39], bytes[40], bytes[41], bytes[42], bytes[43], bytes[44], bytes[45],
            bytes[46], bytes[47],
        ];
        let vag_header: [u8; 16] = [
            bytes[48], bytes[49], bytes[50], bytes[51], bytes[52], bytes[53], bytes[54],
            bytes[55], bytes[56], bytes[57], bytes[58], bytes[59], bytes[60], bytes[61],
            bytes[62], bytes[63],
        ];
        let mut chunks: Vec<VAGChunk> = Vec::new();
        let mut k: usize = 0;
        while k < num_chunks
            invariant
                k <= num_chunks,
                len == bytes@.len(),
                len >= 64 + num_chunks * 16,
                len <= usize::MAX,
                num_chunks as int == (spec_vag_size(bytes@) - 16) / 16,
                chunks@.len() == k,
                forall|j: int| 0 <= j < (k as int) ==> #[trigger] bytes@[64 + 16 * j + 1] <= 7,
                spec_chunks_bytes(chunks@) == bytes@.subrange(64, 64 + 16 * (k as int)),
            decreases num_chunks - k,
        {
            proof {
                assert(16 * (k as int) + 16 <= 16 * (num_chunks as int)) by (nonlinear_arith)
                    requires
                        k < num_chunks,
                ;
            }
            let p = 64 + k * 16;
            let flag = match VAGFlag::from_byte(bytes[p + 1]) {
                Some(f) => f,
                None => {
                    proof {
                        assert(bytes@[64 + 16 * (k as int) + 1] > 7);
                        assert(!spec_vag_parse_ok(bytes@));
                    }
                    return Err(Error::BinaryFormat);
                }
            };
            let chunk = VAGChunk {
                pack_infos: PackInfo(bytes[p]),
                flags: flag,
                sample: [
                    bytes[p + 2], bytes[p + 3], bytes[p + 4], bytes[p + 5], bytes[p + 6],
                    bytes[p + 7], bytes[p + 8], bytes[p + 9], bytes[p + 10], bytes[p + 11],
                    bytes[p + 12], bytes[p + 13], bytes[p + 14], bytes[p + 15],
                ],
            };
            proof {
                assert(chunks@.push(chunk).drop_last() == chunks@);
                assert(chunk.spec_bytes() =~= bytes@.subrange(p as int, p + 16));
                assert(spec_chunks_bytes(chunks@.push(chunk)) =~= bytes@.subrange(
                    64,
                    64 + 16 * (k as int + 1),
                ));
            }
            chunks.push(chunk);
            k = k + 1;
        }
        let v = Vag {
            version,
            ssa,
            sample_rate,
            vol_left,
            vol_right,
            pitch,
            adsr1,
            adsr2,
            channels,
            name,
            vag_header,
            chunks,
        };
        proof {
            lemma_u32_of_be_round_trip(bytes@.subrange(4, 8));
            lemma_u32_of_be_round_trip(bytes@.subrange(8, 12));
            lemma_u32_of_be_round_trip(bytes@.subrange(12, 16));
            lemma_u32_of_be_round_trip(bytes@.subrange(16, 20));
            lemma_u16_of_be_round_trip(bytes@.subrange(20, 22));
            lemma_u16_of_be_round_trip(bytes@.subrange(22, 24));
            lemma_u16_of_be_round_trip(bytes@.subrange(24, 26));
            lemma_u16_of_be_round_trip(bytes@.subrange(26, 28));
            lemma_u16_of_be_round_trip(bytes@.subrange(28, 30));
            lemma_u16_of_be_round_trip(bytes@.subrange(30, 32));
            assert(v.name@ =~= bytes@.subrange(32, 48));
            assert(v.vag_header@ =~= bytes@.subrange(48, 64));
            assert(v.spec_size() == size);
            assert(v.spec_bytes() =~= bytes@.subrange(0, 48 + spec_vag_size(bytes@)));
        }
        Ok(v)
    }

    /// Serialize the file to its on-disk form.
    pub fn to_bytes(&self) -> (out: Vec<u8>)
        requires
            self.wf(),
        ensures
            out@ == self.spec_bytes(),
    {
        let mut out: Vec<u8> = Vec::new();
        out.push(0x56);
        out.push(0x41);
        out.push(0x47);
        out.push(0x70);
        proof {
            assert(out@ =~= seq![0x56u8, 0x41u8, 0x47u8, 0x70u8]);
            assert(self.chunks@.len() * 16 + 16 <= u32::MAX);
        }
        push_u32_be(&mut out, self.version);
        push_u32_be(&mut out, self.ssa);
        push_u32_be(&mut out, (self.chunks.len() * VAG_CHUNK_SIZE + 16) as u32);
        push_u32_be(&mut out, self.sample_rate);
        push_u16_be(&mut out, self.vol_left);
        push_u16_be(&mut out, self.vol_right);
        push_u16_be(&mut out, self.pitch);
        push_u16_be(&mut out, self.adsr1);
        push_u16_be(&mut out, self.adsr2);
        push_u16_be(&mut out, self.channels);
        let ghost head = out@;
        let mut i: usize = 0;
        while i < 16
            invariant
                i <= 16,
                out@ == head + self.name@.subrange(0, i as int),
            decreases 16 - i,
        {
            out.push(self.name[i]);
            proof {
                assert(out@ =~= head + self.name@.subrange(0, i + 1));
            }
            i = i + 1;
        }
        let ghost head2 = out@;
        let mut i2: usize = 0;
        while i2 < 16
            invariant
                i2 <= 16,
                out@ == head2 + self.vag_header@.subrange(0, i2 as int),
            decreases 16 - i2,
        {
            out.push(self.vag_header[i2]);
            proof {
                assert(out@ =~= head2 + self.vag_header@.subrange(0, i2 + 1));
            }
            i2 = i2 + 1;
        }
        proof {
            assert(self.name@.subrange(0, 16) =~= self.name@);
            assert(self.vag_header@.subrange(0, 16) =~= self.vag_header@);
        }
        let ghost head3 = out@;
        let mut k: usize = 0;
        while k < self.chunks.len()
            invariant
                k <= self.chunks@.len(),
                out@ == head3 + spec_chunks_bytes(self.chunks@.subrange(0, k as int)),
            decreases self.chunks@.len() - k,
        {
            let c = &self.chunks[k];
            out.push(c.pack_infos.0);
            out.push(c.flags.to_byte());
            let ghost chead = out@;
            let mut b: usize = 0;
            while b < VAG_SAMPLE_BYTES
                invariant
                    b <= VAG_SAMPLE_BYTES,
                    out@ == chead + self.chunks@[k as int].sample@.subrange(0, b as int),
                    k < self.chunks@.len(),
                decreases VAG_SAMPLE_BYTES - b,
            {
                out.push(self.chunks[k].sample[b]);
                proof {
                    assert(out@ =~= chead + self.chunks@[k as int].sample@.subrange(0, b + 1));
                }
                b = b + 1;
            }
            proof {
                let pre = self.chunks@.subrange(0, k as int);
                let cur = self.chunks@.subrange(0, k + 1);
                assert(cur.drop_last() == pre);
                assert(self.chunks@[k as int].sample@.subrange(0, 14)
                    =~= self.chunks@[k as int].sample@);
                assert(out@ =~= head3 + spec_chunks_bytes(cur));
            }
            k = k + 1;
        }
        proof {
            assert(self.chunks@.subrange(0, self.chunks@.len() as int) =~= self.chunks@);
            assert(out@ =~= self.spec_bytes());
        }
        out
    }

    /// Build a VAG from raw sound bytes: the first 16 bytes become the
    /// opaque sub-header, the rest must cut into whole chunks with valid
    /// flag bytes. Anything else has no chunk form at all, so such
    /// inputs are excluded up front.
    #[verifier::rlimit(50)]
    pub fn new(sample_rate: u32, name: [u8; 16], data: Vec<u8>) -> (v: Vag)
        requires
            data@.len() > 16,
            data@.len() <= u32::MAX,
            (data@.len() - 16) % 16 == 0,
            forall|k: int| 0 <= k < (data@.len() - 32) / 16 + 1 ==> #[trigger] data@[16 + 16 * k
                + 1] <= 7,
        ensures
            v.wf(),
            v.version == 0x20u32,
            v.ssa == 0u32,
            v.sample_rate == sample_rate,
            v.vol_left == 0u16 && v.vol_right == 0u16 && v.pitch == 0u16,
            v.adsr1 == 0u16 && v.adsr2 == 0u16,
            v.channels == 0u16,
            v.name == name,
            v.vag_header@ == data@.subrange(0, 16),
            spec_chunks_bytes(v.chunks@) == data@.skip(16),
            v.chunks@.len() * 16 == data@.len() - 16,
    {
        let dlen = data.len();
        let vag_header: [u8; 16] = [
            data[0], data[1], data[2], data[3], data[4], data[5], data[6], data[7], data[8],
            data[9], data[10], data[11], data[12], data[13], data[14], data[15],
        ];
        let num_chunks = (dlen - 16) / 16;
        proof {
            assert(num_chunks * 16 == dlen - 16) by (nonlinear_arith)
                requires
                    dlen >= 16,
                    (dlen - 16) % 16 == 0,
                    num_chunks == (dlen - 16) / 16,
            ;
            assert((dlen - 32) / 16 + 1 == num_chunks) by (nonlinear_arith)
                requires
                    dlen > 16,
                    (dlen - 16) % 16 == 0,
                    num_chunks == (dlen - 16) / 16,
            ;
        }
        let mut chunks: Vec<VAGChunk> = Vec::new();
        let mut k: usize = 0;
        while k < num_chunks
            invariant
                k <= num_chunks,
                dlen == data@.len(),
                dlen >= 16 + num_chunks * 16,
                dlen <= u32::MAX,
                forall|j: int| 0 <= j < (num_chunks as int) ==> #[trigger] data@[16 + 16 * j + 1]
                    <= 7,
                chunks@.len() == k,
                spec_chunks_bytes(chunks@) == data@.subrange(16, 16 + 16 * (k as int)),
            decreases num_chunks - k,
        {
            proof {
                assert(16 * (k as int) + 16 <= 16 * (num_chunks as int)) by (nonlinear_arith)
                    requires
                        k < num_chunks,
                ;
            }
            let p = 16 + k * 16;
            let flag = match VAGFlag::from_byte(data[p + 1]) {
                Some(f) => f,
                None => {
                    proof {
                        assert(data@[16 + 16 * (k as int) + 1] <= 7);
                        assert(false);
                    }
                    VAGFlag::Nothing
                }
            };
            let chunk = VAGChunk {
                pack_infos: PackInfo(data[p]),
                flags: flag,
                sample: [
                    data[p + 2], data[p + 3], data[p + 4], data[p + 5], data[p + 6], data[p + 7],
                    data[p + 8], data[p + 9], data[p + 10], data[p + 11], data[p + 12],
                    data[p + 13], data[p + 14], data[p + 15],
                ],
            };
            proof {
                assert(chunks@.push(chunk).drop_last() == chunks@);
                assert(chunk.spec_bytes() =~= data@.subrange(p as int, p + 16));
                assert(spec_chunks_bytes(chunks@.push(chunk)) =~= data@.subrange(
                    16,
                    16 + 16 * (k as int + 1),
                ));
            }
            chunks.push(chunk);
            k = k + 1;
        }
        let v = Vag {
            version: 0x20,
            ssa: 0,
            sample_rate,
            vol_left: 0,
            vol_right: 0,
            pitch: 0,
            adsr1: 0,
            adsr2: 0,
            channels: 0,
            name,
            vag_header,
            chunks,
        };
        proof {
            assert(v.vag_header@ =~= data@.subrange(0, 16));
            assert(data@.subrange(16, 16 + 16 * (num_chunks as int)) =~= data@.skip(16));
        }
        v
    }

    /// Build a VAG directly from encoded chunks, with a zero sub-header.
    pub fn new_from_chunks(sample_rate: u32, name: [u8; 16], chunks: Vec<VAGChunk>) -> (v: Vag)
        requires
            chunks@.len() * 16 + 16 <= u32::MAX,
        ensures
            v.wf(),
            v.version == 0x20u32,
            v.ssa == 0u32,
            v.sample_rate == sample_rate,
            v.vol_left == 0u16,
            v.vol_right == 0u16,
            v.pitch == 0u16,
            v.adsr1 == 0u16,
            v.adsr2 == 0u16,
            v.channels == 0u16,
            v.name == name,
            v.vag_header@ == Seq::new(16, |i: int| 0u8),
            v.chunks == chunks,
    {
        let v = Vag {
            version: 0x20,
            ssa: 0,
            sample_rate,
            vol_left: 0,
            vol_right: 0,
            pitch: 0,
            adsr1: 0,
            adsr2: 0,
            channels: 0,
            name,
            vag_header: [0, 0, 0, 0, 0, 0, 0, 0, 0, 0, 0, 0, 0, 0, 0, 0],
            chunks,
        };
        proof {
            assert(v.vag_header@ =~= Seq::new(16, |i: int| 0u8));
        }
        v
    }

    /// The file's name field as text, with invalid sequences replaced.
    pub fn name(&self) -> (r: String)
        ensures
            r@ == spec_lossy_utf8(self.name@),
    {
        utf8_lossy_16(&self.name)
    }
}

/// What `String::from_utf8_lossy` returns for the given bytes: a pure
/// function of the bytes alone.
pub uninterp spec fn spec_lossy_utf8(b: Seq<u8>) -> Seq<char>;

/// Relies on `String::from_utf8_lossy` of std: the result depends on the
/// bytes alone, and ASCII bytes decode to themselves.
#[verifier::external_body]
fn utf8_lossy_16(bytes: &[u8; 16]) -> (r: String)
    ensures
        r@ == spec_lossy_utf8(bytes@),
        (forall|i: int| 0 <= i < bytes@.len() ==> bytes@[i] < 128) ==> r@ == Seq::new(
            bytes@.len(),
            |i: int| bytes@[i] as char,
        ),
{
    String::from_utf8_lossy(bytes).into_owned()
}

/// A VAG audio file, as handed around by the export and import pipeline.
#[derive(Debug, Clone, PartialEq, Eq)]
pub struct VagAudio(pub Vag);

impl VagAudio {
    /// Parse a VAG file's bytes.
    pub fn from_reader(bytes: &[u8]) -> (r: Result<VagAudio, Error>)
        ensures
            r is Ok <==> spec_vag_parse_ok(bytes@),
            r matches Ok(v) ==> {
                &&& v.0.wf()
                &&& v.0.spec_size() == spec_vag_size(bytes@)
                &&& v.0.spec_bytes() == bytes@.subrange(0, 48 + spec_vag_size(bytes@))
            },
            r matches Err(e) ==> e == Error::BinaryFormat,
    {
        match Vag::read(bytes) {
            Ok(v) => Ok(VagAudio(v)),
            Err(e) => Err(e),
        }
    }

    /// Serialize the file to its on-disk form.
    pub fn to_writer(&self) -> (out: Vec<u8>)
        requires
            self.0.wf(),
        ensures
            out@ == self.0.spec_bytes(),
    {
        self.0.to_bytes()
    }

    /// The file's name field as text.
    pub fn name(&self) -> (r: String)
        ensures
            r@ == spec_lossy_utf8(self.0.name@),
    {
        self.0.name()
    }

    /// The raw sound bytes as stored inside a bank: the opaque 16-byte
    /// sub-header followed by all chunks, without the main header.
    pub fn raw_vag_bytes(&self) -> (out: Vec<u8>)
        ensures
            out@ == self.0.vag_header@ + spec_chunks_bytes(self.0.chunks@),
    {
        let mut out: Vec<u8> = Vec::new();
        let mut i: usize = 0;
        while i < 16
            invariant
                i <= 16,
                out@ == self.0.vag_header@.subrange(0, i as int),
            decreases 16 - i,
        {
            out.push(self.0.vag_header[i]);
            proof {
                assert(out@ =~= self.0.vag_header@.subrange(0, i + 1));
            }
            i = i + 1;
        }
        proof {
            assert(self.0.vag_header@.subrange(0, 16) =~= self.0.vag_header@);
        }
        let ghost head = out@;
        let mut k: usize = 0;
        while k < self.0.chunks.len()
            invariant
                k <= self.0.chunks@.len(),
                out@ == head + spec_chunks_bytes(self.0.chunks@.subrange(0, k as int)),
            decreases self.0.chunks@.len() - k,
        {
            let c = &self.0.chunks[k];
            out.push(c.pack_infos.0);
            out.push(c.flags.to_byte());
            let ghost chead = out@;
            let mut b: usize = 0;
            while b < VAG_SAMPLE_BYTES
                invariant
                    b <= VAG_SAMPLE_BYTES,
                    out@ == chead + self.0.chunks@[k as int].sample@.subrange(0, b as int),
                    k < self.0.chunks@.len(),
                decreases VAG_SAMPLE_BYTES - b,
            {
                out.push(self.0.chunks[k].sample[b]);
                proof {
                    assert(out@ =~= chead + self.0.chunks@[k as int].sample@.subrange(0, b + 1));
                }
                b = b + 1;
            }
            proof {
                let pre = self.0.chunks@.subrange(0, k as int);
                let cur = self.0.chunks@.subrange(0, k + 1);
                assert(cur.drop_last() == pre);
                assert(self.0.chunks@[k as int].sample@.subrange(0, 14)
                    =~= self.0.chunks@[k as int].sample@);
                assert(out@ =~= head + spec_chunks_bytes(cur));
            }
            k = k + 1;
        }
        proof {
            assert(self.0.chunks@.subrange(0, self.0.chunks@.len() as int) =~= self.0.chunks@);
        }
        out
    }
}

} // verus!
