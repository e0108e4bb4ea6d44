//! Pak-name lists: the short archive base-names (`FEET`, `GENRL`, ...)
//! whose position encodes the pak index used by the lookup table.
//!
//! Lists come from the built-in SFX and stream defaults or from a
//! `PakFiles.dat` / `StrmPaks.dat` file of null-padded strings aligned to
//! 52 (SFX) or 16 (stream) bytes. Name lookup is case-insensitive after
//! stripping a trailing run of the digits 0, 1 and 2, which PS2 file names
//! append.

use vstd::prelude::*;
use vstd::utf8::{valid_utf8, encode_utf8};

use crate::error::Error;

verus! {

/// Record alignment of `PakFiles.dat` (SFX names).
pub const SFX_NAME_ALIGN: usize = 52;

/// Record alignment of `StrmPaks.dat` (stream names).
pub const STREAM_NAME_ALIGN: usize = 16;

/// The most names a list may carry: a pak index is a `u8`.
pub const MAX_PAK_NAMES: usize = 255;

/// The digits that PS2 file names append to an archive base-name.
pub open spec fn spec_is_ps2_digit(c: char) -> bool {
    c == '0' || c == '1' || c == '2'
}

/// `s` with its trailing run of PS2 digits removed.
pub open spec fn spec_trim_ps2(s: Seq<char>) -> Seq<char>
    decreases s.len(),
{
    if s.len() > 0 && spec_is_ps2_digit(s.last()) {
        spec_trim_ps2(s.drop_last())
    } else {
        s
    }
}

/// ASCII uppercase of one character; everything else is untouched.
pub open spec fn spec_upper(c: char) -> char {
    if 97 <= c as u32 && c as u32 <= 122 {
        (((c as u32) - 32) as u8) as char
    } else {
        c
    }
}

/// The canonical form of an archive base-name: trailing PS2 digits
/// stripped, then ASCII-uppercased.
pub open spec fn spec_canon(s: Seq<char>) -> Seq<char> {
    spec_trim_ps2(s).map_values(|c: char| spec_upper(c))
}

/// ASCII uppercase of one character.
fn upper_char(c: char) -> (r: char)
    ensures
        r == spec_upper(c),
{
    let u = c as u32;
    if 97 <= u && u <= 122 {
        ((u - 32) as u8) as char
    } else {
        c
    }
}

/// The canonical form of `s`, as a character vector.
pub fn canon_chars(s: &str) -> (r: Vec<char>)
    ensures
        r@ == spec_canon(s@),
{
    let n = s.unicode_len();
    proof {
        assert(s@.subrange(0, n as int) =~= s@);
    }
    let mut end = n;
    while end > 0
        invariant
            end <= n,
            n == s@.len(),
            spec_trim_ps2(s@) == spec_trim_ps2(s@.subrange(0, end as int)),
        ensures
            spec_trim_ps2(s@) == s@.subrange(0, end as int),
        decreases end,
    {
        let c = s.get_char(end - 1);
        if c == '0' || c == '1' || c == '2' {
            proof {
                let cur = s@.subrange(0, end as int);
                assert(cur.last() == s@[end - 1]);
                assert(cur.drop_last() =~= s@.subrange(0, end - 1));
            }
            end = end - 1;
        } else {
            proof {
                let cur = s@.subrange(0, end as int);
                assert(cur.last() == s@[end - 1]);
                assert(spec_trim_ps2(cur) == cur);
            }
            break;
        }
    }
    let mut out: Vec<char> = Vec::new();
    let mut i: usize = 0;
    while i < end
        invariant
            i <= end,
            end <= n,
            n == s@.len(),
            out@.len() == i,
            forall|j: int| 0 <= j < i ==> out@[j] == spec_upper(s@[j]),
        decreases end - i,
    {
        out.push(upper_char(s.get_char(i)));
        i = i + 1;
    }
    proof {
        assert(out@ =~= spec_canon(s@));
    }
    out
}

/// Whether the character vector equals the view of `s`.
pub fn chars_eq_str(chars: &Vec<char>, s: &str) -> (r: bool)
    ensures
        r == (chars@ == s@),
{
    let n = s.unicode_len();
    if chars.len() != n {
        return false;
    }
    let mut i: usize = 0;
    while i < n
        invariant
            i <= n,
            n == s@.len(),
            chars@.len() == n,
            forall|j: int| 0 <= j < i ==> chars@[j] == s@[j],
        decreases n - i,
    {
        if chars[i] != s.get_char(i) {
            return false;
        }
        i = i + 1;
    }
    proof {
        assert(chars@ =~= s@);
    }
    true
}

/// The built-in SFX archive names, in pak-index order.
pub open spec fn spec_sfx_default_names() -> Seq<Seq<char>> {
    seq![
        "FEET"@,
        "GENRL"@,
        "PAIN_A"@,
        "SCRIPT"@,
        "SPC_EA"@,
        "SPC_FA"@,
        "SPC_GA"@,
        "SPC_NA"@,
        "SPC_PA"@,
    ]
}

/// The built-in stream archive names, in pak-index order. The empty name
/// is reserved and kept only so that later indices stay aligned.
pub open spec fn spec_stream_default_names() -> Seq<Seq<char>> {
    seq![
        "AA"@,
        "ADVERTS"@,
        ""@,
        "AMBIENCE"@,
        "BEATS"@,
        "CH"@,
        "CO"@,
        "CR"@,
        "CUTSCENE"@,
        "DS"@,
        "HC"@,
        "MH"@,
        "MR"@,
        "NJ"@,
        "RE"@,
        "RG"@,
        "TK"@,
    ]
}

/// The first list position at or after `from` whose name equals `t`.
pub open spec fn spec_first_match(names: Seq<Seq<char>>, t: Seq<char>, from: int) -> Option<int>
    decreases names.len() - from,
{
    if from < 0 || from >= names.len() {
        None
    } else if names[from] == t {
        Some(from)
    } else {
        spec_first_match(names, t, from + 1)
    }
}

/// The pak index a name resolves to: the first list position holding the
/// name's canonical form; the empty name never resolves.
pub open spec fn spec_pak_index(names: Seq<Seq<char>>, name: Seq<char>) -> Option<int> {
    if name.len() == 0 {
        None
    } else {
        spec_first_match(names, spec_canon(name), 0)
    }
}

/// The bytes of `block` before its first NUL.
pub open spec fn spec_name_prefix(block: Seq<u8>) -> Seq<u8>
    decreases block.len(),
{
    if block.len() == 0 {
        block
    } else if block[0] == 0 {
        Seq::empty()
    } else {
        seq![block[0]] + spec_name_prefix(block.skip(1))
    }
}

/// The null-terminated names of a pak-names file cut into records of
/// `align` bytes; the final record may be shorter.
pub open spec fn spec_records(b: Seq<u8>, align: int) -> Seq<Seq<u8>>
    decreases b.len(),
{
    if b.len() == 0 || align < 1 {
        Seq::empty()
    } else if b.len() <= align {
        seq![spec_name_prefix(b)]
    } else {
        seq![spec_name_prefix(b.take(align))] + spec_records(b.skip(align), align)
    }
}

/// One name padded with NULs to a full record.
pub open spec fn spec_zero_pad(name_bytes: Seq<u8>, align: int) -> Seq<u8>
    recommends
        name_bytes.len() < align,
{
    name_bytes + Seq::new((align - name_bytes.len()) as nat, |i: int| 0u8)
}

/// A whole pak-names file: every name UTF-8 encoded and padded to `align`.
pub open spec fn spec_pak_file_bytes(names: Seq<Seq<char>>, align: int) -> Seq<u8>
    decreases names.len(),
{
    if names.len() == 0 {
        Seq::empty()
    } else {
        spec_zero_pad(encode_utf8(names[0]), align) + spec_pak_file_bytes(names.skip(1), align)
    }
}

/// Every name's UTF-8 form is shorter than a record and free of NULs, so
/// it survives null-padded storage.
pub open spec fn spec_names_storable(names: Seq<Seq<char>>, align: int) -> bool {
    forall|i: int| 0 <= i < names.len() ==> {
        &&& (#[trigger] encode_utf8(names[i])).len() < align
        &&& forall|j: int| 0 <= j < encode_utf8(names[i]).len() ==> encode_utf8(names[i])[j]
            != 0
    }
}

pub proof fn lemma_pak_file_bytes_len(names: Seq<Seq<char>>, align: int)
    requires
        align >= 1,
        spec_names_storable(names, align),
    ensures
        spec_pak_file_bytes(names, align).len() == names.len() * align,
    decreases names.len(),
{
    if names.len() == 0 {
    } else {
        assert(spec_names_storable(names.skip(1), align)) by {
            assert(forall|i: int| 0 <= i < names.skip(1).len() ==> names.skip(1)[i]
                == names[i + 1]);
        }
        lemma_pak_file_bytes_len(names.skip(1), align);
        assert(names.len() * align == align + names.skip(1).len() * align) by (nonlinear_arith)
            requires
                names.len() >= 1,
                names.skip(1).len() == names.len() - 1,
        ;
    }
}

/// The name bytes of `block` are exactly its first `count` bytes when
/// those are non-NUL and a NUL (or the end of the block) follows.
pub proof fn lemma_name_prefix(block: Seq<u8>, count: int)
    requires
        0 <= count <= block.len(),
        forall|m: int| 0 <= m < count ==> block[m] != 0,
        count == block.len() || block[count] == 0,
    ensures
        spec_name_prefix(block) == block.take(count),
    decreases count,
{
    if count == 0 {
        if block.len() == 0 {
            assert(spec_name_prefix(block) =~= block.take(0));
        } else {
            assert(spec_name_prefix(block) =~= block.take(0));
        }
    } else {
        assert(block[0] != 0);
        lemma_name_prefix(block.skip(1), count - 1);
        assert(block.take(count) =~= seq![block[0]] + block.skip(1).take(count - 1));
    }
}

/// Round trip of the pak-names file format: a file written from storable
/// names cuts back into exactly those names' UTF-8 records.
pub proof fn lemma_paknames_round_trip(names: Seq<Seq<char>>, align: int)
    requires
        align >= 1,
        spec_names_storable(names, align),
    ensures
        spec_records(spec_pak_file_bytes(names, align), align) == names.map_values(
            |n: Seq<char>| encode_utf8(n),
        ),
    decreases names.len(),
{
    let b = spec_pak_file_bytes(names, align);
    let mapped = names.map_values(|n: Seq<char>| encode_utf8(n));
    if names.len() == 0 {
        assert(spec_records(b, align) =~= mapped);
    } else {
        let head = encode_utf8(names[0]);
        let block0 = spec_zero_pad(head, align);
        let rest = spec_pak_file_bytes(names.skip(1), align);
        assert(spec_names_storable(names.skip(1), align)) by {
            assert(forall|i: int| 0 <= i < names.skip(1).len() ==> names.skip(1)[i]
                == names[i + 1]);
        }
        lemma_pak_file_bytes_len(names.skip(1), align);
        lemma_paknames_round_trip(names.skip(1), align);
        lemma_name_prefix(block0, head.len() as int);
        assert(block0.take(head.len() as int) =~= head);
        if names.len() == 1 {
            assert(b =~= block0);
            assert(spec_records(b, align) =~= mapped);
        } else {
            assert(b.len() == align + rest.len());
            assert(rest.len() >= align) by (nonlinear_arith)
                requires
                    rest.len() == (names.len() - 1) * align,
                    names.len() >= 2,
                    align >= 1,
            ;
            assert(b.take(align) =~= block0);
            assert(b.skip(align) =~= rest);
            assert(names.skip(1).map_values(|n: Seq<char>| encode_utf8(n)) =~= mapped.skip(1));
            assert(spec_records(b, align) =~= mapped);
        }
    }
}


/// An ASCII name shorter than a record, free of NULs, is storable.
proof fn lemma_ascii_name_storable(s: Seq<char>, align: int)
    requires
        vstd::utf8::is_ascii_chars(s),
        s.len() < align,
        forall|i: int| 0 <= i < s.len() ==> (#[trigger] s[i]) as u32 != 0,
    ensures
        encode_utf8(s).len() < align,
        forall|j: int| 0 <= j < encode_utf8(s).len() ==> #[trigger] encode_utf8(s)[j] != 0,
{
    vstd::utf8::is_ascii_chars_encode_utf8(s);
}

/// The built-in SFX names fit the 52-byte record format.
pub proof fn lemma_sfx_defaults_storable()
    ensures
        spec_names_storable(spec_sfx_default_names(), SFX_NAME_ALIGN as int),
{
    reveal_strlit("FEET");
    lemma_ascii_name_storable("FEET"@, SFX_NAME_ALIGN as int);
    reveal_strlit("GENRL");
    lemma_ascii_name_storable("GENRL"@, SFX_NAME_ALIGN as int);
    reveal_strlit("PAIN_A");
    lemma_ascii_name_storable("PAIN_A"@, SFX_NAME_ALIGN as int);
    reveal_strlit("SCRIPT");
    lemma_ascii_name_storable("SCRIPT"@, SFX_NAME_ALIGN as int);
    reveal_strlit("SPC_EA");
    lemma_ascii_name_storable("SPC_EA"@, SFX_NAME_ALIGN as int);
    reveal_strlit("SPC_FA");
    lemma_ascii_name_storable("SPC_FA"@, SFX_NAME_ALIGN as int);
    reveal_strlit("SPC_GA");
    lemma_ascii_name_storable("SPC_GA"@, SFX_NAME_ALIGN as int);
    reveal_strlit("SPC_NA");
    lemma_ascii_name_storable("SPC_NA"@, SFX_NAME_ALIGN as int);
    reveal_strlit("SPC_PA");
    lemma_ascii_name_storable("SPC_PA"@, SFX_NAME_ALIGN as int);
    assert forall|i: int| 0 <= i < spec_sfx_default_names().len() implies {
        &&& (#[trigger] encode_utf8(spec_sfx_default_names()[i])).len() < SFX_NAME_ALIGN as int
        &&& forall|j: int|
            0 <= j < encode_utf8(spec_sfx_default_names()[i]).len() ==> encode_utf8(
                spec_sfx_default_names()[i],
            )[j] != 0
    } by {
        assert(spec_sfx_default_names().len() == 9);
    }
}

/// The built-in stream names fit the 16-byte record format.
pub proof fn lemma_stream_defaults_storable()
    ensures
        spec_names_storable(spec_stream_default_names(), STREAM_NAME_ALIGN as int),
{
    reveal_strlit("AA");
    lemma_ascii_name_storable("AA"@, STREAM_NAME_ALIGN as int);
    reveal_strlit("ADVERTS");
    lemma_ascii_name_storable("ADVERTS"@, STREAM_NAME_ALIGN as int);
    reveal_strlit("");
    lemma_ascii_name_storable(""@, STREAM_NAME_ALIGN as int);
    reveal_strlit("AMBIENCE");
    lemma_ascii_name_storable("AMBIENCE"@, STREAM_NAME_ALIGN as int);
    reveal_strlit("BEATS");
    lemma_ascii_name_storable("BEATS"@, STREAM_NAME_ALIGN as int);
    reveal_strlit("CH");
    lemma_ascii_name_storable("CH"@, STREAM_NAME_ALIGN as int);
    reveal_strlit("CO");
    lemma_ascii_name_storable("CO"@, STREAM_NAME_ALIGN as int);
    reveal_strlit("CR");
    lemma_ascii_name_storable("CR"@, STREAM_NAME_ALIGN as int);
    reveal_strlit("CUTSCENE");
    lemma_ascii_name_storable("CUTSCENE"@, STREAM_NAME_ALIGN as int);
    reveal_strlit("DS");
    lemma_ascii_name_storable("DS"@, STREAM_NAME_ALIGN as int);
    reveal_strlit("HC");
    lemma_ascii_name_storable("HC"@, STREAM_NAME_ALIGN as int);
    reveal_strlit("MH");
    lemma_ascii_name_storable("MH"@, STREAM_NAME_ALIGN as int);
    reveal_strlit("MR");
    lemma_ascii_name_storable("MR"@, STREAM_NAME_ALIGN as int);
    reveal_strlit("NJ");
    lemma_ascii_name_storable("NJ"@, STREAM_NAME_ALIGN as int);
    reveal_strlit("RE");
    lemma_ascii_name_storable("RE"@, STREAM_NAME_ALIGN as int);
    reveal_strlit("RG");
    lemma_ascii_name_storable("RG"@, STREAM_NAME_ALIGN as int);
    reveal_strlit("TK");
    lemma_ascii_name_storable("TK"@, STREAM_NAME_ALIGN as int);
    assert forall|i: int| 0 <= i < spec_stream_default_names().len() implies {
        &&& (#[trigger] encode_utf8(spec_stream_default_names()[i])).len() < STREAM_NAME_ALIGN
            as int
        &&& forall|j: int|
            0 <= j < encode_utf8(spec_stream_default_names()[i]).len() ==> encode_utf8(
                spec_stream_default_names()[i],
            )[j] != 0
    } by {
        assert(spec_stream_default_names().len() == 17);
    }
}

/// The built-in name lists survive their file formats: writing either
/// default list and cutting the file back into records yields exactly
/// the lists' UTF-8 names.
pub proof fn lemma_default_names_round_trip()
    ensures
        spec_records(
            spec_pak_file_bytes(spec_sfx_default_names(), SFX_NAME_ALIGN as int),
            SFX_NAME_ALIGN as int,
        ) == spec_sfx_default_names().map_values(|n: Seq<char>| encode_utf8(n)),
        spec_records(
            spec_pak_file_bytes(spec_stream_default_names(), STREAM_NAME_ALIGN as int),
            STREAM_NAME_ALIGN as int,
        ) == spec_stream_default_names().map_values(|n: Seq<char>| encode_utf8(n)),
{
    lemma_sfx_defaults_storable();
    lemma_stream_defaults_storable();
    lemma_paknames_round_trip(spec_sfx_default_names(), SFX_NAME_ALIGN as int);
    lemma_paknames_round_trip(spec_stream_default_names(), STREAM_NAME_ALIGN as int);
}

/// Relies on `String::from_utf8` of std: it succeeds exactly on valid
/// UTF-8 input, and the returned string's UTF-8 encoding is that input.
#[verifier::external_body]
fn string_from_utf8(bytes: Vec<u8>) -> (r: Option<String>)
    ensures
        r is Some <==> valid_utf8(bytes@),
        r matches Some(s) ==> encode_utf8(s@) == bytes@,
{
    String::from_utf8(bytes).ok()
}

/// A pak-name list for SFX or stream archives.
#[derive(Debug, Clone, PartialEq, Eq)]
pub struct PakNames {
    pub names: Vec<String>,
}

impl PakNames {
    /// The names as character sequences, in pak-index order.
    pub open spec fn spec_names(self) -> Seq<Seq<char>> {
        self.names@.map_values(|s: String| s@)
    }

    /// A list is well formed when a pak index (a `u8`) can address it.
    pub open spec fn wf(self) -> bool {
        self.names@.len() <= MAX_PAK_NAMES
    }

    /// The built-in SFX name list.
    pub fn sfx() -> (r: PakNames)
        ensures
            r.wf(),
            r.spec_names() == spec_sfx_default_names(),
    {
        let mut names: Vec<String> = Vec::new();
        names.push(String::from_str("FEET"));
        names.push(String::from_str("GENRL"));
        names.push(String::from_str("PAIN_A"));
        names.push(String::from_str("SCRIPT"));
        names.push(String::from_str("SPC_EA"));
        names.push(String::from_str("SPC_FA"));
        names.push(String::from_str("SPC_GA"));
        names.push(String::from_str("SPC_NA"));
        names.push(String::from_str("SPC_PA"));
        let r = PakNames { names };
        proof {
            assert(r.spec_names() =~= spec_sfx_default_names());
        }
        r
    }

    /// The built-in stream name list.
    pub fn stream() -> (r: PakNames)
        ensures
            r.wf(),
            r.spec_names() == spec_stream_default_names(),
    {
        let mut names: Vec<String> = Vec::new();
        names.push(String::from_str("AA"));
        names.push(String::from_str("ADVERTS"));
        names.push(String::from_str(""));
        names.push(String::from_str("AMBIENCE"));
        names.push(String::from_str("BEATS"));
        names.push(String::from_str("CH"));
        names.push(String::from_str("CO"));
        names.push(String::from_str("CR"));
        names.push(String::from_str("CUTSCENE"));
        names.push(String::from_str("DS"));
        names.push(String::from_str("HC"));
        names.push(String::from_str("MH"));
        names.push(String::from_str("MR"));
        names.push(String::from_str("NJ"));
        names.push(String::from_str("RE"));
        names.push(String::from_str("RG"));
        names.push(String::from_str("TK"));
        let r = PakNames { names };
        proof {
            assert(r.spec_names() =~= spec_stream_default_names());
        }
        r
    }

    /// The defaults whose name list contains the canonical form of `name`;
    /// the SFX list wins over the stream list.
    pub fn try_get_defaults(name: &str) -> (r: Option<PakNames>)
        ensures
            r matches Some(t) ==> {
                ||| (t.spec_names() == spec_sfx_default_names()
                    && spec_sfx_default_names().contains(spec_canon(name@)))
                ||| (t.spec_names() == spec_stream_default_names()
                    && spec_stream_default_names().contains(spec_canon(name@))
                    && !spec_sfx_default_names().contains(spec_canon(name@)))
            },
            r is None ==> !spec_sfx_default_names().contains(spec_canon(name@))
                && !spec_stream_default_names().contains(spec_canon(name@)),
    {
        let canon = canon_chars(name);
        let sfx = PakNames::sfx();
        if Self::contains_name(&sfx, &canon) {
            return Some(sfx);
        }
        let stream = PakNames::stream();
        if Self::contains_name(&stream, &canon) {
            return Some(stream);
        }
        None
    }

    /// Whether any name of the list equals `chars`.
    fn contains_name(&self, chars: &Vec<char>) -> (r: bool)
        ensures
            r == self.spec_names().contains(chars@),
    {
        let mut i: usize = 0;
        while i < self.names.len()
            invariant
                i <= self.names@.len(),
                forall|j: int| 0 <= j < i ==> self.spec_names()[j] != chars@,
            decreases self.names@.len() - i,
        {
            if chars_eq_str(chars, self.names[i].as_str()) {
                assert(self.spec_names()[i as int] == chars@);
                return true;
            }
            i = i + 1;
        }
        proof {
            if self.spec_names().contains(chars@) {
                let k = choose|k: int|
                    0 <= k < self.spec_names().len() && self.spec_names()[k] == chars@;
                assert(self.spec_names()[k] != chars@);
            }
        }
        false
    }

    /// Parse a pak-names file with record size `align`. Succeeds exactly
    /// when every stored name is valid UTF-8. The cap on the input size
    /// keeps the name count addressable by a pak index; a larger file
    /// cannot be used as a lookup at all.
    #[verifier::rlimit(50)]
    fn parse_names(bytes: &[u8], align: usize) -> (r: Result<Vec<String>, Error>)
        requires
            align >= 1,
            bytes@.len() <= MAX_PAK_NAMES * align,
        ensures
            r is Ok <==> (forall|i: int|
                0 <= i < spec_records(bytes@, align as int).len() ==> valid_utf8(
                    #[trigger] spec_records(bytes@, align as int)[i],
                )),
            r matches Ok(names) ==> {
                &&& names@.len() == spec_records(bytes@, align as int).len()
                &&& names@.len() <= MAX_PAK_NAMES
                &&& forall|i: int|
                    0 <= i < names@.len() ==> encode_utf8(#[trigger] names@[i]@)
                        == spec_records(bytes@, align as int)[i]
            },
            r matches Err(e) ==> e == Error::Utf8,
    {
        broadcast use vstd::utf8::encode_utf8_valid_utf8;

        let len = bytes.len();
        let ghost recs = spec_records(bytes@, align as int);
        let mut names: Vec<String> = Vec::new();
        let mut pos: usize = 0;
        proof {
            assert(bytes@.skip(0) =~= bytes@);
            assert(names@.map_values(|s: String| encode_utf8(s@)) =~= Seq::<Seq<u8>>::empty());
        }
        while pos < len
            invariant
                align >= 1,
                len == bytes@.len(),
                len <= MAX_PAK_NAMES * align,
                pos <= len,
                recs == spec_records(bytes@, align as int),
                pos == names@.len() * align || pos == len,
                names@.len() == 0 ==> pos == 0,
                names@.len() > 0 ==> (names@.len() - 1) * align < pos,
                recs =~= names@.map_values(|s: String| encode_utf8(s@)) + spec_records(
                    bytes@.skip(pos as int),
                    align as int,
                ),
            decreases len - pos,
        {
            let start = pos;
            let end = if len - pos > align {
                pos + align
            } else {
                len
            };
            let ghost block = bytes@.subrange(start as int, end as int);
            // find the NUL that ends the stored name inside this record
            let mut j = start;
            while j < end
                invariant
                    start <= j <= end,
                    end <= len,
                    len == bytes@.len(),
                    forall|m: int| start <= m < j ==> bytes@[m] != 0,
                ensures
                    start <= j <= end,
                    forall|m: int| start <= m < j ==> bytes@[m] != 0,
                    j == end || bytes@[j as int] == 0,
                decreases end - j,
            {
                if bytes[j] == 0 {
                    break;
                }
                j = j + 1;
            }
            proof {
                lemma_name_prefix(block, j - start);
                assert(block.take(j - start) =~= bytes@.subrange(start as int, j as int));
            }
            // collect the name bytes
            let mut nb: Vec<u8> = Vec::new();
            let mut m = start;
            while m < j
                invariant
                    start <= m <= j,
                    j <= len,
                    len == bytes@.len(),
                    nb@ == bytes@.subrange(start as int, m as int),
                decreases j - m,
            {
                nb.push(bytes[m]);
                proof {
                    assert(nb@ =~= bytes@.subrange(start as int, m + 1));
                }
                m = m + 1;
            }
            proof {
                // this record is the next one of the file
                let rest = spec_records(bytes@.skip(start as int), align as int);
                if len - start > align {
                    assert(bytes@.skip(start as int).take(align as int) =~= block);
                    assert(bytes@.skip(start as int).skip(align as int) =~= bytes@.skip(
                        end as int,
                    ));
                } else {
                    assert(bytes@.skip(start as int) =~= block);
                    assert(bytes@.skip(end as int) =~= Seq::<u8>::empty());
                }
                assert(rest == seq![spec_name_prefix(block)] + spec_records(
                    bytes@.skip(end as int),
                    align as int,
                ));
                assert(recs[names@.len() as int] == spec_name_prefix(block));
                assert(spec_name_prefix(block) == nb@);
            }
            match string_from_utf8(nb) {
                Some(s) => {
                    proof {
                        let prev = names@.map_values(|s2: String| encode_utf8(s2@));
                        assert(names@.push(s).map_values(|s2: String| encode_utf8(s2@))
                            =~= prev.push(encode_utf8(s@)));
                        assert((names@.len() + 1 - 1) * align == names@.len() * align + 0);
                        assert((names@.len() + 1) * align == names@.len() * align + align)
                            by (nonlinear_arith);
                    }
                    names.push(s);
                    pos = end;
                }
                None => {
                    proof {
                        assert(!valid_utf8(recs[names@.len() as int]));
                    }
                    return Err(Error::Utf8);
                }
            }
        }
        proof {
            assert(bytes@.skip(len as int) =~= Seq::<u8>::empty());
            assert(recs =~= names@.map_values(|s: String| encode_utf8(s@)));
            assert(forall|i: int| 0 <= i < names@.len() ==> recs[i] == encode_utf8(
                #[trigger] names@[i]@,
            ));
            if names@.len() > 0 {
                assert(names@.len() <= MAX_PAK_NAMES) by (nonlinear_arith)
                    requires
                        align >= 1,
                        (names@.len() - 1) * align < len,
                        len <= MAX_PAK_NAMES * align,
                ;
            }
        }
        Ok(names)
    }

    /// Read SFX pak names from the bytes of a `PakFiles.dat`.
    pub fn sfx_from_reader(bytes: &[u8]) -> (r: Result<PakNames, Error>)
        requires
            bytes@.len() <= MAX_PAK_NAMES * SFX_NAME_ALIGN,
        ensures
            r is Ok <==> (forall|i: int|
                0 <= i < spec_records(bytes@, SFX_NAME_ALIGN as int).len() ==> valid_utf8(
                    #[trigger] spec_records(bytes@, SFX_NAME_ALIGN as int)[i],
                )),
            r matches Ok(t) ==> {
                &&& t.wf()
                &&& t.spec_names().len() == spec_records(bytes@, SFX_NAME_ALIGN as int).len()
                &&& forall|i: int|
                    0 <= i < t.spec_names().len() ==> encode_utf8(#[trigger] t.spec_names()[i])
                        == spec_records(bytes@, SFX_NAME_ALIGN as int)[i]
            },
            r matches Err(e) ==> e == Error::Utf8,
    {
        match Self::parse_names(bytes, SFX_NAME_ALIGN) {
            Ok(names) => Ok(PakNames { names }),
            Err(e) => Err(e),
        }
    }

    /// Read stream pak names from the bytes of a `StrmPaks.dat`.
    pub fn stream_from_reader(bytes: &[u8]) -> (r: Result<PakNames, Error>)
        requires
            bytes@.len() <= MAX_PAK_NAMES * STREAM_NAME_ALIGN,
        ensures
            r is Ok <==> (forall|i: int|
                0 <= i < spec_records(bytes@, STREAM_NAME_ALIGN as int).len() ==> valid_utf8(
                    #[trigger] spec_records(bytes@, STREAM_NAME_ALIGN as int)[i],
                )),
            r matches Ok(t) ==> {
                &&& t.wf()
                &&& t.spec_names().len() == spec_records(bytes@, STREAM_NAME_ALIGN as int).len()
                &&& forall|i: int|
                    0 <= i < t.spec_names().len() ==> encode_utf8(#[trigger] t.spec_names()[i])
                        == spec_records(bytes@, STREAM_NAME_ALIGN as int)[i]
            },
            r matches Err(e) ==> e == Error::Utf8,
    {
        match Self::parse_names(bytes, STREAM_NAME_ALIGN) {
            Ok(names) => Ok(PakNames { names }),
            Err(e) => Err(e),
        }
    }

    /// Load a pak-names file, picking the format from the file's own name:
    /// `PakFiles` is the SFX layout, `StrmPaks` the stream layout, and any
    /// other name is rejected.
    pub fn from_reader(name: &str, bytes: &[u8]) -> (r: Result<PakNames, Error>)
        requires
            spec_canon(name@) == "PAKFILES"@ ==> bytes@.len() <= MAX_PAK_NAMES * SFX_NAME_ALIGN,
            spec_canon(name@) == "STRMPAKS"@ ==> bytes@.len() <= MAX_PAK_NAMES
                * STREAM_NAME_ALIGN,
        ensures
            (spec_canon(name@) != "PAKFILES"@ && spec_canon(name@) != "STRMPAKS"@) <==> r
                == Err::<PakNames, Error>(Error::UnknownLookupFile),
            spec_canon(name@) == "PAKFILES"@ ==> (r is Ok <==> (forall|i: int|
                0 <= i < spec_records(bytes@, SFX_NAME_ALIGN as int).len() ==> valid_utf8(
                    #[trigger] spec_records(bytes@, SFX_NAME_ALIGN as int)[i],
                ))),
            spec_canon(name@) == "STRMPAKS"@ ==> (r is Ok <==> (forall|i: int|
                0 <= i < spec_records(bytes@, STREAM_NAME_ALIGN as int).len() ==> valid_utf8(
                    #[trigger] spec_records(bytes@, STREAM_NAME_ALIGN as int)[i],
                ))),
            r matches Err(e) ==> (e == Error::UnknownLookupFile || e == Error::Utf8),
            spec_canon(name@) == "PAKFILES"@ ==> (r matches Ok(t) ==> t.wf()
                && t.spec_names().len() == spec_records(bytes@, SFX_NAME_ALIGN as int).len()
                && forall|i: int|
                0 <= i < t.spec_names().len() ==> encode_utf8(#[trigger] t.spec_names()[i])
                    == spec_records(bytes@, SFX_NAME_ALIGN as int)[i]),
            spec_canon(name@) == "STRMPAKS"@ ==> (r matches Ok(t) ==> t.wf()
                && t.spec_names().len() == spec_records(bytes@, STREAM_NAME_ALIGN as int).len()
                && forall|i: int|
                0 <= i < t.spec_names().len() ==> encode_utf8(#[trigger] t.spec_names()[i])
                    == spec_records(bytes@, STREAM_NAME_ALIGN as int)[i]),
    {
        broadcast use vstd::string::group_string_axioms;

        proof {
            reveal_strlit("PAKFILES");
            reveal_strlit("STRMPAKS");
            assert("PAKFILES"@[0] == 'P' && "STRMPAKS"@[0] == 'S');
        }
        let canon = canon_chars(name);
        if chars_eq_str(&canon, "PAKFILES") {
            match Self::sfx_from_reader(bytes) {
                Ok(t) => Ok(t),
                Err(e) => Err(e),
            }
        } else if chars_eq_str(&canon, "STRMPAKS") {
            match Self::stream_from_reader(bytes) {
                Ok(t) => Ok(t),
                Err(e) => Err(e),
            }
        } else {
            Err(Error::UnknownLookupFile)
        }
    }

    /// Append one null-padded record.
    fn append_record(out: &mut Vec<u8>, name: &String, align: usize)
        requires
            encode_utf8(name@).len() < align,
        ensures
            final(out)@ == old(out)@ + spec_zero_pad(encode_utf8(name@), align as int),
    {
        let ghost before = out@;
        let nb = name.as_str().as_bytes_vec();
        let mut w: usize = 0;
        while w < nb.len()
            invariant
                w <= nb@.len(),
                out@ == before + nb@.subrange(0, w as int),
            decreases nb@.len() - w,
        {
            out.push(nb[w]);
            proof {
                assert(out@ =~= before + nb@.subrange(0, w + 1));
            }
            w = w + 1;
        }
        proof {
            assert(nb@.subrange(0, nb@.len() as int) =~= nb@);
        }
        let mut p = nb.len();
        while p < align
            invariant
                nb@.len() <= p <= align,
                out@ == before + nb@ + Seq::new((p - nb@.len()) as nat, |q: int| 0u8),
            decreases align - p,
        {
            out.push(0);
            proof {
                assert(out@ =~= before + nb@ + Seq::new((p + 1 - nb@.len()) as nat, |q: int| 0u8));
            }
            p = p + 1;
        }
        proof {
            assert(out@ =~= before + spec_zero_pad(encode_utf8(name@), align as int));
        }
    }

    /// Serialize the list with record size `align`.
    fn write_names(&self, align: usize) -> (out: Vec<u8>)
        requires
            align >= 1,
            spec_names_storable(self.spec_names(), align as int),
        ensures
            out@ == spec_pak_file_bytes(self.spec_names(), align as int),
    {
        let mut out: Vec<u8> = Vec::new();
        let mut i: usize = 0;
        proof {
            assert(self.spec_names().skip(0) =~= self.spec_names());
        }
        while i < self.names.len()
            invariant
                i <= self.names@.len(),
                align >= 1,
                spec_names_storable(self.spec_names(), align as int),
                spec_pak_file_bytes(self.spec_names(), align as int) == out@
                    + spec_pak_file_bytes(self.spec_names().skip(i as int), align as int),
            decreases self.names@.len() - i,
        {
            let ghost before = out@;
            proof {
                assert(self.spec_names()[i as int] == self.names@[i as int]@);
            }
            Self::append_record(&mut out, &self.names[i], align);
            proof {
                let rest = self.spec_names().skip(i as int);
                assert(rest[0] == self.spec_names()[i as int]);
                assert(rest.skip(1) =~= self.spec_names().skip(i + 1));
                assert(spec_pak_file_bytes(rest, align as int) == spec_zero_pad(
                    encode_utf8(rest[0]),
                    align as int,
                ) + spec_pak_file_bytes(rest.skip(1), align as int));
                assert(out@ =~= before + spec_zero_pad(
                    encode_utf8(self.spec_names()[i as int]),
                    align as int,
                ));
            }
            i = i + 1;
        }
        proof {
            assert(self.spec_names().skip(self.names@.len() as int) =~= Seq::<Seq<char>>::empty());
        }
        out
    }

    /// Serialize the list in the SFX (`PakFiles.dat`) layout.
    pub fn write_sfx(&self) -> (out: Vec<u8>)
        requires
            spec_names_storable(self.spec_names(), SFX_NAME_ALIGN as int),
        ensures
            out@ == spec_pak_file_bytes(self.spec_names(), SFX_NAME_ALIGN as int),
    {
        self.write_names(SFX_NAME_ALIGN)
    }

    /// Serialize the list in the stream (`StrmPaks.dat`) layout.
    pub fn write_stream(&self) -> (out: Vec<u8>)
        requires
            spec_names_storable(self.spec_names(), STREAM_NAME_ALIGN as int),
        ensures
            out@ == spec_pak_file_bytes(self.spec_names(), STREAM_NAME_ALIGN as int),
    {
        self.write_names(STREAM_NAME_ALIGN)
    }

    /// The pak index of `name`: the first list position whose entry equals
    /// the canonical form of `name`. The empty name never matches.
    pub fn get_pak_idx_from_name(&self, name: &str) -> (r: Option<u8>)
        requires
            self.wf(),
        ensures
            r == match spec_pak_index(self.spec_names(), name@) {
                Option::Some(i) => Option::Some(i as u8),
                Option::None => Option::None::<u8>,
            },
            r matches Some(i) ==> {
                &&& name@.len() > 0
                &&& i < self.spec_names().len()
                &&& self.spec_names()[i as int] == spec_canon(name@)
                &&& forall|j: int| 0 <= j < i ==> self.spec_names()[j] != spec_canon(name@)
            },
            (name@.len() > 0 && r is None) ==> forall|j: int|
                0 <= j < self.spec_names().len() ==> self.spec_names()[j] != spec_canon(name@),
    {
        if name.unicode_len() == 0 {
            return None;
        }
        let canon = canon_chars(name);
        let mut i: usize = 0;
        while i < self.names.len()
            invariant
                i <= self.names@.len(),
                self.names@.len() <= MAX_PAK_NAMES,
                name@.len() > 0,
                canon@ == spec_canon(name@),
                forall|j: int| 0 <= j < i ==> self.spec_names()[j] != spec_canon(name@),
                spec_pak_index(self.spec_names(), name@) == spec_first_match(
                    self.spec_names(),
                    spec_canon(name@),
                    i as int,
                ),
            decreases self.names@.len() - i,
        {
            if chars_eq_str(&canon, self.names[i].as_str()) {
                assert(self.spec_names()[i as int] == self.names@[i as int]@);
                return Some(i as u8);
            }
            assert(self.spec_names()[i as int] == self.names@[i as int]@);
            i = i + 1;
        }
        None
    }
}

} // verus!
