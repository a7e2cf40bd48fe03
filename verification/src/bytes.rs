//! Little-endian field readers and the shared 8-byte name convention of the
//! lump formats. Every reader is specified exactly against the byte
//! sequence it consumes.

use vstd::prelude::*;
use crate::error::AssetError;

verus! {

/// The unsigned value of the two little-endian bytes at `i`.
pub open spec fn le16(b: Seq<u8>, i: int) -> int {
    b[i] as int + 0x100 * (b[i + 1] as int)
}

/// The unsigned value of the four little-endian bytes at `i`.
pub open spec fn le32(b: Seq<u8>, i: int) -> int {
    b[i] as int + 0x100 * (b[i + 1] as int) + 0x10000 * (b[i + 2] as int) + 0x1000000 * (b[i
        + 3] as int)
}

/// Two's-complement reading of a 16-bit unsigned value.
pub open spec fn signed16(v: int) -> int {
    if v < 0x8000 {
        v
    } else {
        v - 0x10000
    }
}

/// Two's-complement reading of a 32-bit unsigned value.
pub open spec fn signed32(v: int) -> int {
    if v < 0x8000_0000 {
        v
    } else {
        v - 0x1_0000_0000
    }
}

pub fn read_u16(b: &Vec<u8>, i: usize) -> (r: u16)
    requires
        i + 2 <= b.len(),
    ensures
        r as int == le16(b@, i as int),
{
    b[i] as u16 + 0x100 * (b[i + 1] as u16)
}

pub fn read_i16(b: &Vec<u8>, i: usize) -> (r: i16)
    requires
        i + 2 <= b.len(),
    ensures
        r as int == signed16(le16(b@, i as int)),
{
    let v: u16 = read_u16(b, i);
    if v < 0x8000 {
        v as i16
    } else {
        -((0xFFFFu16 - v) as i16) - 1
    }
}

pub fn read_u32(b: &Vec<u8>, i: usize) -> (r: u32)
    requires
        i + 4 <= b.len(),
    ensures
        r as int == le32(b@, i as int),
{
    b[i] as u32 + 0x100 * (b[i + 1] as u32) + 0x10000 * (b[i + 2] as u32) + 0x1000000 * (b[i
        + 3] as u32)
}

pub fn read_i32(b: &Vec<u8>, i: usize) -> (r: i32)
    requires
        i + 4 <= b.len(),
    ensures
        r as int == signed32(le32(b@, i as int)),
{
    let v: u32 = read_u32(b, i);
    if v < 0x8000_0000 {
        v as i32
    } else {
        -((0xFFFF_FFFFu32 - v) as i32) - 1
    }
}

/// The raw bytes with their trailing zero bytes removed.
pub open spec fn trim_zeros(s: Seq<u8>) -> Seq<u8>
    decreases s.len(),
{
    if s.len() > 0 && s[s.len() - 1] == 0 {
        trim_zeros(s.drop_last())
    } else {
        s
    }
}

/// Whether the 8 raw bytes at `i` are the "no texture" marker: an ASCII
/// minus sign followed by seven zero bytes.
pub open spec fn name8_absent(b: Seq<u8>, i: int) -> bool {
    b[i] == 45 && b[i + 1] == 0 && b[i + 2] == 0 && b[i + 3] == 0 && b[i + 4] == 0 && b[i + 5] == 0
        && b[i + 6] == 0 && b[i + 7] == 0
}

/// What an 8-byte name field at `i` decodes to: the marker means "absent";
/// any other byte sequence is trimmed of trailing zero bytes and read as
/// UTF-8, which fails if the trimmed bytes are not valid UTF-8.
pub open spec fn spec_name8(b: Seq<u8>, i: int) -> Result<Option<Seq<char>>, AssetError> {
    if name8_absent(b, i) {
        Ok(None)
    } else {
        let t = trim_zeros(b.subrange(i, i + 8));
        if vstd::utf8::valid_utf8(t) {
            Ok(Some(vstd::utf8::decode_utf8(t)))
        } else {
            Err(AssetError::InvalidText)
        }
    }
}

/// What an 8-byte name field decodes to when no "absent" marker applies:
/// the bytes trimmed of trailing zeros and read as UTF-8.
pub open spec fn spec_name8_raw(b: Seq<u8>, i: int) -> Result<Seq<char>, AssetError> {
    let t = trim_zeros(b.subrange(i, i + 8));
    if vstd::utf8::valid_utf8(t) {
        Ok(vstd::utf8::decode_utf8(t))
    } else {
        Err(AssetError::InvalidText)
    }
}

/// Relies on String::from_utf8: it succeeds exactly on valid UTF-8 and the
/// returned string's characters are the decoded scalar values.
#[verifier::external_body]
fn string_from_utf8(v: Vec<u8>) -> (r: Option<String>)
    ensures
        r is Some <==> vstd::utf8::valid_utf8(v@),
        r is Some ==> r->0@ == vstd::utf8::decode_utf8(v@),
{
    String::from_utf8(v).ok()
}

proof fn lemma_trim_zeros_take(s: Seq<u8>, j: int)
    requires
        0 <= j <= s.len(),
        forall|k: int| j <= k < s.len() ==> s[k] == 0,
    ensures
        trim_zeros(s) == trim_zeros(s.take(j)),
    decreases s.len() - j,
{
    if j < s.len() {
        assert(s[s.len() - 1] == 0);
        assert(s.drop_last() =~= s.take(s.len() - 1));
        lemma_trim_zeros_take(s.take(s.len() - 1), j);
        assert(s.take(s.len() - 1).take(j) =~= s.take(j));
    } else {
        assert(s.take(j) =~= s);
    }
}

/// The 8 bytes at `i` with their trailing zeros removed.
fn read_trimmed8(b: &Vec<u8>, i: usize) -> (r: Vec<u8>)
    requires
        i + 8 <= b.len(),
    ensures
        r@ == trim_zeros(b@.subrange(i as int, i as int + 8)),
{
    let ghost raw = b@.subrange(i as int, i as int + 8);
    let mut j: usize = 8;
    while j > 0 && b[i + j - 1] == 0
        invariant
            i + 8 <= b.len(),
            j <= 8,
            raw == b@.subrange(i as int, i as int + 8),
            forall|k: int| j <= k < 8 ==> raw[k] == 0,
        decreases j,
    {
        j = j - 1;
    }
    proof {
        lemma_trim_zeros_take(raw, j as int);
        if j > 0 {
            assert(raw.take(j as int)[j - 1] == raw[j - 1]);
            assert(raw[j - 1] == b@[i + j - 1]);
            assert(trim_zeros(raw.take(j as int)) == raw.take(j as int));
        } else {
            assert(raw.take(0) =~= Seq::<u8>::empty());
            assert(trim_zeros(raw.take(0)) == raw.take(0));
        }
    }
    let mut out: Vec<u8> = Vec::new();
    let mut k: usize = 0;
    while k < j
        invariant
            i + 8 <= b.len(),
            j <= 8,
            k <= j,
            raw == b@.subrange(i as int, i as int + 8),
            out@ == raw.take(k as int),
        decreases j - k,
    {
        out.push(b[i + k]);
        proof {
            assert(raw.take(k + 1 as int) =~= raw.take(k as int).push(b@[i + k]));
        }
        k = k + 1;
    }
    assert(out@ == trim_zeros(raw));
    out
}

/// Decode the 8-byte name field at offset `i`.
pub fn parse_name8(b: &Vec<u8>, i: usize) -> (r: Result<Option<String>, AssetError>)
    requires
        i + 8 <= b.len(),
    ensures
        r is Ok <==> spec_name8(b@, i as int) is Ok,
        r is Err ==> r->Err_0 == spec_name8(b@, i as int)->Err_0,
        r is Ok ==> (r->Ok_0 is Some <==> spec_name8(b@, i as int)->Ok_0 is Some),
        r is Ok && r->Ok_0 is Some ==> r->Ok_0->0@ == spec_name8(b@, i as int)->Ok_0->0,
{
    if b[i] == 45 && b[i + 1] == 0 && b[i + 2] == 0 && b[i + 3] == 0 && b[i + 4] == 0 && b[i + 5]
        == 0 && b[i + 6] == 0 && b[i + 7] == 0 {
        return Ok(None);
    }
    let out = read_trimmed8(b, i);
    match string_from_utf8(out) {
        Some(s) => Ok(Some(s)),
        None => Err(AssetError::InvalidText),
    }
}

/// Decode the 8-byte name field at offset `i`, with no "absent" marker.
pub fn parse_name8_raw(b: &Vec<u8>, i: usize) -> (r: Result<String, AssetError>)
    requires
        i + 8 <= b.len(),
    ensures
        r is Ok <==> spec_name8_raw(b@, i as int) is Ok,
        r is Err ==> r->Err_0 == spec_name8_raw(b@, i as int)->Err_0,
        r is Ok ==> r->Ok_0@ == spec_name8_raw(b@, i as int)->Ok_0,
{
    let out = read_trimmed8(b, i);
    match string_from_utf8(out) {
        Some(s) => Ok(s),
        None => Err(AssetError::InvalidText),
    }
}

} // verus!
