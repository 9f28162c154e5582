//! GUIDs and checksums from outside crates.
use uuid::Uuid;
use vstd::prelude::*;

verus! {

/// The 16 bytes of the GUID that `uuid::Uuid::parse_str` reads from `s`,
/// in the mixed-endian order GPT stores (`Uuid::to_bytes_le`: the first
/// three fields little-endian), or `None` where the parser refuses `s`.
pub uninterp spec fn parsed_guid(s: Seq<char>) -> Option<Seq<u8>>;

/// The value of a hexadecimal digit (either case).
pub open spec fn hex_val(c: char) -> Option<u8> {
    let v = c as u32;
    if 0x30 <= v <= 0x39 {
        Some((v - 0x30) as u8)
    } else if 0x61 <= v <= 0x66 {
        Some((v - 0x61 + 10) as u8)
    } else if 0x41 <= v <= 0x46 {
        Some((v - 0x41 + 10) as u8)
    } else {
        None
    }
}

/// The byte written by the two hexadecimal digits at `i` of `s`.
pub open spec fn hex_at(s: Seq<char>, i: int) -> Option<u8> {
    match (hex_val(s[i]), hex_val(s[i + 1])) {
        (Some(h), Some(l)) => Some((h * 16 + l) as u8),
        _ => None,
    }
}

/// Where the digits of byte `k` start in the text
/// `xxxxxxxx-xxxx-xxxx-xxxx-xxxxxxxxxxxx`.
pub open spec fn digit_pos(k: int) -> int {
    if k < 4 {
        2 * k
    } else if k < 6 {
        2 * k + 1
    } else if k < 8 {
        2 * k + 2
    } else if k < 10 {
        2 * k + 3
    } else {
        2 * k + 4
    }
}

/// The 16 bytes a hyphenated GUID text spells, in the order they are
/// written, where `s` is one.
pub open spec fn text_bytes(s: Seq<char>) -> Option<Seq<u8>> {
    if s.len() == 36 && s[8] == '-' && s[13] == '-' && s[18] == '-' && s[23] == '-' && (forall|k: int|
        0 <= k < 16 ==> (#[trigger] hex_at(s, digit_pos(k))) is Some) {
        Some(Seq::new(16, |k: int| hex_at(s, digit_pos(k))->0))
    } else {
        None
    }
}

/// GPT's mixed-endian order of GUID bytes: the first three fields
/// reversed, the rest as written.
pub open spec fn gpt_guid_order(b: Seq<u8>) -> Seq<u8> {
    seq![b[3], b[2], b[1], b[0], b[5], b[4], b[7], b[6]] + b.subrange(8, 16)
}

/// The GPT bytes of a hyphenated GUID text, where `s` is one.
pub open spec fn hyphenated_guid(s: Seq<char>) -> Option<Seq<u8>> {
    match text_bytes(s) {
        Some(b) => Some(gpt_guid_order(b)),
        None => None,
    }
}

/// The GPT bytes of a GUID text: those of a hyphenated GUID, else what
/// the parser reads from the other forms (or `None`).
pub open spec fn guid_bytes(s: Seq<char>) -> Option<Seq<u8>> {
    if hyphenated_guid(s) is Some { hyphenated_guid(s) } else { parsed_guid(s) }
}

/// One bit of the reflected CRC-32 (IEEE) register: shift right, and
/// where a one fell out, add the reflected polynomial 0xEDB88320.
pub open spec fn crc_bit(c: u32) -> u32 {
    if c & 1 == 1 { (c >> 1) ^ 0xEDB8_8320u32 } else { c >> 1 }
}

/// The register after taking in byte `b`: the byte added into the low
/// bits, then eight bit steps.
pub open spec fn crc_byte(c: u32, b: u8) -> u32 {
    crc_bit(crc_bit(crc_bit(crc_bit(crc_bit(crc_bit(crc_bit(crc_bit(c ^ (b as u32)))))))))
}

/// The register after `data`, from all ones.
pub open spec fn crc_reg(data: Seq<u8>) -> u32
    decreases data.len(),
{
    if data.len() == 0 {
        0xFFFF_FFFFu32
    } else {
        crc_byte(crc_reg(data.drop_last()), data.last())
    }
}

/// The CRC-32 (IEEE 802.3, as `crc32fast` computes it) of `data`: the
/// register after the data, inverted.
pub open spec fn crc32_of(data: Seq<u8>) -> u32 {
    crc_reg(data) ^ 0xFFFF_FFFFu32
}

/// Parses a GUID with `uuid::Uuid::parse_str` and returns its bytes in
/// GPT order (`Uuid::to_bytes_le`), or `None` where the parser refuses the
/// text. For a hyphenated text (36 characters, hyphens at 8, 13, 18 and
/// 23, hexadecimal digits of either case elsewhere) the parser's
/// `parse_hyphenated` always succeeds, and the bytes are stated; for the
/// other forms it reads (simple, braced, URN) they are named.
#[verifier::external_body]
pub(crate) fn parse_guid(s: &str) -> (r: Option<[u8; 16]>)
    ensures
        r matches Some(b) ==> parsed_guid(s@) == Some(b@),
        r is None ==> parsed_guid(s@) is None,
        hyphenated_guid(s@) is Some ==> r is Some && r->0@ == hyphenated_guid(s@)->0,
        r is Some <==> guid_bytes(s@) is Some,
{
    match Uuid::parse_str(s) {
        Ok(u) => Some(u.to_bytes_le()),
        Err(_) => None,
    }
}

/// A random GUID from `uuid::Uuid::new_v4`, as bytes. The source sets the
/// version nibble (the high half of byte 6) to 4 and the two high bits of
/// byte 8 to `10` (RFC 4122 variant); the other bits are random and
/// nothing is claimed of them.
#[verifier::external_body]
pub(crate) fn random_guid() -> (r: [u8; 16])
    ensures
        r@[6] / 16 == 4,
        r@[8] / 64 == 2,
{
    Uuid::new_v4().into_bytes()
}

/// The CRC-32 of `data`, by `crc32fast::hash`, whose result is the
/// standard CRC-32 (`crc32_of`).
#[verifier::external_body]
pub(crate) fn crc32(data: &[u8]) -> (r: u32)
    ensures
        r == crc32_of(data@),
{
    crc32fast::hash(data)
}

} // verus!
