//! ISO 9660 directory records.
use crate::bytes::{be16, be32, le16, le32, push_be16, push_be32, push_le16, push_le32, push_slice, push_zeros, zeros};
use crate::fat_image::{to_uppercase, uppercase_of};
use vstd::prelude::*;
use vstd::utf8::encode_utf8;

verus! {

/// A directory record to encode: the extent, its length, the flags (bit 1
/// marks a directory) and the name.
pub struct IsoDirEntry<'a> {
    pub lba: u32,
    pub size: u32,
    pub flags: u8,
    pub name: &'a str,
}

/// The file identifier of a record: byte 0 for ".", byte 1 for "..", the
/// upper-case name for a directory, and the upper-case name with ";1" for
/// a file.
pub open spec fn file_id(name: Seq<char>, flags: u8) -> Seq<u8> {
    if name == seq!['.'] {
        seq![0u8]
    } else if name == seq!['.', '.'] {
        seq![1u8]
    } else if flags & 2 != 0 {
        encode_utf8(uppercase_of(name))
    } else {
        encode_utf8(uppercase_of(name)) + seq![0x3Bu8, 0x31]
    }
}

/// The ISO 9660 bytes of a record with identifier `id`: its length (33
/// plus the identifier, padded to even), the extent and the data length
/// each little- then big-endian, a zero recording date, the flags (byte
/// 25), volume sequence number 1 both-endian, the identifier's length
/// (byte 32), the identifier (from byte 33) and the padding byte.
pub open spec fn record_bytes(lba: u32, size: u32, flags: u8, id: Seq<u8>) -> Seq<u8> {
    let total = 33 + id.len();
    let pad = total % 2;
    seq![(total + pad) as u8, 0] + le32(lba) + be32(lba) + le32(size) + be32(size) + zeros(7) + seq![flags, 0, 0]
        + le16(1) + be16(1) + seq![id.len() as u8] + id + zeros(pad as nat)
}

impl<'a> IsoDirEntry<'a> {
    /// The record's file identifier.
    pub open spec fn spec_id(&self) -> Seq<u8> {
        file_id(self.name@, self.flags)
    }

    /// The record's bytes.
    pub open spec fn spec_bytes(&self) -> Seq<u8> {
        record_bytes(self.lba, self.size, self.flags, self.spec_id())
    }

    /// The file identifier of the record.
    fn identifier(&self) -> (id: Vec<u8>)
        ensures
            id@ == self.spec_id(),
    {
        let chars = crate::fat::collect_chars(self.name);
        if chars.len() == 1 && chars[0] == '.' {
            assert(chars@ =~= seq!['.']);
            let mut v: Vec<u8> = Vec::new();
            v.push(0);
            return v;
        }
        if chars.len() == 2 && chars[0] == '.' && chars[1] == '.' {
            assert(chars@ =~= seq!['.', '.']);
            let mut v: Vec<u8> = Vec::new();
            v.push(1);
            return v;
        }
        let upper = to_uppercase(self.name);
        let mut v: Vec<u8> = Vec::new();
        push_slice(&mut v, upper.as_str().as_bytes());
        if self.flags & 0x02 == 0 {
            v.push(0x3B);
            v.push(0x31);
        }
        v
    }

    /// The bytes of the record, or `None` where the identifier is too long
    /// for a record (over 221 bytes).
    pub fn try_to_bytes(&self) -> (r: Option<Vec<u8>>)
        ensures
            r is Some <==> self.spec_id().len() <= 221,
            r matches Some(b) ==> b@ == self.spec_bytes(),
    {
        let id = self.identifier();
        if id.len() > 221 {
            return None;
        }
        Some(self.to_bytes())
    }

    /// The bytes of the record.
    pub fn to_bytes(&self) -> (r: Vec<u8>)
        requires
            self.spec_id().len() <= 221,
        ensures
            r@ == self.spec_bytes(),
    {
        let id = self.identifier();
        record_from_id(self.lba, self.size, self.flags, &id)
    }
}

/// The bytes of a record with identifier `id`.
fn record_from_id(lba: u32, size: u32, flags: u8, id: &Vec<u8>) -> (r: Vec<u8>)
    requires
        id@.len() <= 221,
    ensures
        r@ == record_bytes(lba, size, flags, id@),
{
    let total = 33 + id.len();
    let pad: usize = if total % 2 == 0 {
        0
    } else {
        1
    };
    let record_len = (total + pad) as u8;
    let mut r: Vec<u8> = Vec::new();
    r.push(record_len);
    r.push(0);
    push_le32(&mut r, lba);
    push_be32(&mut r, lba);
    push_le32(&mut r, size);
    push_be32(&mut r, size);
    push_zeros(&mut r, 7);
    r.push(flags);
    r.push(0);
    r.push(0);
    push_le16(&mut r, 1);
    push_be16(&mut r, 1);
    r.push(id.len() as u8);
    push_slice(&mut r, id.as_slice());
    push_zeros(&mut r, pad);
    assert(r@ =~= record_bytes(lba, size, flags, id@));
    r
}

} // verus!
