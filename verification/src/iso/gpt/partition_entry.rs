//! GPT partition entries.
use crate::bytes::{le16, le64, push_le16, push_le64, push_slice};
use crate::fat::utf16;
use crate::iso::gpt::guid::{guid_bytes, parse_guid};
use vstd::prelude::*;

verus! {

/// The type GUID of an EFI system partition.
pub const EFI_SYSTEM_PARTITION_GUID: &'static str = "C12A7328-F81F-11D2-BA4B-00A0C93EC93B";

/// A GPT partition entry (128 bytes on disk).
#[derive(Debug, Clone, Copy)]
pub struct GptPartitionEntry {
    pub partition_type_guid: [u8; 16],
    pub unique_partition_guid: [u8; 16],
    pub starting_lba: u64,
    pub ending_lba: u64,
    pub attributes: u64,
    /// The name in UTF-16, zero-padded.
    pub partition_name: [u16; 36],
}

/// The first 36 UTF-16 units of `name`, zero-padded to 36.
pub open spec fn name_units(name: Seq<char>) -> Seq<u16> {
    let u = utf16(name);
    Seq::new(36, |i: int| if i < u.len() { u[i] } else { 0u16 })
}

/// The little-endian bytes of UTF-16 units.
pub open spec fn units_bytes(u: Seq<u16>) -> Seq<u8>
    decreases u.len(),
{
    if u.len() == 0 {
        Seq::empty()
    } else {
        units_bytes(u.drop_last()) + le16(u.last())
    }
}

/// An entry takes 128 bytes on disk.
pub proof fn lemma_entry_len(e: GptPartitionEntry)
    ensures
        e.spec_bytes().len() == 128,
{
    lemma_units_bytes_len(e.partition_name@);
}

proof fn lemma_units_bytes_len(u: Seq<u16>)
    ensures
        units_bytes(u).len() == 2 * u.len(),
    decreases u.len(),
{
    if u.len() > 0 {
        lemma_units_bytes_len(u.drop_last());
    }
}

impl GptPartitionEntry {
    /// The 128 bytes of the entry on disk.
    pub open spec fn spec_bytes(&self) -> Seq<u8> {
        self.partition_type_guid@ + self.unique_partition_guid@ + le64(self.starting_lba) + le64(
            self.ending_lba,
        ) + le64(self.attributes) + units_bytes(self.partition_name@)
    }

    /// The entry with the given GUIDs (as bytes), range and attributes,
    /// named by the first 36 UTF-16 units of `partition_name`.
    pub fn from_guid_bytes(
        partition_type_guid: [u8; 16],
        unique_partition_guid: [u8; 16],
        starting_lba: u64,
        ending_lba: u64,
        partition_name: &str,
        attributes: u64,
    ) -> (e: Self)
        ensures
            e.partition_type_guid == partition_type_guid,
            e.unique_partition_guid == unique_partition_guid,
            e.starting_lba == starting_lba,
            e.ending_lba == ending_lba,
            e.attributes == attributes,
            e.partition_name@ == name_units(partition_name@),
    {
        let chars = crate::fat::collect_chars(partition_name);
        let units = crate::fat::encode_utf16(&chars);
        let mut name_bytes = [0u16; 36];
        let mut i: usize = 0;
        while i < 36 && i < units.len()
            invariant
                i <= 36,
                i <= units@.len(),
                units@ == utf16(partition_name@),
                name_bytes@.len() == 36,
                forall|k: int| 0 <= k < i ==> name_bytes@[k] == units@[k],
                forall|k: int| i <= k < 36 ==> name_bytes@[k] == 0,
            decreases 36 - i,
        {
            name_bytes[i] = units[i];
            i = i + 1;
        }
        assert(name_bytes@ =~= name_units(partition_name@));
        GptPartitionEntry {
            partition_type_guid,
            unique_partition_guid,
            starting_lba,
            ending_lba,
            attributes,
            partition_name: name_bytes,
        }
    }

    /// The entry with the GUIDs parsed from their text form (a hyphenated
    /// GUID's bytes in GPT order: see `guid_bytes`).
    pub fn new(
        partition_type_guid: &str,
        unique_partition_guid: &str,
        starting_lba: u64,
        ending_lba: u64,
        partition_name: &str,
        attributes: u64,
    ) -> (e: Self)
        requires
            guid_bytes(partition_type_guid@) is Some,
            guid_bytes(unique_partition_guid@) is Some,
        ensures
            guid_bytes(partition_type_guid@) == Some(e.partition_type_guid@),
            guid_bytes(unique_partition_guid@) == Some(e.unique_partition_guid@),
            e.starting_lba == starting_lba,
            e.ending_lba == ending_lba,
            e.attributes == attributes,
            e.partition_name@ == name_units(partition_name@),
    {
        let t = match parse_guid(partition_type_guid) {
            Some(b) => b,
            None => [0u8; 16],
        };
        let u = match parse_guid(unique_partition_guid) {
            Some(b) => b,
            None => [0u8; 16],
        };
        Self::from_guid_bytes(t, u, starting_lba, ending_lba, partition_name, attributes)
    }

    /// The entry with the GUIDs parsed from their text form, or `None`
    /// where either text is not a GUID.
    pub fn try_new(
        partition_type_guid: &str,
        unique_partition_guid: &str,
        starting_lba: u64,
        ending_lba: u64,
        partition_name: &str,
        attributes: u64,
    ) -> (r: Option<Self>)
        ensures
            (guid_bytes(partition_type_guid@) is Some && guid_bytes(unique_partition_guid@) is Some) <==> r is Some,
            r matches Some(e) ==> {
                &&& guid_bytes(partition_type_guid@) == Some(e.partition_type_guid@)
                &&& guid_bytes(unique_partition_guid@) == Some(e.unique_partition_guid@)
                &&& e.starting_lba == starting_lba
                &&& e.ending_lba == ending_lba
                &&& e.attributes == attributes
                &&& e.partition_name@ == name_units(partition_name@)
            },
    {
        if parse_guid(partition_type_guid).is_none() || parse_guid(unique_partition_guid).is_none() {
            return None;
        }
        Some(Self::new(partition_type_guid, unique_partition_guid, starting_lba, ending_lba, partition_name, attributes))
    }

    /// The 128 bytes of the entry on disk.
    pub fn to_bytes(&self) -> (b: [u8; 128])
        ensures
            b@ == self.spec_bytes(),
    {
        let mut v: Vec<u8> = Vec::new();
        push_slice(&mut v, &self.partition_type_guid);
        push_slice(&mut v, &self.unique_partition_guid);
        push_le64(&mut v, self.starting_lba);
        push_le64(&mut v, self.ending_lba);
        push_le64(&mut v, self.attributes);
        let ghost pre = v@;
        let mut i: usize = 0;
        while i < 36
            invariant
                i <= 36,
                self.partition_name@.len() == 36,
                v@ == pre + units_bytes(self.partition_name@.take(i as int)),
            decreases 36 - i,
        {
            push_le16(&mut v, self.partition_name[i]);
            i = i + 1;
            assert(self.partition_name@.take(i as int).drop_last() =~= self.partition_name@.take(i - 1));
        }
        assert(self.partition_name@.take(36) =~= self.partition_name@);
        assert(v@ =~= self.spec_bytes());
        proof {
            lemma_units_bytes_len(self.partition_name@);
        }
        crate::bytes::to_array_128(&v)
    }

    /// Appends the 128 bytes of the entry to `out`.
    pub fn write_to(&self, out: &mut Vec<u8>)
        ensures
            final(out)@ == old(out)@ + self.spec_bytes(),
    {
        let b = self.to_bytes();
        push_slice(out, &b);
    }
}

} // verus!
