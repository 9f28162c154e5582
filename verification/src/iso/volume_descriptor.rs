//! The ISO 9660 volume descriptors: primary, El Torito boot record and
//! set terminator.
use crate::bytes::{
    be16, be32, le16, le32, lemma_write_at, push_be16, push_be32, push_le16, push_le32, push_slice, push_zeros,
    write_at, write_at_spec, zeros,
};
use crate::iso::boot_catalog::{el_torito_id, push_el_torito_id, LBA_BOOT_CATALOG};
use crate::iso::dir_record::IsoDirEntry;
use vstd::prelude::*;
use vstd::string::StringSliceAdditionalSpecFns;

verus! {

/// Byte offsets within the primary volume descriptor.
const PVD_VOL_ID: usize = 40;
const PVD_TOTAL_SEC: usize = 80;
const PVD_ROOT_DIR: usize = 156;

/// A 32-bit value both little- and big-endian.
pub open spec fn dual32(v: u32) -> Seq<u8> {
    le32(v) + be32(v)
}

/// A 16-bit value both little- and big-endian.
pub open spec fn dual16(v: u16) -> Seq<u8> {
    le16(v) + be16(v)
}

/// "CD001".
pub open spec fn cd001() -> Seq<u8> {
    seq![0x43u8, 0x44, 0x30, 0x30, 0x31]
}

/// The 17-byte date "2024010100000000" with its zero time-zone byte.
pub open spec fn fixed_date() -> Seq<u8> {
    seq![0x32u8, 0x30, 0x32, 0x34, 0x30, 0x31, 0x30, 0x31] + seq![0x30u8, 0x30, 0x30, 0x30, 0x30, 0x30, 0x30, 0x30]
        + seq![0u8]
}

/// The volume identifier field: the first 32 bytes of the given name, or
/// "ISOBEMAKI", padded with spaces to 32 bytes.
pub open spec fn volume_id_field(volume_id: Option<Seq<u8>>) -> Seq<u8> {
    let name = match volume_id {
        Some(b) => if b.len() <= 32 { b } else { b.take(32) },
        None => seq![0x49u8, 0x53, 0x4F, 0x42, 0x45, 0x4D, 0x41, 0x4B, 0x49],
    };
    name + Seq::new((32 - name.len()) as nat, |i: int| 0x20u8)
}

/// The bytes of an optional name.
pub open spec fn opt_bytes(v: Option<&str>) -> Option<Seq<u8>> {
    match v {
        Some(s) => Some(s.spec_bytes()),
        None => None,
    }
}

/// The 2048-byte primary volume descriptor.
pub open spec fn pvd_image(volume_id: Option<Seq<u8>>, total_sectors: u32, root: Seq<u8>) -> Seq<u8> {
    seq![1u8] + cd001() + seq![1u8] + zeros(33) + volume_id_field(volume_id) + zeros(8) + dual32(total_sectors)
        + zeros(32) + dual16(1) + dual16(1) + dual16(2048) + dual32(0) + zeros(16) + root + zeros(
        (657 - root.len()) as nat,
    ) + fixed_date() + fixed_date() + zeros(34) + seq![1u8] + zeros(1166)
}

/// The 2048-byte El Torito boot record volume descriptor.
pub open spec fn brvd_image() -> Seq<u8> {
    seq![0u8] + cd001() + seq![1u8] + el_torito_id() + zeros(41) + le32(19) + zeros(1973)
}

/// The 2048-byte volume descriptor set terminator.
pub open spec fn terminator_image() -> Seq<u8> {
    seq![255u8] + cd001() + seq![1u8] + zeros(2041)
}

fn push_cd001(v: &mut Vec<u8>)
    ensures
        final(v)@ == old(v)@ + cd001(),
{
    let id: [u8; 5] = [0x43, 0x44, 0x30, 0x30, 0x31];
    assert(id@ =~= cd001());
    push_slice(v, &id);
}

fn push_date(v: &mut Vec<u8>)
    ensures
        final(v)@ == old(v)@ + fixed_date(),
{
    let d: [u8; 17] = [0x32, 0x30, 0x32, 0x34, 0x30, 0x31, 0x30, 0x31, 0x30, 0x30, 0x30, 0x30, 0x30, 0x30, 0x30, 0x30, 0];
    assert(d@ =~= fixed_date());
    push_slice(v, &d);
}

/// Appends `val` little- then big-endian, in 2 or 4 bytes.
fn write_dual(buf: &mut Vec<u8>, val: u32, len: usize)
    requires
        len == 2 ==> val <= 0xFFFF,
    ensures
        len == 2 ==> final(buf)@ == old(buf)@ + dual16(val as u16),
        len != 2 ==> final(buf)@ == old(buf)@ + dual32(val),
{
    if len == 2 {
        push_le16(buf, val as u16);
        push_be16(buf, val as u16);
    } else {
        push_le32(buf, val);
        push_be32(buf, val);
    }
}

/// The volume identifier field of the descriptor.
fn volume_id_bytes(volume_id: Option<&str>) -> (v: Vec<u8>)
    ensures
        v@ == volume_id_field(opt_bytes(volume_id)),
{
    let mut v: Vec<u8> = Vec::new();
    match volume_id {
        Some(id) => {
            let b = id.as_bytes();
            let n = if b.len() < 32 {
                b.len()
            } else {
                32
            };
            let part = vstd::slice::slice_subrange(b, 0, n);
            push_slice(&mut v, part);
            assert(v@ =~= (if b@.len() <= 32 { b@ } else { b@.take(32) }));
        },
        None => {
            let d: [u8; 9] = [0x49, 0x53, 0x4F, 0x42, 0x45, 0x4D, 0x41, 0x4B, 0x49];
            push_slice(&mut v, &d);
        },
    }
    let ghost name = v@;
    let mut k = v.len();
    while k < 32
        invariant
            name.len() <= k <= 32,
            v@ == name + Seq::new((k - name.len()) as nat, |i: int| 0x20u8),
        decreases 32 - k,
    {
        v.push(0x20);
        k = k + 1;
        assert(v@ =~= name + Seq::new((k - name.len()) as nat, |i: int| 0x20u8));
    }
    assert(v@ =~= volume_id_field(opt_bytes(volume_id)));
    v
}

/// Writes the primary volume descriptor (sector 16) of a volume of
/// `total_sectors` sectors whose root directory record is `root_entry`.
pub fn write_primary_volume_descriptor(
    iso: &mut Vec<u8>,
    volume_id: Option<&str>,
    total_sectors: u32,
    root_entry: &IsoDirEntry,
)
    requires
        root_entry.spec_id().len() <= 221,
    ensures
        final(iso)@ == write_at_spec(
            old(iso)@,
            32768int,
            pvd_image(opt_bytes(volume_id), total_sectors, root_entry.spec_bytes()),
        ),
{
    let mut pvd: Vec<u8> = Vec::new();
    pvd.push(1);
    push_cd001(&mut pvd);
    pvd.push(1);
    push_zeros(&mut pvd, 33);
    let vol = volume_id_bytes(volume_id);
    push_slice(&mut pvd, vol.as_slice());
    push_zeros(&mut pvd, 8);
    write_dual(&mut pvd, total_sectors, 4);
    push_zeros(&mut pvd, 32);
    write_dual(&mut pvd, 1, 2);
    write_dual(&mut pvd, 1, 2);
    write_dual(&mut pvd, 2048, 2);
    write_dual(&mut pvd, 0, 4);
    push_zeros(&mut pvd, 16);
    let re = root_entry.to_bytes();
    push_slice(&mut pvd, re.as_slice());
    push_zeros(&mut pvd, 657 - re.len());
    push_date(&mut pvd);
    push_date(&mut pvd);
    push_zeros(&mut pvd, 34);
    pvd.push(1);
    push_zeros(&mut pvd, 1166);
    assert(pvd@ =~= pvd_image(opt_bytes(volume_id), total_sectors, root_entry.spec_bytes()));
    write_at(iso, 16 * 2048, pvd.as_slice());
}

/// Records `total_sectors` in the primary volume descriptor.
pub fn update_total_sectors_in_pvd(iso: &mut Vec<u8>, total_sectors: u32)
    ensures
        final(iso)@ == write_at_spec(write_at_spec(old(iso)@, 32848int, le32(total_sectors)), 32852int, be32(total_sectors)),
        final(iso)@.len() == if old(iso)@.len() < 32856 { 32856 } else { old(iso)@.len() as int },
        final(iso)@.subrange(32848, 32852) == le32(total_sectors),
        final(iso)@.subrange(32852, 32856) == be32(total_sectors),
{
    let ghost v0 = iso@;
    let mut le: Vec<u8> = Vec::new();
    push_le32(&mut le, total_sectors);
    write_at(iso, 16 * 2048 + PVD_TOTAL_SEC, le.as_slice());
    let mut be: Vec<u8> = Vec::new();
    push_be32(&mut be, total_sectors);
    write_at(iso, 16 * 2048 + PVD_TOTAL_SEC + 4, be.as_slice());
    proof {
        let v1 = write_at_spec(v0, 32848int, le32(total_sectors));
        lemma_write_at(v0, 32848int, le32(total_sectors));
        lemma_write_at(v1, 32852int, be32(total_sectors));
        assert(iso@.subrange(32848, 32852) =~= v1.subrange(32848, 32852));
    }
}

/// Writes the El Torito boot record volume descriptor (sector 17), which
/// points at the boot catalog.
fn write_boot_record_vd(iso: &mut Vec<u8>)
    ensures
        final(iso)@ == write_at_spec(old(iso)@, 34816int, brvd_image()),
{
    let mut b: Vec<u8> = Vec::new();
    b.push(0);
    push_cd001(&mut b);
    b.push(1);
    push_el_torito_id(&mut b);
    push_zeros(&mut b, 41);
    push_le32(&mut b, LBA_BOOT_CATALOG);
    push_zeros(&mut b, 1973);
    assert(b@ =~= brvd_image());
    write_at(iso, 17 * 2048, b.as_slice());
}

/// Writes the volume descriptor set terminator (sector 18).
fn write_terminator(iso: &mut Vec<u8>)
    ensures
        final(iso)@ == write_at_spec(old(iso)@, 36864int, terminator_image()),
{
    let mut t: Vec<u8> = Vec::new();
    t.push(255);
    push_cd001(&mut t);
    t.push(1);
    push_zeros(&mut t, 2041);
    assert(t@ =~= terminator_image());
    write_at(iso, 18 * 2048, t.as_slice());
}

/// Writes the primary volume descriptor, the boot record and the
/// terminator (sectors 16, 17 and 18).
pub fn write_volume_descriptors(
    iso: &mut Vec<u8>,
    volume_id: Option<&str>,
    total_sectors: u32,
    root_entry: &IsoDirEntry,
)
    requires
        root_entry.spec_id().len() <= 221,
    ensures
        final(iso)@ == write_at_spec(
            write_at_spec(
                write_at_spec(
                    old(iso)@,
                    32768int,
                    pvd_image(opt_bytes(volume_id), total_sectors, root_entry.spec_bytes()),
                ),
                34816int,
                brvd_image(),
            ),
            36864int,
            terminator_image(),
        ),
{
    write_primary_volume_descriptor(iso, volume_id, total_sectors, root_entry);
    write_boot_record_vd(iso);
    write_terminator(iso);
}

} // verus!
