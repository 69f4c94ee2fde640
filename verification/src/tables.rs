use vstd::prelude::*;
use crate::disk::written_content;
use crate::generator::le_bytes_u32;
use crate::table_io::TableDisk;

verus! {

#[verifier::external_type_specification]
#[verifier::external_body]
pub struct ExGpt(gptman::GPT);

#[verifier::external_type_specification]
#[verifier::external_body]
pub struct ExMbr(mbrman::MBR);

/// The partition entry slots of a GPT, in entry order: type GUID, unique
/// GUID, first LBA, last LBA, attribute bits and name.
pub uninterp spec fn gpt_slots(g: gptman::GPT) -> Seq<(Seq<u8>, Seq<u8>, u64, u64, u64, Seq<char>)>;

/// The number of whole sectors on the disk, the sector size and the disk
/// GUID from which `GPT::new_from` computed the GPT's header (the GPT
/// holds all three: its sector size, and its header's backup LBA and disk
/// GUID).
pub uninterp spec fn gpt_made_with(g: gptman::GPT) -> (u64, u64, Seq<u8>);

/// The stored blocks that `GPT::write_into` leaves on a disk whose blocks
/// were `content`, for a GPT made with `made` (see `gpt_made_with`) holding
/// `slots`; or the text of its error.
pub uninterp spec fn gpt_written(
    made: (u64, u64, Seq<u8>),
    slots: Seq<(Seq<u8>, Seq<u8>, u64, u64, u64, Seq<char>)>,
    content: Map<u64, Seq<u8>>,
) -> Result<Map<u64, Seq<u8>>, Seq<char>>;

/// What a DOS table holds around its four primary entries: the 446 bytes
/// before them (boot code, disk signature and copy-protection flag), its
/// boot signature, and its number of logical partitions.
pub uninterp spec fn mbr_frame(m: mbrman::MBR) -> (Seq<u8>, Seq<u8>, nat);

/// The four primary entries of a DOS table: boot flag, first CHS address
/// (its three bytes as serialised), type byte, last CHS address, first LBA
/// and sector count.
pub uninterp spec fn mbr_slots(m: mbrman::MBR) -> Seq<(u8, Seq<u8>, u8, Seq<u8>, u32, u32)>;

/// A GPT slot that holds no partition.
pub open spec fn empty_gpt_slot() -> (Seq<u8>, Seq<u8>, u64, u64, u64, Seq<char>) {
    (Seq::new(16, |i: int| 0u8), Seq::new(16, |i: int| 0u8), 0u64, 0u64, 0u64, Seq::empty())
}

/// `GPT::new_from` can lay out its header on a disk of `sectors` whole
/// sectors of `sector` bytes: the sector size is not zero and the disk has
/// room for the two headers and the two 16 KiB entry arrays.
pub open spec fn gpt_geometry_ok(sectors: u64, sector: u64) -> bool {
    sector > 0 && sectors >= 16383u64 / sector + 3
}

/// The 66 bytes of a protective MBR for a disk of `capacity` bytes: one
/// entry of type `0xee` from LBA 1 over the whole disk (its sector count
/// capped at `u32::MAX`), three empty entries and the boot signature.
pub open spec fn protective_mbr_bytes(capacity: u64, sector: u64) -> Seq<u8> {
    let size = capacity / sector - 1;
    let n = if size > u32::MAX { u32::MAX as int } else { size };
    seq![0x00u8, 0x00u8, 0x02u8, 0x00u8, 0xeeu8, 0xffu8, 0xffu8, 0xffu8, 0x01u8, 0x00u8, 0x00u8, 0x00u8]
        + le_bytes_u32(n) + Seq::new(48, |i: int| 0u8) + seq![0x55u8, 0xaau8]
}

/// An inactive DOS entry without CHS addresses.
pub open spec fn plain_mbr_slot(sys: u8, first_lba: u32, sectors: u32) -> (u8, Seq<u8>, u8, Seq<u8>, u32, u32) {
    (0x00u8, seq![0u8, 0u8, 0u8], sys, seq![0u8, 0u8, 0u8], first_lba, sectors)
}

/// The 16 bytes of a DOS entry as serialised.
pub open spec fn mbr_entry_bytes(slot: (u8, Seq<u8>, u8, Seq<u8>, u32, u32)) -> Seq<u8> {
    seq![slot.0] + slot.1 + seq![slot.2] + slot.3 + le_bytes_u32(slot.4 as int) + le_bytes_u32(slot.5 as int)
}

/// The 512-byte DOS table sector: what comes before the entries, the four
/// entries and the boot signature.
pub open spec fn mbr_sector_bytes(front: Seq<u8>, slots: Seq<(u8, Seq<u8>, u8, Seq<u8>, u32, u32)>, boot_signature: Seq<u8>) -> Seq<u8> {
    front + mbr_entry_bytes(slots[0]) + mbr_entry_bytes(slots[1]) + mbr_entry_bytes(slots[2])
        + mbr_entry_bytes(slots[3]) + boot_signature
}

/// Calls `gptman::GPT::new_from`, which only seeks to the disk's end to
/// size the header; the error becomes its text. Claimed: it succeeds (the
/// seek cannot fail on a `TableDisk`), leaves the disk's content alone,
/// and the GPT is made with the disk's whole sectors, this sector size and
/// this GUID and holds 128 empty slots. The geometry requirement rules out its panics on
/// subtraction below zero and division by zero.
#[verifier::external_body]
pub(crate) fn gpt_new_from(disk: &mut TableDisk, sector: u64, guid: [u8; 16]) -> (r: Result<gptman::GPT, String>)
    requires
        sector > 0,
        gpt_geometry_ok(old(disk).capacity() / sector, sector),
    ensures
        final(disk).content() == old(disk).content(),
        final(disk).capacity() == old(disk).capacity(),
        r is Ok,
        r matches Ok(g) ==> gpt_made_with(g) == (old(disk).capacity() / sector, sector, guid@),
        r matches Ok(g) ==> gpt_slots(g) == Seq::new(128, |i: int| empty_gpt_slot()),
{
    match gptman::GPT::new_from(disk, sector, guid) {
        Ok(g) => Ok(g),
        Err(e) => Err(e.to_string()),
    }
}

/// Assigns partition entry `i` (counted from 1) of a GPT through its
/// `IndexMut`. Claimed: exactly slot `i - 1` changes, to the given values.
#[verifier::external_body]
pub(crate) fn gpt_set_entry(
    g: &mut gptman::GPT,
    i: u32,
    type_guid: [u8; 16],
    unique_guid: [u8; 16],
    first_lba: u64,
    last_lba: u64,
    attributes: u64,
    name: &str,
)
    requires
        1 <= i <= gpt_slots(*old(g)).len(),
    ensures
        gpt_made_with(*final(g)) == gpt_made_with(*old(g)),
        gpt_slots(*final(g)) == gpt_slots(*old(g)).update(
            i - 1,
            (type_guid@, unique_guid@, first_lba, last_lba, attributes, name@),
        ),
{
    g[i] = gptman::GPTPartitionEntry {
        partition_type_guid: type_guid,
        unique_partition_guid: unique_guid,
        starting_lba: first_lba,
        ending_lba: last_lba,
        attribute_bits: attributes,
        partition_name: name.into(),
    };
}

/// Calls `gptman::GPT::write_protective_mbr_into`. Claimed: it succeeds
/// and stores `protective_mbr_bytes` at byte 446, nothing else. The
/// requirement rules out its panics (division by zero, a disk of no whole
/// sector).
#[verifier::external_body]
pub(crate) fn gpt_write_protective_mbr(disk: &mut TableDisk, sector: u64) -> (r: Result<(), String>)
    requires
        sector > 0,
        old(disk).capacity() / sector >= 1,
    ensures
        r is Ok,
        final(disk).capacity() == old(disk).capacity(),
        final(disk).content() == written_content(
            old(disk).content(),
            446,
            protective_mbr_bytes(old(disk).capacity(), sector),
        ),
{
    match gptman::GPT::write_protective_mbr_into(disk, sector) {
        Ok(()) => Ok(()),
        Err(e) => Err(e.to_string()),
    }
}

/// Calls `gptman::GPT::write_into`, which checks the entries (unique
/// GUIDs, bounds within the disk, no overlap) and writes both headers and
/// both entry arrays. Claimed: it succeeds exactly when `gpt_written`
/// names blocks, which the disk then holds; otherwise the error's text is
/// the one named. Nothing is claimed of the disk after an error. Last
/// LBAs below `u64::MAX`, a laid-out geometry and the 128 entries of its
/// header's array rule out its panics.
#[verifier::external_body]
pub(crate) fn gpt_write_into(g: &mut gptman::GPT, disk: &mut TableDisk) -> (r: Result<(), String>)
    requires
        gpt_geometry_ok(gpt_made_with(*old(g)).0, gpt_made_with(*old(g)).1),
        gpt_slots(*old(g)).len() == 128,
        forall|k: int| 0 <= k < gpt_slots(*old(g)).len() ==> #[trigger] gpt_slots(*old(g))[k].3 < u64::MAX,
    ensures
        final(disk).capacity() == old(disk).capacity(),
        match gpt_written(gpt_made_with(*old(g)), gpt_slots(*old(g)), old(disk).content()) {
            Ok(c) => r is Ok && final(disk).content() == c,
            Err(m) => r matches Err(e) && e@ == m,
        },
{
    match g.write_into(disk) {
        Ok(_) => Ok(()),
        Err(e) => Err(e.to_string()),
    }
}

/// Calls `mbrman::MBR::new_from`, which only seeks to the disk's end to
/// count its sectors; the error becomes its text. Claimed: it succeeds,
/// leaves the disk's content alone, and the table has empty boot code,
/// this disk signature, no copy protection, the boot signature `55 aa`, no
/// logical partition and four empty entries. A zero sector size, on which
/// it divides by zero, is ruled out.
#[verifier::external_body]
pub(crate) fn mbr_new_from(disk: &mut TableDisk, sector: u32, signature: [u8; 4]) -> (r: Result<mbrman::MBR, String>)
    requires
        sector > 0,
    ensures
        final(disk).content() == old(disk).content(),
        final(disk).capacity() == old(disk).capacity(),
        r is Ok,
        r matches Ok(m) ==> mbr_frame(m) == (
            Seq::new(440, |i: int| 0u8) + signature@ + seq![0u8, 0u8],
            seq![0x55u8, 0xaau8],
            0nat,
        ),
        r matches Ok(m) ==> mbr_slots(m) == Seq::new(4, |i: int| plain_mbr_slot(0, 0, 0)),
{
    match mbrman::MBR::new_from(disk, sector, signature) {
        Ok(m) => Ok(m),
        Err(e) => Err(e.to_string()),
    }
}

/// Assigns primary entry `i` (1 to 4) of a DOS table through its
/// `IndexMut`, as an inactive entry without CHS addresses. Claimed:
/// exactly slot `i - 1` changes, to the given values.
#[verifier::external_body]
pub(crate) fn mbr_set_entry(m: &mut mbrman::MBR, i: usize, sys: u8, first_lba: u32, sectors: u32)
    requires
        1 <= i <= 4,
        mbr_slots(*old(m)).len() == 4,
    ensures
        mbr_frame(*final(m)) == mbr_frame(*old(m)),
        mbr_slots(*final(m)) == mbr_slots(*old(m)).update(i - 1, plain_mbr_slot(sys, first_lba, sectors)),
{
    m[i] = mbrman::MBRPartitionEntry {
        boot: mbrman::BOOT_INACTIVE,
        first_chs: mbrman::CHS::empty(),
        sys,
        last_chs: mbrman::CHS::empty(),
        starting_lba: first_lba,
        sectors,
    };
}

/// Calls `mbrman::MBR::write_into`. Claimed: for a table with the boot
/// signature `55 aa`, valid boot flags (`00` or `80`) and no logical
/// partition, it succeeds and stores the 512-byte table sector
/// (`mbr_sector_bytes`) at the start of the disk, nothing else.
#[verifier::external_body]
pub(crate) fn mbr_write_into(m: &mut mbrman::MBR, disk: &mut TableDisk) -> (r: Result<(), String>)
    requires
        mbr_frame(*old(m)).0.len() == 446,
        mbr_frame(*old(m)).1 == seq![0x55u8, 0xaau8],
        mbr_frame(*old(m)).2 == 0,
        mbr_slots(*old(m)).len() == 4,
        forall|k: int|
            0 <= k < 4 ==> (#[trigger] mbr_slots(*old(m))[k]).0 == 0x00 || mbr_slots(*old(m))[k].0 == 0x80,
        forall|k: int|
            0 <= k < 4 ==> (#[trigger] mbr_slots(*old(m))[k]).1.len() == 3 && mbr_slots(*old(m))[k].3.len() == 3,
    ensures
        r is Ok,
        final(disk).capacity() == old(disk).capacity(),
        final(disk).content() == written_content(
            old(disk).content(),
            0,
            mbr_sector_bytes(mbr_frame(*old(m)).0, mbr_slots(*old(m)), mbr_frame(*old(m)).1),
        ),
{
    match m.write_into(disk) {
        Ok(()) => Ok(()),
        Err(e) => Err(e.to_string()),
    }
}

} // verus!
