use vstd::prelude::*;
use crate::disk::{chunks_describe, chunks_reproduce, written_content, SparseDisk};
use crate::generator::{
    chosen_disk_guid, chosen_dos_id, dos_disk_id_with, finish_layout, gpt_disk_guid_with, gpt_entries,
    gpt_entry_fits, is_random_guid, lemma_gpt_entries_capped, lemma_mbr_entries_capped, mbr_entries,
    plan_gpt_entries_with, plan_mbr_entries, GptEntryShape, MbrEntry,
};
use crate::layout::LayoutResult;
use crate::resolution_laws::count_visible;
use crate::resolver::{Halt, ResolvedInfo, Stop};
use crate::schema::{SchemaLayout, TableType};
use crate::table_io::TableDisk;
use crate::tables::{
    empty_gpt_slot, gpt_geometry_ok, gpt_made_with, gpt_new_from, gpt_set_entry, gpt_slots, gpt_write_into,
    gpt_write_protective_mbr, gpt_written, mbr_frame, mbr_new_from, mbr_sector_bytes, mbr_set_entry,
    mbr_slots, mbr_write_into, plain_mbr_slot, protective_mbr_bytes,
};

verus! {

/// The GPT slots for the planned entries: entry `k` in slot `k` with the
/// unique GUID `uniques[k]` and no attribute bits; the other of the 128
/// slots stay empty.
pub open spec fn gpt_slots_for(es: Seq<GptEntryShape>, uniques: Seq<[u8; 16]>) -> Seq<
    (Seq<u8>, Seq<u8>, u64, u64, u64, Seq<char>),
> {
    Seq::new(
        128,
        |i: int|
            if i < es.len() {
                (es[i].type_guid, uniques[i]@, es[i].starting_lba as u64, es[i].ending_lba as u64, 0u64, es[i].name)
            } else {
                empty_gpt_slot()
            },
    )
}

/// The four DOS slots for the planned entries, inactive and without CHS
/// addresses, the rest empty.
pub open spec fn mbr_slots_for(es: Seq<MbrEntry>) -> Seq<(u8, Seq<u8>, u8, Seq<u8>, u32, u32)> {
    Seq::new(
        4,
        |i: int|
            if i < es.len() {
                plain_mbr_slot(es[i].sys, es[i].starting_lba, es[i].sectors)
            } else {
                plain_mbr_slot(0, 0, 0)
            },
    )
}

/// The stored blocks that the schema's partition table leaves on an
/// all-zero disk of `disk_size` bytes with the partitions `placed`, or why
/// it stops. `guid_drawn`, `dos_drawn` and `uniques` stand for the random
/// disk GUID, disk signature and unique partition GUIDs.
/// - No table: nothing is written.
/// - GPT: the disk GUID is chosen; a disk too small for the GPT's layout
///   (or a zero sector size) traps; the entries are planned; a protective
///   MBR is written, then the GPT, which may refuse its entries.
/// - DOS: the signature is chosen; a sector size that is zero in 32 bits
///   traps; the entries are planned; the table sector is written at 0.
pub open spec fn table_image(
    schema: SchemaLayout,
    disk_size: u64,
    placed: Seq<crate::resolver::Placement>,
    guid_drawn: Seq<u8>,
    dos_drawn: Seq<u8>,
    uniques: Seq<[u8; 16]>,
) -> Result<Map<u64, Seq<u8>>, Halt> {
    let s = schema.sector;
    match schema.table {
        TableType::Raw => Ok(Map::empty()),
        TableType::Gpt => match chosen_disk_guid(schema.disk_id, guid_drawn) {
            Err(h) => Err(h),
            Ok(g) => if s == 0 || !gpt_geometry_ok(disk_size / s, s) {
                Err(Halt::Trap)
            } else {
                match gpt_entries(s as int, placed, schema.partitions@) {
                    Err(h) => Err(h),
                    Ok(es) => match gpt_written(
                        (disk_size / s, s, g),
                        gpt_slots_for(es, uniques),
                        written_content(Map::empty(), 446, protective_mbr_bytes(disk_size, s)),
                    ) {
                        Ok(c) => Ok(c),
                        Err(m) => Err(Halt::Rejected(m)),
                    },
                }
            },
        },
        TableType::Dos => match chosen_dos_id(schema.disk_id, dos_drawn) {
            Err(h) => Err(h),
            Ok(sig) => if s % 0x1_0000_0000 == 0 {
                Err(Halt::Trap)
            } else {
                match mbr_entries(s as int, placed, schema.partitions@) {
                    Err(h) => Err(h),
                    Ok(es) => Ok(
                        written_content(
                            Map::empty(),
                            0,
                            mbr_sector_bytes(
                                Seq::new(440, |i: int| 0u8) + sig + seq![0u8, 0u8],
                                mbr_slots_for(es),
                                seq![0x55u8, 0xaau8],
                            ),
                        ),
                    ),
                }
            },
        },
    }
}

/// `r` is the layout of a disk whose blocks are `image`, or the stop
/// `image` names.
pub open spec fn layout_of(r: Result<LayoutResult, Stop>, image: Result<Map<u64, Seq<u8>>, Halt>, resolved: ResolvedInfo) -> bool {
    match image {
        Ok(c) => r matches Ok(l) && l.disk_size == resolved.disk_size && l.resolved_partitions@
            == resolved.partitions@ && chunks_describe(c, l.metadata_chunks@) && chunks_reproduce(
            c,
            l.metadata_chunks@,
        ),
        Err(h) => r matches Err(e) && e@ == h,
    }
}

/// Writes the schema's partition table on an all-zero sparse disk of the
/// resolved size and returns the disk's non-zero chunks with the resolved
/// placements (see `table_image`), with `guid_drawn`, `dos_drawn` and
/// `uniques` standing for the random values the table needs.
#[verifier::spinoff_prover]
#[verifier::rlimit(40)]
pub fn generate_with(
    schema: &SchemaLayout,
    resolved: ResolvedInfo,
    guid_drawn: [u8; 16],
    dos_drawn: [u8; 4],
    uniques: &Vec<[u8; 16]>,
) -> (r: Result<LayoutResult, Stop>)
    requires
        schema.table == TableType::Gpt ==> uniques@.len() >= count_visible(schema.partitions@),
    ensures
        layout_of(r, table_image(*schema, resolved.disk_size, resolved@.1, guid_drawn@, dos_drawn@, uniques@), resolved),
{
    let s = schema.sector;
    let mut disk = TableDisk::new(SparseDisk::new(resolved.disk_size));
    let ghost c0 = disk.content();
    assert(c0 == Map::<u64, Seq<u8>>::empty());
    match schema.table {
        TableType::Raw => {},
        TableType::Gpt => {
            let guid = match gpt_disk_guid_with(&schema.disk_id, guid_drawn) {
                Ok(g) => g,
                Err(e) => {
                    return Err(e);
                },
            };
            if s == 0 || resolved.disk_size / s < 16383 / s + 3 {
                return Err(Stop::Trapped);
            }
            let mut gpt = match gpt_new_from(&mut disk, s, guid) {
                Ok(g) => g,
                Err(m) => {
                    return Err(Stop::Rejected(m));
                },
            };
            let entries = match plan_gpt_entries_with(schema, &resolved, uniques) {
                Ok(v) => v,
                Err(e) => {
                    return Err(e);
                },
            };
            let ghost es = gpt_entries(s as int, resolved@.1, schema.partitions@)->Ok_0;
            proof {
                lemma_gpt_entries_capped(s as int, resolved@.1, schema.partitions@);
            }
            let mut i: usize = 0;
            while i < entries.len()
                invariant
                    i <= entries@.len(),
                    entries@.len() == es.len(),
                    es.len() <= 128,
                    forall|k: int|
                        0 <= k < es.len() ==> gpt_entry_fits(#[trigger] entries@[k], es[k])
                            && entries@[k].unique_partition_guid == uniques@[k] && entries@[k].ending_lba < u64::MAX,
                    gpt_made_with(gpt) == (resolved.disk_size / s, s, guid@),
                    gpt_slots(gpt) == Seq::new(
                        128,
                        |j: int|
                            if j < i {
                                gpt_slots_for(es, uniques@)[j]
                            } else {
                                empty_gpt_slot()
                            },
                    ),
                decreases entries@.len() - i,
            {
                let e = &entries[i];
                gpt_set_entry(
                    &mut gpt,
                    (i + 1) as u32,
                    e.partition_type_guid,
                    e.unique_partition_guid,
                    e.starting_lba,
                    e.ending_lba,
                    0,
                    e.partition_name.as_str(),
                );
                proof {
                    assert(gpt_slots(gpt) =~= Seq::new(
                        128,
                        |j: int|
                            if j < i + 1 {
                                gpt_slots_for(es, uniques@)[j]
                            } else {
                                empty_gpt_slot()
                            },
                    ));
                }
                i = i + 1;
            }
            assert(gpt_slots(gpt) =~= gpt_slots_for(es, uniques@));
            assert forall|k: int| 0 <= k < gpt_slots(gpt).len() implies #[trigger] gpt_slots(gpt)[k].3 < u64::MAX by {
                if k < es.len() {
                    assert(gpt_entry_fits(entries@[k], es[k]));
                }
            }
            match gpt_write_protective_mbr(&mut disk, s) {
                Ok(()) => {},
                Err(m) => {
                    return Err(Stop::Rejected(m));
                },
            }
            match gpt_write_into(&mut gpt, &mut disk) {
                Ok(()) => {},
                Err(m) => {
                    return Err(Stop::Rejected(m));
                },
            }
        },
        TableType::Dos => {
            let signature = match dos_disk_id_with(&schema.disk_id, dos_drawn) {
                Ok(a) => a,
                Err(e) => {
                    return Err(e);
                },
            };
            if s % 0x1_0000_0000 == 0 {
                return Err(Stop::Trapped);
            }
            let sector32 = (s % 0x1_0000_0000) as u32;
            let mut mbr = match mbr_new_from(&mut disk, sector32, signature) {
                Ok(m) => m,
                Err(m) => {
                    return Err(Stop::Rejected(m));
                },
            };
            let entries = match plan_mbr_entries(schema, &resolved) {
                Ok(v) => v,
                Err(e) => {
                    return Err(e);
                },
            };
            proof {
                lemma_mbr_entries_capped(s as int, resolved@.1, schema.partitions@);
            }
            let mut i: usize = 0;
            while i < entries.len()
                invariant
                    i <= entries@.len(),
                    entries@.len() <= 4,
                    mbr_frame(mbr) == (
                        Seq::new(440, |i: int| 0u8) + signature@ + seq![0u8, 0u8],
                        seq![0x55u8, 0xaau8],
                        0nat,
                    ),
                    mbr_slots(mbr) == Seq::new(
                        4,
                        |j: int|
                            if j < i {
                                mbr_slots_for(entries@)[j]
                            } else {
                                plain_mbr_slot(0, 0, 0)
                            },
                    ),
                decreases entries@.len() - i,
            {
                let e = entries[i];
                mbr_set_entry(&mut mbr, i + 1, e.sys, e.starting_lba, e.sectors);
                proof {
                    assert(mbr_slots(mbr) =~= Seq::new(
                        4,
                        |j: int|
                            if j < i + 1 {
                                mbr_slots_for(entries@)[j]
                            } else {
                                plain_mbr_slot(0, 0, 0)
                            },
                    ));
                }
                i = i + 1;
            }
            assert(mbr_slots(mbr) =~= mbr_slots_for(entries@));
            match mbr_write_into(&mut mbr, &mut disk) {
                Ok(()) => {},
                Err(m) => {
                    return Err(Stop::Rejected(m));
                },
            }
        },
    }
    let d = disk.into_disk();
    Ok(finish_layout(&d, resolved))
}

/// Generating the schema's table uses random values: a GPT's disk GUID
/// without a given id and its unique partition GUIDs, a DOS disk
/// signature without a given id.
pub open spec fn draws_random(schema: SchemaLayout) -> bool {
    match schema.table {
        TableType::Gpt => schema.disk_id is None || count_visible(schema.partitions@) > 0,
        TableType::Dos => schema.disk_id is None,
        TableType::Raw => false,
    }
}

/// Values a random source may have given for the schema's table: a random
/// disk GUID where one is drawn, four signature bytes, and one random
/// unique GUID per GPT entry, no two alike.
pub open spec fn possible_draws(schema: SchemaLayout, guid: Seq<u8>, sig: Seq<u8>, uniques: Seq<[u8; 16]>) -> bool {
    &&& (schema.table == TableType::Gpt && schema.disk_id is None) ==> is_random_guid(guid)
    &&& sig.len() == 4
    &&& schema.table == TableType::Gpt ==> uniques.len() == count_visible(schema.partitions@)
    &&& forall|k: int| 0 <= k < uniques.len() ==> is_random_guid(#[trigger] uniques[k]@)
    &&& forall|i: int, j: int| 0 <= i < j < uniques.len() ==> (#[trigger] uniques[i])@ != (#[trigger] uniques[j])@
}

} // verus!
