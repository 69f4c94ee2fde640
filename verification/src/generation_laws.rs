use vstd::prelude::*;
use crate::generator::{
    dos_type_text, find_placement, gpt_entries, gpt_entry_step, gpt_type_text,
    lemma_count_visible_prefix, mbr_entries, mbr_entry_step, GptEntryShape, MbrEntry,
};
use crate::hex::{lemma_parse_radix16_bounds, parse_prefixed_hex_spec, strip_hex_prefix};
use crate::resolution_laws::{
    count_visible, end_of, ids_distinct, lemma_resolved_layout, placed_as_configured,
    resolved_layout_holds,
};
use crate::resolver::{disk_id_error, is_visible, resolution, type_error, Placement};
use crate::schema::{PartitionConfig, SchemaLayout, TableType};
use crate::utils::gpt_guid_of;
use crate::disk::{lemma_chunks_determined, same_chunks};
use crate::imaging::{draws_random, gpt_slots_for, layout_of, table_image};
use crate::tables::{gpt_geometry_ok, gpt_written, protective_mbr_bytes};
use crate::disk::written_content;
use crate::resolver::Halt;
use crate::generator::chosen_disk_guid;
use crate::layout::LayoutResult;
use crate::resolver::{ResolvedInfo, Stop};

verus! {

/// A GPT entry covers exactly the sectors of its partition, carries its
/// name, and its type GUID is the partition's type text parsed.
pub open spec fn gpt_entry_covers(e: GptEntryShape, c: PartitionConfig, p: Placement, s: int) -> bool {
    &&& e.name == c.id@
    &&& e.starting_lba * s == p.offset
    &&& (e.ending_lba + 1) * s == end_of(p)
    &&& gpt_guid_of(gpt_type_text(c)) == Ok::<Seq<u8>, Seq<char>>(e.type_guid)
}

/// A DOS entry holds its partition's first sector and sector count (both
/// cut to 32 bits), and its type byte is the partition's type text parsed.
pub open spec fn mbr_entry_covers(e: MbrEntry, c: PartitionConfig, p: Placement, s: int) -> bool {
    &&& e.starting_lba == (p.offset / s) % 0x1_0000_0000
    &&& e.sectors == (p.size / s) % 0x1_0000_0000
    &&& parse_prefixed_hex_spec(dos_type_text(c), 255) == Ok::<int, crate::hex::IntParseError>(e.sys as int)
}

/// With distinct ids, the first placement carrying a placement's id is
/// that placement.
proof fn lemma_find_own_placement(placed: Seq<Placement>, i: int)
    requires
        0 <= i < placed.len(),
        ids_distinct(placed),
    ensures
        find_placement(placed, placed[i].id) == Some(placed[i]),
    decreases i,
{
    if i > 0 {
        let rest = placed.skip(1);
        assert forall|a: int, b: int| 0 <= a < b < rest.len() implies #[trigger] rest[a].id
            != #[trigger] rest[b].id by {
            assert(rest[a] == placed[a + 1] && rest[b] == placed[b + 1]);
        }
        lemma_find_own_placement(rest, i - 1);
        assert(rest[i - 1] == placed[i]);
        assert(placed[0].id != placed[i].id);
    }
}

/// A visible partition whose type is valid for GPT and whose placement is
/// as configured gets a GPT entry covering it.
proof fn lemma_gpt_step_covers(
    s: int,
    sizes: Map<Seq<char>, u64>,
    c: PartitionConfig,
    placed: Seq<Placement>,
    idx: int,
)
    requires
        0 <= idx < placed.len(),
        is_visible(c),
        placed_as_configured(s, sizes, c, placed[idx]),
        type_error(TableType::Gpt, c) is None,
        ids_distinct(placed),
    ensures
        gpt_entry_step(s, placed, c) matches Ok(Some(e)) && gpt_entry_covers(e, c, placed[idx], s),
{
    let p = placed[idx];
    lemma_find_own_placement(placed, idx);
    let start = p.offset / s;
    let cnt = p.size / s;
    assert(start * s == p.offset && cnt * s == p.size && start >= 0 && cnt >= 0) by (nonlinear_arith)
        requires
            p.offset % s == 0,
            p.size % s == 0,
            p.offset >= 0,
            p.size >= 0,
            s > 0,
            start == p.offset / s,
            cnt == p.size / s,
    ;
    assert((start + cnt) * s == end_of(p)) by (nonlinear_arith)
        requires
            start * s == p.offset,
            cnt * s == p.size,
    ;
    assert(1 <= start + cnt <= u64::MAX) by (nonlinear_arith)
        requires
            (start + cnt) * s == end_of(p),
            s <= end_of(p) <= u64::MAX,
            s > 0,
            start >= 0,
            cnt >= 0,
    ;
}

/// A visible partition whose type is valid for DOS and whose placement is
/// as configured gets a DOS entry covering it.
proof fn lemma_mbr_step_covers(
    s: int,
    sizes: Map<Seq<char>, u64>,
    c: PartitionConfig,
    placed: Seq<Placement>,
    idx: int,
)
    requires
        0 <= idx < placed.len(),
        is_visible(c),
        placed_as_configured(s, sizes, c, placed[idx]),
        type_error(TableType::Dos, c) is None,
        ids_distinct(placed),
    ensures
        mbr_entry_step(s, placed, c) matches Ok(Some(e)) && mbr_entry_covers(e, c, placed[idx], s),
{
    lemma_find_own_placement(placed, idx);
    lemma_parse_radix16_bounds(strip_hex_prefix(dos_type_text(c)), 255);
}

/// Law: what resolves can be laid out. For a schema that resolves to
/// `(disk, placed)`: a GPT table gets its entries without failure, one per
/// visible partition, each covering exactly that partition's sectors under
/// its name and type; a DOS table likewise gets one entry per visible
/// partition, starting at that partition's first sector, with its sector
/// count and type byte; and the disk id, when given, is valid for the table.
pub proof fn lemma_resolved_schema_plans(schema: SchemaLayout, sizes: Map<Seq<char>, u64>)
    requires
        resolution(schema, sizes) is Ok,
    ensures
        disk_id_error(schema.table, schema.disk_id) is None,
        schema.table == TableType::Gpt ==> gpt_plan_covers(schema, sizes, schema.partitions@.len() as int),
        schema.table == TableType::Dos ==> mbr_plan_covers(schema, sizes, schema.partitions@.len() as int),
{
    lemma_resolved_layout(schema, sizes);
    let placed = resolution(schema, sizes)->Ok_0.1;
    let items = schema.partitions@;
    let s = schema.sector as int;
    if schema.table == TableType::Gpt {
        lemma_gpt_prefix(schema, sizes, items.len() as int);
        assert(items.take(items.len() as int) =~= items);
    }
    if schema.table == TableType::Dos {
        lemma_mbr_prefix(schema, sizes, items.len() as int);
        assert(items.take(items.len() as int) =~= items);
    }
}

/// The first `m` partitions' GPT entries are planned without failure, one
/// per visible partition, each covering its partition.
pub open spec fn gpt_plan_covers(schema: SchemaLayout, sizes: Map<Seq<char>, u64>, m: int) -> bool {
    let placed = resolution(schema, sizes)->Ok_0.1;
    let items = schema.partitions@;
    let s = schema.sector as int;
    &&& gpt_entries(s, placed, items.take(m)) is Ok
    &&& gpt_entries(s, placed, items.take(m))->Ok_0.len() == count_visible(items.take(m))
    &&& forall|k: int|
        0 <= k < count_visible(items.take(m)) ==> gpt_entry_found(
            schema,
            sizes,
            m,
            #[trigger] gpt_entries(s, placed, items.take(m))->Ok_0[k],
        )
}

/// Some visible partition among the first `m` is covered by the entry.
pub open spec fn gpt_entry_found(schema: SchemaLayout, sizes: Map<Seq<char>, u64>, m: int, e: GptEntryShape) -> bool {
    let placed = resolution(schema, sizes)->Ok_0.1;
    let items = schema.partitions@;
    let s = schema.sector as int;
    exists|i: int| 0 <= i < m && is_visible(items[i]) && #[trigger] gpt_entry_covers(e, items[i], placed[i], s)
}

proof fn lemma_gpt_prefix(schema: SchemaLayout, sizes: Map<Seq<char>, u64>, m: int)
    requires
        resolution(schema, sizes) is Ok,
        resolved_layout_holds(schema, sizes, resolution(schema, sizes)->Ok_0.0, resolution(schema, sizes)->Ok_0.1),
        schema.table == TableType::Gpt,
        0 <= m <= schema.partitions@.len(),
    ensures
        gpt_plan_covers(schema, sizes, m),
    decreases m,
{
    let placed = resolution(schema, sizes)->Ok_0.1;
    let items = schema.partitions@;
    let s = schema.sector as int;
    if m == 0 {
        assert(items.take(0).len() == 0);
        return;
    }
    lemma_gpt_prefix(schema, sizes, m - 1);
    let pre = items.take(m);
    assert(pre.drop_last() =~= items.take(m - 1));
    assert(pre.last() == items[m - 1]);
    let c = items[m - 1];
    let es = gpt_entries(s, placed, items.take(m - 1))->Ok_0;
    assert forall|k: int| 0 <= k < es.len() implies gpt_entry_found(schema, sizes, m, #[trigger] es[k]) by {
        assert(gpt_entry_found(schema, sizes, m - 1, es[k]));
        let i = choose|i: int|
            0 <= i < m - 1 && is_visible(items[i]) && #[trigger] gpt_entry_covers(es[k], items[i], placed[i], s);
        assert(0 <= i < m && is_visible(items[i]) && gpt_entry_covers(es[k], items[i], placed[i], s));
    }
    if is_visible(c) {
        assert(placed_as_configured(s, sizes, items[m - 1], placed[m - 1]));
        assert(type_error(schema.table, items[m - 1]) is None);
        lemma_gpt_step_covers(s, sizes, c, placed, m - 1);
        let e = gpt_entry_step(s, placed, c)->Ok_0->Some_0;
        let all = es.push(e);
        assert(count_visible(pre) == count_visible(items.take(m - 1)) + 1);
        assert(es.len() < 128) by {
            lemma_count_visible_prefix(items, m, items.len() as int);
            assert(items.take(items.len() as int) =~= items);
        }
        assert(gpt_entries(s, placed, pre) == Ok::<Seq<GptEntryShape>, crate::resolver::Halt>(all));
        assert(count_visible(pre) == count_visible(items.take(m - 1)) + 1);
        assert(gpt_entry_covers(e, items[m - 1], placed[m - 1], s));
        assert(gpt_entry_found(schema, sizes, m, e));
        assert forall|k: int| 0 <= k < all.len() implies gpt_entry_found(schema, sizes, m, #[trigger] all[k]) by {
            if k < es.len() {
                assert(all[k] == es[k]);
            }
        }
    } else {
        assert(gpt_entries(s, placed, pre) == Ok::<Seq<GptEntryShape>, crate::resolver::Halt>(es));
        assert(count_visible(pre) == count_visible(items.take(m - 1)));
    }
}

/// The first `m` partitions' DOS entries are planned without failure, one
/// per visible partition, each covering its partition.
pub open spec fn mbr_plan_covers(schema: SchemaLayout, sizes: Map<Seq<char>, u64>, m: int) -> bool {
    let placed = resolution(schema, sizes)->Ok_0.1;
    let items = schema.partitions@;
    let s = schema.sector as int;
    &&& mbr_entries(s, placed, items.take(m)) is Ok
    &&& mbr_entries(s, placed, items.take(m))->Ok_0.len() == count_visible(items.take(m))
    &&& forall|k: int|
        0 <= k < count_visible(items.take(m)) ==> mbr_entry_found(
            schema,
            sizes,
            m,
            #[trigger] mbr_entries(s, placed, items.take(m))->Ok_0[k],
        )
}

/// Some visible partition among the first `m` is covered by the entry.
pub open spec fn mbr_entry_found(schema: SchemaLayout, sizes: Map<Seq<char>, u64>, m: int, e: MbrEntry) -> bool {
    let placed = resolution(schema, sizes)->Ok_0.1;
    let items = schema.partitions@;
    let s = schema.sector as int;
    exists|i: int| 0 <= i < m && is_visible(items[i]) && #[trigger] mbr_entry_covers(e, items[i], placed[i], s)
}

proof fn lemma_mbr_prefix(schema: SchemaLayout, sizes: Map<Seq<char>, u64>, m: int)
    requires
        resolution(schema, sizes) is Ok,
        resolved_layout_holds(schema, sizes, resolution(schema, sizes)->Ok_0.0, resolution(schema, sizes)->Ok_0.1),
        schema.table == TableType::Dos,
        0 <= m <= schema.partitions@.len(),
    ensures
        mbr_plan_covers(schema, sizes, m),
    decreases m,
{
    let placed = resolution(schema, sizes)->Ok_0.1;
    let items = schema.partitions@;
    let s = schema.sector as int;
    if m == 0 {
        assert(items.take(0).len() == 0);
        return;
    }
    lemma_mbr_prefix(schema, sizes, m - 1);
    let pre = items.take(m);
    assert(pre.drop_last() =~= items.take(m - 1));
    assert(pre.last() == items[m - 1]);
    let c = items[m - 1];
    let es = mbr_entries(s, placed, items.take(m - 1))->Ok_0;
    assert forall|k: int| 0 <= k < es.len() implies mbr_entry_found(schema, sizes, m, #[trigger] es[k]) by {
        assert(mbr_entry_found(schema, sizes, m - 1, es[k]));
        let i = choose|i: int|
            0 <= i < m - 1 && is_visible(items[i]) && #[trigger] mbr_entry_covers(es[k], items[i], placed[i], s);
        assert(0 <= i < m && is_visible(items[i]) && mbr_entry_covers(es[k], items[i], placed[i], s));
    }
    if is_visible(c) {
        assert(placed_as_configured(s, sizes, items[m - 1], placed[m - 1]));
        assert(type_error(schema.table, items[m - 1]) is None);
        lemma_mbr_step_covers(s, sizes, c, placed, m - 1);
        let e = mbr_entry_step(s, placed, c)->Ok_0->Some_0;
        let all = es.push(e);
        assert(count_visible(pre) == count_visible(items.take(m - 1)) + 1);
        assert(es.len() < 4) by {
            lemma_count_visible_prefix(items, m, items.len() as int);
            assert(items.take(items.len() as int) =~= items);
        }
        assert(mbr_entries(s, placed, pre) == Ok::<Seq<MbrEntry>, crate::resolver::Halt>(all));
        assert(count_visible(pre) == count_visible(items.take(m - 1)) + 1);
        assert(mbr_entry_covers(e, items[m - 1], placed[m - 1], s));
        assert(mbr_entry_found(schema, sizes, m, e));
        assert forall|k: int| 0 <= k < all.len() implies mbr_entry_found(schema, sizes, m, #[trigger] all[k]) by {
            if k < es.len() {
                assert(all[k] == es[k]);
            }
        }
    } else {
        assert(mbr_entries(s, placed, pre) == Ok::<Seq<MbrEntry>, crate::resolver::Halt>(es));
        assert(count_visible(pre) == count_visible(items.take(m - 1)));
    }
}

/// Law: a schema that resolves gets its table. Whatever random values are
/// drawn, a DOS table (with a sector size that is not a multiple of 2^32)
/// is written without stop; a GPT stops only where its disk is too small
/// for the GPT's own layout or `GPT::write_into` refuses the entries.
pub proof fn lemma_resolved_schema_is_written(
    schema: SchemaLayout,
    sizes: Map<Seq<char>, u64>,
    disk_size: u64,
    placed: Seq<Placement>,
    guid: Seq<u8>,
    sig: Seq<u8>,
    uniques: Seq<[u8; 16]>,
)
    requires
        resolution(schema, sizes) == Ok::<(int, Seq<Placement>), Halt>((disk_size as int, placed)),
    ensures
        schema.table == TableType::Dos && schema.sector % 0x1_0000_0000 != 0 ==> table_image(
            schema,
            disk_size,
            placed,
            guid,
            sig,
            uniques,
        ) is Ok,
        schema.table == TableType::Gpt && table_image(schema, disk_size, placed, guid, sig, uniques) is Err ==> ({
            ||| schema.sector == 0
            ||| !gpt_geometry_ok(disk_size / schema.sector, schema.sector)
            ||| gpt_written(
                (disk_size / schema.sector, schema.sector, chosen_disk_guid(schema.disk_id, guid)->Ok_0),
                gpt_slots_for(gpt_entries(schema.sector as int, placed, schema.partitions@)->Ok_0, uniques),
                written_content(Map::empty(), 446, protective_mbr_bytes(disk_size, schema.sector)),
            ) is Err
        }),
{
    lemma_resolved_schema_plans(schema, sizes);
    assert(schema.partitions@.take(schema.partitions@.len() as int) =~= schema.partitions@);
}

/// Two generations end alike: the same disk size, placements and chunks,
/// or the same stop.
pub open spec fn same_outcome(a: Result<LayoutResult, Stop>, b: Result<LayoutResult, Stop>) -> bool {
    match (a, b) {
        (Ok(x), Ok(y)) => x.disk_size == y.disk_size && x.resolved_partitions@ == y.resolved_partitions@
            && same_chunks(x.metadata_chunks@, y.metadata_chunks@),
        (Err(x), Err(y)) => x@ == y@,
        _ => false,
    }
}

/// Law: generating a table that needs no random value (no table, or a DOS
/// table with a given disk id, or a GPT with a given disk GUID and no
/// visible partition) is deterministic: any two outcomes that `generate`
/// may give for the same schema and resolved layout are the same.
pub proof fn lemma_generation_deterministic(
    schema: SchemaLayout,
    resolved: ResolvedInfo,
    r1: Result<LayoutResult, Stop>,
    r2: Result<LayoutResult, Stop>,
)
    requires
        !draws_random(schema),
        layout_of(
            r1,
            table_image(schema, resolved.disk_size, resolved@.1, Seq::new(16, |i: int| 0u8), Seq::new(4, |i: int| 0u8), Seq::empty()),
            resolved,
        ),
        layout_of(
            r2,
            table_image(schema, resolved.disk_size, resolved@.1, Seq::new(16, |i: int| 0u8), Seq::new(4, |i: int| 0u8), Seq::empty()),
            resolved,
        ),
    ensures
        same_outcome(r1, r2),
{
    let img = table_image(
        schema,
        resolved.disk_size,
        resolved@.1,
        Seq::new(16, |i: int| 0u8),
        Seq::new(4, |i: int| 0u8),
        Seq::empty(),
    );
    if img is Ok {
        lemma_chunks_determined(img->Ok_0, r1->Ok_0.metadata_chunks@, r2->Ok_0.metadata_chunks@);
    }
}

} // verus!
