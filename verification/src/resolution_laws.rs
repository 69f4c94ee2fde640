use vstd::prelude::*;
use crate::resolver::{
    ceil_div, disk_id_error, file_size, id_taken, is_visible, offset_halt, partition_size, place_all, place_step,
    resolution, start_lba, type_error, Halt, Placement, Placing,
};
use crate::schema::{PartitionConfig, SchemaLayout, TableType};

verus! {

/// First byte after a placement.
pub open spec fn end_of(p: Placement) -> int {
    p.offset + p.size
}

/// Number of partitions that get a table entry.
pub open spec fn count_visible(items: Seq<PartitionConfig>) -> int
    decreases items.len(),
{
    if items.len() == 0 {
        0
    } else {
        count_visible(items.drop_last()) + if is_visible(items.last()) {
            1int
        } else {
            0int
        }
    }
}

/// A placement honours its configuration: same id; on whole sectors;
/// at the configured offset, or else on a multiple of 2048 sectors; of the
/// configured size rounded up to whole sectors, or else of the input file's
/// size rounded up (never empty then); never smaller than the input file.
pub open spec fn placed_as_configured(
    s: int,
    sizes: Map<Seq<char>, u64>,
    c: PartitionConfig,
    p: Placement,
) -> bool {
    &&& p.id == c.id@
    &&& s > 0
    &&& 0 <= p.offset && 0 <= p.size && s <= end_of(p) <= u64::MAX
    &&& p.offset % s == 0 && p.size % s == 0
    &&& c.offset matches Some(o) ==> p.offset == o
    &&& c.offset is None ==> (p.offset / s) % 2048 == 0
    &&& c.size matches Some(z) ==> p.size == ceil_div(z as int, s) * s
    &&& c.size is None ==> p.size == ceil_div(file_size(sizes, c.id@), s) * s && p.size > 0
    &&& file_size(sizes, c.id@) <= p.size
}

/// Placements in the given order, each ending before the next begins.
pub open spec fn in_order_disjoint(placed: Seq<Placement>) -> bool {
    forall|i: int, j: int| 0 <= i < j < placed.len() ==> end_of(#[trigger] placed[i]) <= #[trigger] placed[j].offset
}

/// No two placements share an id.
pub open spec fn ids_distinct(placed: Seq<Placement>) -> bool {
    forall|i: int, j: int| 0 <= i < j < placed.len() ==> #[trigger] placed[i].id != #[trigger] placed[j].id
}

/// What placing the first partitions establishes.
spec fn placing_inv(
    t: TableType,
    s: int,
    sizes: Map<Seq<char>, u64>,
    items: Seq<PartitionConfig>,
    acc: Placing,
) -> bool {
    &&& acc.placed.len() == items.len()
    &&& acc.visible == count_visible(items)
    &&& forall|i: int| 0 <= i < items.len() ==> (type_error(t, #[trigger] items[i]) is None)
    &&& forall|i: int|
        0 <= i < items.len() ==> placed_as_configured(s, sizes, #[trigger] items[i], acc.placed[i])
    &&& t == TableType::Dos ==> forall|i: int|
        0 <= i < items.len() ==> end_of(#[trigger] acc.placed[i]) <= (u32::MAX + 1) * s
    &&& in_order_disjoint(acc.placed)
    &&& ids_distinct(acc.placed)
    &&& 0 <= acc.min_required <= u64::MAX
    &&& forall|i: int| 0 <= i < items.len() ==> end_of(#[trigger] acc.placed[i]) <= acc.min_required
    &&& acc.min_required == 0 || exists|i: int|
        0 <= i < items.len() && acc.min_required == end_of(#[trigger] acc.placed[i])
    &&& if items.len() == 0 {
        &&& acc.last_end is None
        &&& acc.current_lba == 2048
        &&& acc.min_required == 0
    } else {
        &&& acc.last_end == Some(acc.current_lba - 1)
        &&& 0 < acc.current_lba <= u64::MAX
        &&& acc.current_lba * s == end_of(acc.placed.last())
    }
}

/// `a / d` rounded up, times `d`, is the least multiple of `d` not below `a`.
pub proof fn lemma_ceil_div_bounds(a: int, d: int)
    requires
        0 <= a,
        0 < d,
    ensures
        0 <= ceil_div(a, d),
        a <= ceil_div(a, d) * d < a + d,
        (ceil_div(a, d) * d) % d == 0,
        (ceil_div(a, d) * d) / d == ceil_div(a, d),
        a > 0 ==> ceil_div(a, d) * d > 0,
{
    let q = a / d;
    let r = a % d;
    let c = ceil_div(a, d);
    assert(a == d * q + r && 0 <= r < d && 0 <= q) by (nonlinear_arith)
        requires
            q == a / d,
            r == a % d,
            0 <= a,
            0 < d,
    ;
    assert(c * d % d == 0 && (c * d) / d == c) by (nonlinear_arith)
        requires
            0 < d,
            0 <= c,
    ;
    assert(a <= c * d < a + d) by (nonlinear_arith)
        requires
            a == d * q + r,
            0 <= r < d,
            c == q + if r == 0 {
                0int
            } else {
                1int
            },
    ;
}

proof fn lemma_mul_mono(a: int, b: int, s: int)
    requires
        a <= b,
        0 <= s,
    ensures
        a * s <= b * s,
{
    assert(a * s <= b * s) by (nonlinear_arith)
        requires
            a <= b,
            0 <= s,
    ;
}

/// Two multiples of `d` in `[a, a + d)` are equal.
proof fn lemma_least_multiple_unique(a: int, d: int, m1: int, m2: int)
    requires
        0 < d,
        m1 % d == 0,
        m2 % d == 0,
        a <= m1 < a + d,
        a <= m2 < a + d,
    ensures
        m1 == m2,
{
    let k1 = m1 / d;
    let k2 = m2 / d;
    assert(m1 == k1 * d && m2 == k2 * d) by (nonlinear_arith)
        requires
            0 < d,
            m1 % d == 0,
            m2 % d == 0,
            k1 == m1 / d,
            k2 == m2 / d,
    ;
    assert(k1 == k2) by (nonlinear_arith)
        requires
            m1 == k1 * d,
            m2 == k2 * d,
            m1 - m2 < d,
            m2 - m1 < d,
            0 < d,
    ;
}

/// Law: a partition's size is its given size (or, without one, its file's
/// size) rounded up to whole sectors, and a file is accepted exactly when
/// it is no larger than that. For a sector size `s > 0`, let `m` be the
/// least multiple of `s` not below the given size `z`, within `u64`: a
/// file of at most `m` bytes gives `m`, a larger one is refused as
/// exceeding the preset size. Without a given size, a non-empty file of
/// `f` bytes gives the least multiple of `s` not below `f`.
pub proof fn lemma_partition_size_fits(s: int, p: PartitionConfig, f: int, m: int)
    requires
        s > 0,
        0 <= f,
        m % s == 0,
        m <= u64::MAX,
        match p.size {
            Some(z) => z <= m < z + s,
            None => 0 < f && f <= m < f + s,
        },
    ensures
        f <= m ==> partition_size(s, p, f) == Ok::<int, Halt>(m),
        p.size is Some && f > m ==> partition_size(s, p, f) == Err::<int, Halt>(
            Halt::Rejected(crate::resolver::id_msg("Partition "@, p.id@, " input file exceeds preset size"@)),
        ),
{
    let z: int = match p.size {
        Some(z) => z as int,
        None => f,
    };
    lemma_ceil_div_bounds(z, s);
    lemma_least_multiple_unique(z, s, m, ceil_div(z, s) * s);
}

/// What every successful placing of a prefix establishes.
proof fn lemma_place_all_inv(t: TableType, s: int, sizes: Map<Seq<char>, u64>, items: Seq<PartitionConfig>)
    requires
        s >= 0,
        place_all(t, s, sizes, items) is Ok,
    ensures
        placing_inv(t, s, sizes, items, place_all(t, s, sizes, items)->Ok_0),
    decreases items.len(),
{
    if items.len() == 0 {
        return;
    }
    let prev = items.drop_last();
    let c = items.last();
    lemma_place_all_inv(t, s, sizes, prev);
    let acc0 = place_all(t, s, sizes, prev)->Ok_0;
    let acc = place_all(t, s, sizes, items)->Ok_0;
    assert(place_step(t, s, sizes, acc0, c) == Ok::<Placing, Halt>(acc));
    let id = c.id@;
    let fsz = file_size(sizes, id);
    assert(!id_taken(acc0.placed, id));
    assert(type_error(t, c) is None);
    assert(offset_halt(s, c) is None);
    assert(partition_size(s, c, fsz) is Ok);
    let actual = partition_size(s, c, fsz)->Ok_0;
    assert(start_lba(acc0, c, s) is Ok);
    let start = start_lba(acc0, c, s)->Ok_0;
    assert(s > 0) by {
        if s == 0 {
            assert(partition_size(s, c, fsz) is Err);
        }
    }
    assert(fsz >= 0);
    if c.size is Some {
        lemma_ceil_div_bounds(c.size->0 as int, s);
    } else {
        lemma_ceil_div_bounds(fsz, s);
    }
    assert(actual % s == 0 && actual >= fsz && actual >= 0);
    let k = actual / s;
    assert(actual == k * s && k >= 0) by (nonlinear_arith)
        requires
            actual % s == 0,
            actual >= 0,
            s > 0,
            k == actual / s,
    ;
    let sum = start + k;
    let end = sum - 1;
    let offset = start * s;
    assert(start >= 0) by {
        if c.offset is None {
            assert(acc0.current_lba >= 0) by {
                if prev.len() > 0 {
                } else {
                }
            }
        }
    }
    assert(offset % s == 0 && offset / s == start && offset >= 0) by (nonlinear_arith)
        requires
            offset == start * s,
            s > 0,
            start >= 0,
    ;
    assert(offset + actual == sum * s) by (nonlinear_arith)
        requires
            offset == start * s,
            actual == k * s,
            sum == start + k,
    ;
    assert(acc.placed == acc0.placed.push(Placement { id, offset, size: actual }));
    let newp = Placement { id, offset, size: actual };
    assert(acc.placed.last() == newp);
    // the configured offset is kept
    if c.offset is Some {
        let o = c.offset->0 as int;
        assert(o % s == 0);
        assert(offset == o) by (nonlinear_arith)
            requires
                start == o / s,
                offset == start * s,
                o % s == 0,
                s > 0,
        ;
    } else {
        assert(start % 2048 == 0) by {
            if acc0.current_lba % 2048 != 0 {
                let q = acc0.current_lba / 2048;
                assert(((q + 1) * 2048) % 2048 == 0) by (nonlinear_arith);
            }
        }
    }
    assert(sum >= 1);
    assert(s <= offset + actual) by (nonlinear_arith)
        requires
            offset + actual == sum * s,
            sum >= 1,
            s > 0,
    ;
    assert(placed_as_configured(s, sizes, c, newp));
    // the new placement starts after every earlier one ends
    if prev.len() > 0 {
        let le = acc0.current_lba - 1;
        assert(acc0.last_end == Some(le));
        assert(start > le);
        if c.offset is None {
            assert(start >= acc0.current_lba);
        }
        lemma_mul_mono(acc0.current_lba, start, s);
        assert forall|i: int| 0 <= i < prev.len() implies end_of(#[trigger] acc0.placed[i]) <= offset by {
            if i < prev.len() - 1 {
                assert(end_of(acc0.placed[i]) <= acc0.placed[prev.len() - 1].offset);
            }
        }
    }
    assert forall|i: int, j: int| 0 <= i < j < acc.placed.len() implies end_of(#[trigger] acc.placed[i])
        <= #[trigger] acc.placed[j].offset by {
        if j == acc.placed.len() - 1 {
            assert(acc.placed[i] == acc0.placed[i]);
        } else {
            assert(acc.placed[i] == acc0.placed[i]);
            assert(acc.placed[j] == acc0.placed[j]);
        }
    }
    assert forall|i: int, j: int| 0 <= i < j < acc.placed.len() implies #[trigger] acc.placed[i].id
        != #[trigger] acc.placed[j].id by {
        if j == acc.placed.len() - 1 {
            assert(acc.placed[i] == acc0.placed[i]);
            if acc.placed[i].id == id {
                assert(id_taken(acc0.placed, id));
            }
        } else {
            assert(acc.placed[i] == acc0.placed[i]);
            assert(acc.placed[j] == acc0.placed[j]);
        }
    }
    assert forall|i: int| 0 <= i < items.len() implies (type_error(t, #[trigger] items[i]) is None) by {
        if i < prev.len() {
            assert(items[i] == prev[i]);
        }
    }
    assert forall|i: int| 0 <= i < items.len() implies placed_as_configured(
        s,
        sizes,
        #[trigger] items[i],
        acc.placed[i],
    ) by {
        if i < prev.len() {
            assert(items[i] == prev[i]);
            assert(acc.placed[i] == acc0.placed[i]);
        }
    }
    if t == TableType::Dos {
        assert(end <= u32::MAX);
        lemma_mul_mono(sum, u32::MAX + 1, s);
        assert forall|i: int| 0 <= i < items.len() implies end_of(#[trigger] acc.placed[i]) <= (u32::MAX
            + 1) * s by {
            if i < prev.len() {
                assert(items[i] == prev[i]);
                assert(acc.placed[i] == acc0.placed[i]);
            }
        }
    }
    assert forall|i: int| 0 <= i < items.len() implies end_of(#[trigger] acc.placed[i]) <= acc.min_required by {
        if i < prev.len() {
            assert(acc.placed[i] == acc0.placed[i]);
        }
    }
    if acc.min_required != 0 {
        if acc.min_required == offset + actual {
            assert(acc.min_required == end_of(acc.placed[prev.len() as int]));
        } else {
            let w = choose|i: int| 0 <= i < prev.len() && acc0.min_required == end_of(#[trigger] acc0.placed[i]);
            assert(acc.placed[w] == acc0.placed[w]);
            assert(acc.min_required == end_of(acc.placed[w]));
        }
    }
    assert(prev == items.drop_last());
}


/// The properties of a resolved layout `(disk, placed)` of a schema: the
/// disk id and every visible partition's type valid for the table; every
/// partition placed, in schema order, as configured (see
/// `placed_as_configured`), each ending before the next begins, with
/// distinct ids; the disk a whole number of MiB, holding every partition
/// plus 33 sectors, and the least such size; a DOS layout ending every
/// partition within 2^32 sectors with at most 4 visible partitions; a GPT
/// layout with at most 128.
pub open spec fn resolved_layout_holds(
    schema: SchemaLayout,
    sizes: Map<Seq<char>, u64>,
    disk: int,
    placed: Seq<Placement>,
) -> bool {
    let items = schema.partitions@;
    let s = schema.sector as int;
    &&& placed.len() == items.len()
    &&& disk_id_error(schema.table, schema.disk_id) is None
    &&& forall|i: int| 0 <= i < items.len() ==> (type_error(schema.table, #[trigger] items[i]) is None)
    &&& forall|i: int|
        0 <= i < items.len() ==> placed_as_configured(s, sizes, #[trigger] items[i], placed[i])
    &&& in_order_disjoint(placed)
    &&& ids_distinct(placed)
    &&& disk % 1048576 == 0
    &&& 33 * s <= disk
    &&& forall|i: int| 0 <= i < placed.len() ==> end_of(#[trigger] placed[i]) + 33 * s <= disk
    &&& disk < 33 * s + 1048576 || exists|i: int|
        0 <= i < placed.len() && disk < end_of(#[trigger] placed[i]) + 33 * s + 1048576
    &&& schema.table == TableType::Dos ==> {
        &&& count_visible(items) <= 4
        &&& forall|i: int|
            0 <= i < placed.len() ==> end_of(#[trigger] placed[i]) <= (u32::MAX + 1) * s
    }
    &&& schema.table == TableType::Gpt ==> count_visible(items) <= 128
}

/// Law: a resolved schema places every partition, in schema order, as
/// configured (see `placed_as_configured`), each ending before the next
/// begins, with distinct ids. The disk is a whole number of MiB, holds
/// every partition plus 33 sectors, and is the least such size. A DOS
/// layout ends every partition within 2^32 sectors and has at most 4
/// visible partitions; a GPT layout has at most 128.
pub proof fn lemma_resolved_layout(schema: SchemaLayout, sizes: Map<Seq<char>, u64>)
    requires
        resolution(schema, sizes) is Ok,
    ensures
        resolved_layout_holds(schema, sizes, resolution(schema, sizes)->Ok_0.0, resolution(schema, sizes)->Ok_0.1),
{
    let t = schema.table;
    let s = schema.sector as int;
    let items = schema.partitions@;
    lemma_place_all_inv(t, s, sizes, items);
    let acc = place_all(t, s, sizes, items)->Ok_0;
    let total = acc.min_required + 33 * s;
    lemma_ceil_div_bounds(total, 1048576);
    let disk = ceil_div(total, 1048576) * 1048576;
    assert(resolution(schema, sizes)->Ok_0 == (disk, acc.placed));
    if acc.min_required != 0 {
        let w = choose|i: int| 0 <= i < items.len() && acc.min_required == end_of(#[trigger] acc.placed[i]);
        assert(disk < end_of(acc.placed[w]) + 33 * s + 1048576);
    }
}


/// Placing reads the file sizes only through the placed partitions' ids.
proof fn lemma_place_all_own_sizes(
    t: TableType,
    s: int,
    s1: Map<Seq<char>, u64>,
    s2: Map<Seq<char>, u64>,
    items: Seq<PartitionConfig>,
)
    requires
        forall|i: int| 0 <= i < items.len() ==> file_size(s1, #[trigger] items[i].id@) == file_size(s2, items[i].id@),
    ensures
        place_all(t, s, s1, items) == place_all(t, s, s2, items),
    decreases items.len(),
{
    if items.len() > 0 {
        let prev = items.drop_last();
        assert forall|i: int| 0 <= i < prev.len() implies file_size(s1, #[trigger] prev[i].id@) == file_size(
            s2,
            prev[i].id@,
        ) by {
            assert(prev[i] == items[i]);
        }
        lemma_place_all_own_sizes(t, s, s1, s2, prev);
        assert(file_size(s1, items.last().id@) == file_size(s2, items.last().id@)) by {
            assert(items.last() == items[items.len() - 1]);
        }
    }
}

/// Law: resolving reads the input file sizes only through the partitions'
/// own ids, and a missing size counts as 0. Two size maps that agree on
/// every partition's id in this way give the same resolution: the same
/// layout, or the same error.
pub proof fn lemma_resolution_reads_own_sizes(
    schema: SchemaLayout,
    s1: Map<Seq<char>, u64>,
    s2: Map<Seq<char>, u64>,
)
    requires
        forall|i: int|
            0 <= i < schema.partitions@.len() ==> file_size(s1, #[trigger] schema.partitions@[i].id@)
                == file_size(s2, schema.partitions@[i].id@),
    ensures
        resolution(schema, s1) == resolution(schema, s2),
{
    lemma_place_all_own_sizes(schema.table, schema.sector as int, s1, s2, schema.partitions@);
}

} // verus!
