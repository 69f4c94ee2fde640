use vstd::prelude::*;
use crate::hex::{parse_prefixed_hex, parse_prefixed_hex_spec};
use crate::layout::ResolvedPartition;
use crate::resolution_laws::{lemma_resolved_layout, resolved_layout_holds};
use crate::schema::{FileSizes, PartitionConfig, SchemaLayout, TableType};
use crate::utils::{gpt_guid_of, parse_uuid_to_gpt_guid};
use vstd::string::*;

verus! {

/// Why resolving (or planning) stopped, as a specification value: a
/// rejection with its message, or an input on which the computation would
/// overflow or divide by zero.
pub enum Halt {
    Rejected(Seq<char>),
    Trap,
}

/// Why resolving or planning stopped.
#[derive(Debug)]
pub enum Stop {
    /// The schema was refused with this message.
    Rejected(String),
    /// The arithmetic would overflow or divide by zero.
    Trapped,
}

impl View for Stop {
    type V = Halt;

    open spec fn view(&self) -> Halt {
        match self {
            Stop::Rejected(m) => Halt::Rejected(m@),
            Stop::Trapped => Halt::Trap,
        }
    }
}

/// A partition's placement, in bytes.
pub struct Placement {
    pub id: Seq<char>,
    pub offset: int,
    pub size: int,
}

/// What placing the partitions carries from one partition to the next.
pub struct Placing {
    /// Next free sector.
    pub current_lba: int,
    /// Last sector of the previous partition.
    pub last_end: Option<int>,
    /// Partitions that get a table entry so far (counted in `i32`).
    pub visible: int,
    /// Bytes the partitions need so far.
    pub min_required: int,
    pub placed: Seq<Placement>,
}

/// Where placing starts: the first free sector is 2048.
pub open spec fn initial_placing() -> Placing {
    Placing { current_lba: 2048, last_end: None, visible: 0, min_required: 0, placed: Seq::empty() }
}

/// The partition gets a table entry.
pub open spec fn is_visible(p: PartitionConfig) -> bool {
    p.hidden != Some(true)
}

/// Message about partition `id`: `prefix`, the id, `suffix`.
pub open spec fn id_msg(prefix: Seq<char>, id: Seq<char>, suffix: Seq<char>) -> Seq<char> {
    prefix + id + suffix
}

/// Some placed partition already has this id.
pub open spec fn id_taken(placed: Seq<Placement>, id: Seq<char>) -> bool {
    exists|i: int| 0 <= i < placed.len() && #[trigger] placed[i].id == id
}

/// What is wrong with a visible partition's type for the table, if anything.
pub open spec fn type_error(t: TableType, p: PartitionConfig) -> Option<Seq<char>> {
    if !is_visible(p) {
        None
    } else {
        match t {
            TableType::Gpt => match p.partition_type {
                None => Some(id_msg("GPT partition "@, p.id@, " missing type (UUID)"@)),
                Some(ty) => match gpt_guid_of(ty@) {
                    Ok(_) => None,
                    Err(e) => Some(id_msg("Partition "@, p.id@, " type is not a valid UUID: "@) + e),
                },
            },
            TableType::Dos => match p.partition_type {
                None => Some(id_msg("DOS partition "@, p.id@, " missing type (Hex)"@)),
                Some(ty) => if parse_prefixed_hex_spec(ty@, 255) is Err {
                    Some(id_msg("Partition "@, p.id@, " type is not a valid DOS hex format"@))
                } else {
                    None
                },
            },
            TableType::Raw => None,
        }
    }
}

/// The explicit offset is refused (not on a sector boundary) or cannot be
/// checked (sector size 0).
pub open spec fn offset_halt(s: int, p: PartitionConfig) -> Option<Halt> {
    match p.offset {
        Some(off) => if s == 0 {
            Some(Halt::Trap)
        } else if (off as int) % s != 0 {
            Some(Halt::Rejected(id_msg("Partition "@, p.id@, " offset is not aligned to sector"@)))
        } else {
            None
        },
        None => None,
    }
}

/// The input file's size for a partition id (0 without a file).
pub open spec fn file_size(sizes: Map<Seq<char>, u64>, id: Seq<char>) -> int {
    if sizes.contains_key(id) {
        sizes[id] as int
    } else {
        0
    }
}

/// `a / d` rounded up.
pub open spec fn ceil_div(a: int, d: int) -> int {
    a / d + if a % d == 0 {
        0int
    } else {
        1int
    }
}

/// Size in bytes a partition gets: its given size, or else its file's
/// size, rounded up to whole sectors. A file larger than the given size, a
/// partition with neither size nor file, and a size past `u64` are refused.
pub open spec fn partition_size(s: int, p: PartitionConfig, fsz: int) -> Result<int, Halt> {
    match p.size {
        Some(sz) => if s == 0 {
            Err(Halt::Trap)
        } else if ceil_div(sz as int, s) * s > u64::MAX {
            Err(Halt::Rejected(id_msg("Partition "@, p.id@, " size calculation overflow"@)))
        } else if fsz > ceil_div(sz as int, s) * s {
            Err(Halt::Rejected(id_msg("Partition "@, p.id@, " input file exceeds preset size"@)))
        } else {
            Ok(ceil_div(sz as int, s) * s)
        },
        None => if fsz == 0 {
            Err(
                Halt::Rejected(
                    id_msg("Partition "@, p.id@, " missing size and no input file to infer"@),
                ),
            )
        } else if s == 0 {
            Err(Halt::Trap)
        } else if ceil_div(fsz, s) * s > u64::MAX {
            Err(Halt::Rejected(id_msg("Partition "@, p.id@, " size calculation overflow"@)))
        } else {
            Ok(ceil_div(fsz, s) * s)
        },
    }
}

/// First sector of a partition: its explicit offset's sector, or else the
/// next free sector rounded up to a multiple of 2048.
pub open spec fn start_lba(acc: Placing, p: PartitionConfig, s: int) -> Result<int, Halt> {
    match p.offset {
        Some(off) => Ok((off as int) / s),
        None => if acc.current_lba % 2048 != 0 {
            if (acc.current_lba / 2048 + 1) * 2048 > u64::MAX {
                Err(Halt::Trap)
            } else {
                Ok((acc.current_lba / 2048 + 1) * 2048)
            }
        } else {
            Ok(acc.current_lba)
        },
    }
}

/// Placing one more partition after those in `acc`. In this order it is
/// refused for an id already used, a type invalid for the table, an offset
/// off the sector grid, an unusable size, a start not after the previous
/// partition's end, a DOS end sector past 32 bits, or a byte range past
/// `u64`; arithmetic that would overflow or divide by zero halts it.
pub open spec fn place_step(
    t: TableType,
    s: int,
    sizes: Map<Seq<char>, u64>,
    acc: Placing,
    p: PartitionConfig,
) -> Result<Placing, Halt> {
    let id = p.id@;
    if id_taken(acc.placed, id) {
        Err(Halt::Rejected("Duplicate partition ID: "@ + id))
    } else if type_error(t, p) is Some {
        Err(Halt::Rejected(type_error(t, p)->0))
    } else if is_visible(p) && acc.visible + 1 > i32::MAX {
        Err(Halt::Trap)
    } else if offset_halt(s, p) is Some {
        Err(offset_halt(s, p)->0)
    } else {
        match partition_size(s, p, file_size(sizes, id)) {
            Err(h) => Err(h),
            Ok(actual) => match start_lba(acc, p, s) {
                Err(h) => Err(h),
                Ok(start) => {
                    let sum = start + actual / s;
                    let end = sum - 1;
                    let offset = start * s;
                    if acc.last_end matches Some(le) && start <= le {
                        Err(
                            Halt::Rejected(
                                id_msg(
                                    "Partition "@,
                                    id,
                                    " position overlaps or is out of order with previous partition"@,
                                ),
                            ),
                        )
                    } else if sum > u64::MAX || sum == 0 {
                        Err(Halt::Trap)
                    } else if t == TableType::Dos && end > u32::MAX {
                        Err(
                            Halt::Rejected(
                                id_msg("Partition "@, id, " exceeds DOS MBR capacity limit"@),
                            ),
                        )
                    } else if end + 1 > u64::MAX || offset > u64::MAX {
                        Err(Halt::Trap)
                    } else if offset + actual > u64::MAX {
                        Err(
                            Halt::Rejected(
                                id_msg("Partition "@, id, " space range exceeds u64 limit"@),
                            ),
                        )
                    } else {
                        Ok(
                            Placing {
                                current_lba: end + 1,
                                last_end: Some(end),
                                visible: acc.visible + if is_visible(p) {
                                    1int
                                } else {
                                    0int
                                },
                                min_required: if offset + actual > acc.min_required {
                                    offset + actual
                                } else {
                                    acc.min_required
                                },
                                placed: acc.placed.push(Placement { id, offset, size: actual }),
                            },
                        )
                    }
                },
            },
        }
    }
}

/// Placing the partitions in order.
pub open spec fn place_all(
    t: TableType,
    s: int,
    sizes: Map<Seq<char>, u64>,
    items: Seq<PartitionConfig>,
) -> Result<Placing, Halt>
    decreases items.len(),
{
    if items.len() == 0 {
        Ok(initial_placing())
    } else {
        match place_all(t, s, sizes, items.drop_last()) {
            Ok(acc) => place_step(t, s, sizes, acc, items.last()),
            Err(h) => Err(h),
        }
    }
}

/// What is wrong with the disk id for the table, if anything.
pub open spec fn disk_id_error(t: TableType, disk_id: Option<String>) -> Option<Seq<char>> {
    match disk_id {
        None => None,
        Some(did) => match t {
            TableType::Gpt => match gpt_guid_of(did@) {
                Ok(_) => None,
                Err(e) => Some("disk_id must be a valid UUID: "@ + e),
            },
            TableType::Dos => if parse_prefixed_hex_spec(did@, u32::MAX as int) is Err {
                Some("disk_id must be a valid 32-bit Hex number (e.g. 0x12345678)"@)
            } else {
                None
            },
            TableType::Raw => None,
        },
    }
}

/// The resolution of a schema: the disk size and every partition's
/// placement, or why there is none. After the partitions, the table's
/// entry limit is checked (128 for GPT, 4 for DOS); the disk then holds
/// the partitions plus 33 sectors, rounded up to whole MiB.
pub open spec fn resolution(schema: SchemaLayout, sizes: Map<Seq<char>, u64>) -> Result<
    (int, Seq<Placement>),
    Halt,
> {
    let t = schema.table;
    let s = schema.sector as int;
    match disk_id_error(t, schema.disk_id) {
        Some(m) => Err(Halt::Rejected(m)),
        None => match place_all(t, s, sizes, schema.partitions@) {
            Err(h) => Err(h),
            Ok(acc) => {
                let total = acc.min_required + 33 * s;
                let disk = ceil_div(total, 1048576) * 1048576;
                if t == TableType::Gpt && acc.visible > 128 {
                    Err(Halt::Rejected("GPT format supports at most 128 partition entries"@))
                } else if t == TableType::Dos && acc.visible > 4 {
                    Err(Halt::Rejected("DOS MBR supports at most 4 primary partition entries"@))
                } else if 33 * s > u64::MAX || total > u64::MAX || disk > u64::MAX {
                    Err(Halt::Trap)
                } else {
                    Ok((disk, acc.placed))
                }
            },
        },
    }
}

/// Disk size and partition placements.
pub struct ResolvedInfo {
    pub disk_size: u64,
    pub partitions: Vec<ResolvedPartition>,
}

/// The placements a list of resolved partitions stands for.
pub open spec fn placements_of(v: Seq<ResolvedPartition>) -> Seq<Placement> {
    v.map_values(|p: ResolvedPartition| Placement { id: p.id@, offset: p.offset as int, size: p.size as int })
}

impl View for ResolvedInfo {
    type V = (int, Seq<Placement>);

    open spec fn view(&self) -> (int, Seq<Placement>) {
        (self.disk_size as int, placements_of(self.partitions@))
    }
}


/// Once placing has stopped, placing more partitions does not resume it.
proof fn lemma_place_all_stays_halted(
    t: TableType,
    s: int,
    sizes: Map<Seq<char>, u64>,
    items: Seq<PartitionConfig>,
    i: int,
    m: int,
)
    requires
        0 <= i <= m <= items.len(),
        place_all(t, s, sizes, items.take(i)) is Err,
    ensures
        place_all(t, s, sizes, items.take(m)) == place_all(t, s, sizes, items.take(i)),
    decreases m - i,
{
    if m > i {
        lemma_place_all_stays_halted(t, s, sizes, items, i, m - 1);
        assert(items.take(m).drop_last() =~= items.take(m - 1));
    }
}

/// `prefix`, then the id, then `suffix`.
fn id_message(prefix: &str, id: &String, suffix: &str) -> (r: String)
    ensures
        r@ == id_msg(prefix@, id@, suffix@),
{
    let mut r = String::from_str(prefix);
    r.append(id.as_str());
    r.append(suffix);
    r
}

/// `a / d` rounded up.
fn div_ceil(a: u64, d: u64) -> (r: u64)
    requires
        d > 0,
    ensures
        r == ceil_div(a as int, d as int),
{
    let q = a / d;
    if a % d == 0 {
        q
    } else {
        assert(q < u64::MAX) by (nonlinear_arith)
            requires
                q == a / d,
                d > 0,
                a % d != 0,
        ;
        q + 1
    }
}

/// Whether a resolved partition already has this id.
fn id_in_use(resolved: &Vec<ResolvedPartition>, id: &String) -> (r: bool)
    ensures
        r == id_taken(placements_of(resolved@), id@),
{
    let mut j: usize = 0;
    while j < resolved.len()
        invariant
            j <= resolved@.len(),
            forall|k: int| 0 <= k < j ==> #[trigger] resolved@[k].id@ != id@,
        decreases resolved@.len() - j,
    {
        if resolved[j].id == *id {
            assert(placements_of(resolved@)[j as int].id == id@);
            return true;
        }
        j = j + 1;
    }
    assert forall|k: int| 0 <= k < resolved@.len() implies #[trigger] placements_of(resolved@)[k].id != id@ by {
        assert(resolved@[k].id@ != id@);
    }
    false
}

/// The complaint about a visible partition's type, if any.
fn check_type(t: TableType, p: &PartitionConfig) -> (r: Option<String>)
    ensures
        match type_error(t, *p) {
            Some(m) => r matches Some(x) && x@ == m,
            None => r is None,
        },
{
    let hidden = match p.hidden {
        Some(h) => h,
        None => false,
    };
    if hidden {
        return None;
    }
    match t {
        TableType::Gpt => match &p.partition_type {
            None => Some(id_message("GPT partition ", &p.id, " missing type (UUID)")),
            Some(ty) => match parse_uuid_to_gpt_guid(ty.as_str()) {
                Ok(_) => None,
                Err(e) => {
                    let mut m = id_message("Partition ", &p.id, " type is not a valid UUID: ");
                    m.append(e.as_str());
                    Some(m)
                },
            },
        },
        TableType::Dos => match &p.partition_type {
            None => Some(id_message("DOS partition ", &p.id, " missing type (Hex)")),
            Some(ty) => match parse_prefixed_hex(ty.as_str(), 255) {
                Ok(_) => None,
                Err(_) => Some(id_message("Partition ", &p.id, " type is not a valid DOS hex format")),
            },
        },
        TableType::Raw => None,
    }
}

/// The size in bytes a partition gets (see `partition_size`).
fn size_for(s: u64, p: &PartitionConfig, fsz: u64) -> (r: Result<u64, Stop>)
    ensures
        match partition_size(s as int, *p, fsz as int) {
            Ok(v) => r matches Ok(x) && x == v,
            Err(h) => r matches Err(e) && e@ == h,
        },
{
    match p.size {
        Some(sz) => {
            if s == 0 {
                return Err(Stop::Trapped);
            }
            let q = div_ceil(sz, s);
            match q.checked_mul(s) {
                None => Err(Stop::Rejected(id_message("Partition ", &p.id, " size calculation overflow"))),
                Some(aligned) => {
                    if fsz > aligned {
                        Err(Stop::Rejected(id_message("Partition ", &p.id, " input file exceeds preset size")))
                    } else {
                        Ok(aligned)
                    }
                },
            }
        },
        None => {
            if fsz == 0 {
                return Err(
                    Stop::Rejected(
                        id_message("Partition ", &p.id, " missing size and no input file to infer"),
                    ),
                );
            }
            if s == 0 {
                return Err(Stop::Trapped);
            }
            let q = div_ceil(fsz, s);
            match q.checked_mul(s) {
                None => Err(Stop::Rejected(id_message("Partition ", &p.id, " size calculation overflow"))),
                Some(aligned) => Ok(aligned),
            }
        },
    }
}

/// The placing state while partitions are laid out one after another.
struct Placer {
    current_lba: u64,
    last_end: Option<u64>,
    visible: u64,
    min_required: u64,
    resolved: Vec<ResolvedPartition>,
}

impl Placer {
    spec fn placing(&self) -> Placing {
        Placing {
            current_lba: self.current_lba as int,
            last_end: match self.last_end {
                Some(e) => Some(e as int),
                None => None,
            },
            visible: self.visible as int,
            min_required: self.min_required as int,
            placed: placements_of(self.resolved@),
        }
    }

    spec fn wf(&self) -> bool {
        self.visible <= self.resolved@.len()
    }

    /// Places one more partition (see `place_step`).
    fn place(&mut self, t: TableType, s: u64, sizes: &FileSizes, p: &PartitionConfig) -> (r: Result<
        (),
        Stop,
    >)
        requires
            old(self).wf(),
            old(self).resolved@.len() < usize::MAX,
        ensures
            final(self).wf(),
            final(self).resolved@.len() <= old(self).resolved@.len() + 1,
            match place_step(t, s as int, sizes@, old(self).placing(), *p) {
                Ok(acc) => r is Ok && final(self).placing() == acc,
                Err(h) => r matches Err(e) && e@ == h,
            },
    {
        let ghost acc = self.placing();
        if id_in_use(&self.resolved, &p.id) {
            let mut m = String::from_str("Duplicate partition ID: ");
            m.append(p.id.as_str());
            return Err(Stop::Rejected(m));
        }
        match check_type(t, p) {
            Some(m) => {
                return Err(Stop::Rejected(m));
            },
            None => {},
        }
        let visible = match p.hidden {
            Some(true) => self.visible,
            _ => {
                if self.visible >= 0x7fff_ffff {
                    return Err(Stop::Trapped);
                }
                self.visible + 1
            },
        };
        match p.offset {
            Some(off) => {
                if s == 0 {
                    return Err(Stop::Trapped);
                }
                if off % s != 0 {
                    return Err(
                        Stop::Rejected(id_message("Partition ", &p.id, " offset is not aligned to sector")),
                    );
                }
            },
            None => {},
        }
        let fsz: u64 = match sizes.get(&p.id) {
            Some(v) => v,
            None => 0,
        };
        let actual = match size_for(s, p, fsz) {
            Ok(a) => a,
            Err(e) => {
                return Err(e);
            },
        };
        assert(s > 0);
        let start: u64 = match p.offset {
            Some(off) => off / s,
            None => {
                if self.current_lba % 2048 != 0 {
                    let q = self.current_lba / 2048;
                    if q >= u64::MAX / 2048 {
                        return Err(Stop::Trapped);
                    }
                    (q + 1) * 2048
                } else {
                    self.current_lba
                }
            },
        };
        match self.last_end {
            Some(le) => {
                if start <= le {
                    return Err(
                        Stop::Rejected(
                            id_message(
                                "Partition ",
                                &p.id,
                                " position overlaps or is out of order with previous partition",
                            ),
                        ),
                    );
                }
            },
            None => {},
        }
        let lba_size = actual / s;
        if start > u64::MAX - lba_size || start + lba_size == 0 {
            return Err(Stop::Trapped);
        }
        let end_lba = start + lba_size - 1;
        if t == TableType::Dos && end_lba > 0xffff_ffffu64 {
            return Err(
                Stop::Rejected(id_message("Partition ", &p.id, " exceeds DOS MBR capacity limit")),
            );
        }
        if end_lba == u64::MAX {
            return Err(Stop::Trapped);
        }
        let offset = match start.checked_mul(s) {
            Some(o) => o,
            None => {
                return Err(Stop::Trapped);
            },
        };
        let end_bytes = match offset.checked_add(actual) {
            Some(e) => e,
            None => {
                return Err(
                    Stop::Rejected(id_message("Partition ", &p.id, " space range exceeds u64 limit")),
                );
            },
        };
        self.last_end = Some(end_lba);
        self.current_lba = end_lba + 1;
        self.visible = visible;
        self.resolved.push(ResolvedPartition { id: p.id.clone(), offset, size: actual });
        if end_bytes > self.min_required {
            self.min_required = end_bytes;
        }
        assert(placements_of(self.resolved@) =~= acc.placed.push(
            Placement { id: p.id@, offset: offset as int, size: actual as int },
        ));
        Ok(())
    }
}

/// Resolves a schema into the disk size and each partition's byte
/// placement; the result is exactly `resolution`, including the inputs on
/// which the arithmetic would overflow or divide by zero (`Stop::Trapped`).
pub fn try_resolve(schema: &SchemaLayout, file_sizes: &FileSizes) -> (r: Result<ResolvedInfo, Stop>)
    ensures
        match resolution(*schema, file_sizes@) {
            Ok(v) => r matches Ok(info) && info@ == v,
            Err(h) => r matches Err(e) && e@ == h,
        },
{
    let t = schema.table;
    let s = schema.sector;
    match &schema.disk_id {
        Some(did) => match t {
            TableType::Gpt => match parse_uuid_to_gpt_guid(did.as_str()) {
                Ok(_) => {},
                Err(e) => {
                    let mut m = String::from_str("disk_id must be a valid UUID: ");
                    m.append(e.as_str());
                    return Err(Stop::Rejected(m));
                },
            },
            TableType::Dos => match parse_prefixed_hex(did.as_str(), 0xffff_ffffu64) {
                Ok(_) => {},
                Err(_) => {
                    return Err(
                        Stop::Rejected(
                            String::from_str(
                                "disk_id must be a valid 32-bit Hex number (e.g. 0x12345678)",
                            ),
                        ),
                    );
                },
            },
            TableType::Raw => {},
        },
        None => {},
    }
    let mut placer = Placer {
        current_lba: 2048,
        last_end: None,
        visible: 0,
        min_required: 0,
        resolved: Vec::new(),
    };
    let items = &schema.partitions;
    let n = items.len();
    let mut i: usize = 0;
    assert(placements_of(placer.resolved@) =~= Seq::<Placement>::empty());
    assert(items@.take(0) =~= Seq::<PartitionConfig>::empty());
    while i < n
        invariant
            n == items@.len(),
            items == &schema.partitions,
            t == schema.table,
            s == schema.sector,
            i <= n,
            placer.wf(),
            placer.resolved@.len() <= i,
            disk_id_error(t, schema.disk_id) is None,
            place_all(t, s as int, file_sizes@, items@.take(i as int)) == Ok::<Placing, Halt>(
                placer.placing(),
            ),
        decreases n - i,
    {
        assert(items@.take(i + 1).drop_last() =~= items@.take(i as int));
        assert(items@.take(i + 1).last() == items@[i as int]);
        match placer.place(t, s, file_sizes, &items[i]) {
            Ok(()) => {},
            Err(e) => {
                proof {
                    lemma_place_all_stays_halted(t, s as int, file_sizes@, items@, i + 1, n as int);
                    assert(items@.take(n as int) =~= items@);
                }
                return Err(e);
            },
        }
        i = i + 1;
    }
    assert(items@.take(n as int) =~= items@);
    if t == TableType::Gpt && placer.visible > 128 {
        return Err(Stop::Rejected(String::from_str("GPT format supports at most 128 partition entries")));
    }
    if t == TableType::Dos && placer.visible > 4 {
        return Err(Stop::Rejected(String::from_str("DOS MBR supports at most 4 primary partition entries")));
    }
    let extra = match s.checked_mul(33) {
        Some(x) => x,
        None => {
            return Err(Stop::Trapped);
        },
    };
    let total = match placer.min_required.checked_add(extra) {
        Some(x) => x,
        None => {
            return Err(Stop::Trapped);
        },
    };
    let mib = div_ceil(total, 1048576);
    let disk_size = match mib.checked_mul(1048576) {
        Some(x) => x,
        None => {
            return Err(Stop::Trapped);
        },
    };
    Ok(ResolvedInfo { disk_size, partitions: placer.resolved })
}

/// Resolves a schema into the disk size and each partition's byte
/// placement, or the message of the first problem found. Inputs on which
/// the arithmetic would overflow or divide by zero are left out.
pub fn resolve(schema: &SchemaLayout, file_sizes: &FileSizes) -> (r: Result<ResolvedInfo, String>)
    requires
        !(resolution(*schema, file_sizes@) matches Err(Halt::Trap)),
    ensures
        match resolution(*schema, file_sizes@) {
            Ok(v) => r matches Ok(info) && info@ == v,
            Err(h) => r matches Err(e) && h == Halt::Rejected(e@),
        },
        r matches Ok(info) ==> resolved_layout_holds(*schema, file_sizes@, info@.0, info@.1),
{
    proof {
        if resolution(*schema, file_sizes@) is Ok {
            lemma_resolved_layout(*schema, file_sizes@);
        }
    }
    match try_resolve(schema, file_sizes) {
        Ok(info) => Ok(info),
        Err(Stop::Rejected(m)) => Err(m),
        Err(Stop::Trapped) => vstd::pervasive::unreached(),
    }
}

} // verus!
