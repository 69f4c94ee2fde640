use vstd::prelude::*;
use crate::disk::{chunks_describe, chunks_reproduce, lemma_chunks_reproduce_disk, SparseDisk};
use crate::hex::{parse_prefixed_hex, parse_prefixed_hex_spec, IntParseError};
use crate::layout::{LayoutResult, ResolvedPartition};
use crate::resolution_laws::count_visible;
use crate::resolver::{is_visible, placements_of, Halt, Placement, ResolvedInfo, Stop};
use crate::schema::{PartitionConfig, SchemaLayout, TableType};
use crate::imaging::{draws_random, generate_with, layout_of, possible_draws, table_image};
use crate::utils::{generate_random_dos_id, generate_random_guid, gpt_guid_of, parse_uuid_to_gpt_guid};
use vstd::string::*;

verus! {

/// One GPT partition entry to write (entry numbers count from 1 in list
/// order).
#[derive(Debug)]
pub struct GptEntry {
    pub partition_type_guid: [u8; 16],
    pub unique_partition_guid: [u8; 16],
    pub starting_lba: u64,
    pub ending_lba: u64,
    pub partition_name: String,
}

/// One DOS (MBR) primary partition entry to write (entry numbers count
/// from 1 in list order).
#[derive(Debug, Clone, Copy, PartialEq, Eq, Structural)]
pub struct MbrEntry {
    pub starting_lba: u32,
    pub sectors: u32,
    pub sys: u8,
}

/// A GPT entry as far as it is determined by the schema (the unique GUID
/// is random).
pub struct GptEntryShape {
    pub type_guid: Seq<u8>,
    pub starting_lba: int,
    pub ending_lba: int,
    pub name: Seq<char>,
}

/// The first placement with this id.
pub open spec fn find_placement(placed: Seq<Placement>, id: Seq<char>) -> Option<Placement>
    decreases placed.len(),
{
    if placed.len() == 0 {
        None
    } else if placed[0].id == id {
        Some(placed[0])
    } else {
        find_placement(placed.skip(1), id)
    }
}

/// A partition's GPT type text (empty without one).
pub open spec fn gpt_type_text(p: PartitionConfig) -> Seq<char> {
    match p.partition_type {
        Some(t) => t@,
        None => ""@,
    }
}

/// A partition's DOS type text (`0x83` without one).
pub open spec fn dos_type_text(p: PartitionConfig) -> Seq<char> {
    match p.partition_type {
        Some(t) => t@,
        None => "0x83"@,
    }
}

/// The GPT entry of one partition: none when hidden; its type parsed as a
/// UUID; its sectors from its placement (first to last sector).
pub open spec fn gpt_entry_step(s: int, placed: Seq<Placement>, p: PartitionConfig) -> Result<
    Option<GptEntryShape>,
    Halt,
> {
    if !is_visible(p) {
        Ok(None)
    } else {
        match gpt_guid_of(gpt_type_text(p)) {
            Err(e) => Err(Halt::Rejected(e)),
            Ok(g) => match find_placement(placed, p.id@) {
                None => Err(Halt::Trap),
                Some(rp) => if s == 0 {
                    Err(Halt::Trap)
                } else {
                    let start = rp.offset / s;
                    let sum = start + rp.size / s;
                    if sum > u64::MAX || sum == 0 {
                        Err(Halt::Trap)
                    } else {
                        Ok(
                            Some(
                                GptEntryShape {
                                    type_guid: g,
                                    starting_lba: start,
                                    ending_lba: sum - 1,
                                    name: p.id@,
                                },
                            ),
                        )
                    }
                },
            },
        }
    }
}

/// The GPT entries of the partitions, in order; a GPT has room for 128.
pub open spec fn gpt_entries(s: int, placed: Seq<Placement>, items: Seq<PartitionConfig>) -> Result<
    Seq<GptEntryShape>,
    Halt,
>
    decreases items.len(),
{
    if items.len() == 0 {
        Ok(Seq::empty())
    } else {
        match gpt_entries(s, placed, items.drop_last()) {
            Err(h) => Err(h),
            Ok(es) => match gpt_entry_step(s, placed, items.last()) {
                Err(h) => Err(h),
                Ok(None) => Ok(es),
                Ok(Some(e)) => if es.len() >= 128 {
                    Err(Halt::Trap)
                } else {
                    Ok(es.push(e))
                },
            },
        }
    }
}

/// The DOS entry of one partition: none when hidden; its first sector and
/// sector count from its placement, cut to 32 bits; its type byte parsed
/// as hexadecimal.
pub open spec fn mbr_entry_step(s: int, placed: Seq<Placement>, p: PartitionConfig) -> Result<
    Option<MbrEntry>,
    Halt,
> {
    if !is_visible(p) {
        Ok(None)
    } else {
        match find_placement(placed, p.id@) {
            None => Err(Halt::Trap),
            Some(rp) => if s == 0 {
                Err(Halt::Trap)
            } else {
                match parse_prefixed_hex_spec(dos_type_text(p), 255) {
                    Err(_) => Err(Halt::Trap),
                    Ok(b) => Ok(
                        Some(
                            MbrEntry {
                                starting_lba: ((rp.offset / s) % 0x1_0000_0000) as u32,
                                sectors: ((rp.size / s) % 0x1_0000_0000) as u32,
                                sys: b as u8,
                            },
                        ),
                    ),
                }
            },
        }
    }
}

/// The DOS entries of the partitions, in order; a DOS table has room for
/// four.
pub open spec fn mbr_entries(s: int, placed: Seq<Placement>, items: Seq<PartitionConfig>) -> Result<
    Seq<MbrEntry>,
    Halt,
>
    decreases items.len(),
{
    if items.len() == 0 {
        Ok(Seq::empty())
    } else {
        match mbr_entries(s, placed, items.drop_last()) {
            Err(h) => Err(h),
            Ok(es) => match mbr_entry_step(s, placed, items.last()) {
                Err(h) => Err(h),
                Ok(None) => Ok(es),
                Ok(Some(e)) => if es.len() >= 4 {
                    Err(Halt::Trap)
                } else {
                    Ok(es.push(e))
                },
            },
        }
    }
}

/// A GUID is a random (version 4, RFC 4122 variant) GUID in GPT byte order.
pub open spec fn is_random_guid(g: Seq<u8>) -> bool {
    &&& g.len() == 16
    &&& g[7] & 0xf0u8 == 0x40u8
    &&& g[8] & 0xc0u8 == 0x80u8
}

/// An entry to write agrees with the entry the schema determines.
pub open spec fn gpt_entry_fits(e: GptEntry, g: GptEntryShape) -> bool {
    &&& e.partition_type_guid@ == g.type_guid
    &&& e.starting_lba == g.starting_lba
    &&& e.ending_lba == g.ending_lba
    &&& e.partition_name@ == g.name
}

/// An entry to write agrees with the entry the schema determines, and its
/// unique GUID is a random one.
pub open spec fn gpt_entry_agrees(e: GptEntry, g: GptEntryShape) -> bool {
    &&& gpt_entry_fits(e, g)
    &&& is_random_guid(e.unique_partition_guid@)
}

/// Planning the GPT entries of a prefix yields one entry per visible
/// partition of it.
pub proof fn lemma_gpt_entries_count(s: int, placed: Seq<Placement>, items: Seq<PartitionConfig>)
    requires
        gpt_entries(s, placed, items) is Ok,
    ensures
        gpt_entries(s, placed, items)->Ok_0.len() == count_visible(items),
    decreases items.len(),
{
    if items.len() > 0 {
        lemma_gpt_entries_count(s, placed, items.drop_last());
    }
}

/// A longer prefix has at least as many visible partitions.
pub proof fn lemma_count_visible_prefix(items: Seq<PartitionConfig>, i: int, m: int)
    requires
        0 <= i <= m <= items.len(),
    ensures
        count_visible(items.take(i)) <= count_visible(items.take(m)),
    decreases m - i,
{
    if i < m {
        lemma_count_visible_prefix(items, i, m - 1);
        assert(items.take(m).drop_last() =~= items.take(m - 1));
    }
}

/// The number of partitions that get a table entry.
pub fn count_visible_partitions(items: &Vec<PartitionConfig>) -> (n: usize)
    ensures
        n == count_visible(items@),
{
    let mut n: usize = 0;
    let mut i: usize = 0;
    assert(items@.take(0).len() == 0);
    while i < items.len()
        invariant
            i <= items@.len(),
            n <= i,
            n == count_visible(items@.take(i as int)),
        decreases items@.len() - i,
    {
        assert(items@.take(i + 1).drop_last() =~= items@.take(i as int));
        assert(items@.take(i + 1).last() == items@[i as int]);
        let hidden = match items[i].hidden {
            Some(h) => h,
            None => false,
        };
        if !hidden {
            n = n + 1;
        }
        i = i + 1;
    }
    assert(items@.take(items@.len() as int) =~= items@);
    n
}

/// Little-endian bytes of a 32-bit value.
pub open spec fn le_bytes_u32(v: int) -> Seq<u8> {
    seq![(v % 256) as u8, ((v / 256) % 256) as u8, ((v / 65536) % 256) as u8, ((v / 16777216) % 256) as u8]
}

/// What the disk GUID of a GPT is: the given UUID text in GPT byte order
/// (a text that is no UUID is refused with the parse error's message), or
/// `drawn` without a text.
pub open spec fn chosen_disk_guid(disk_id: Option<String>, drawn: Seq<u8>) -> Result<Seq<u8>, Halt> {
    match disk_id {
        Some(t) => match gpt_guid_of(t@) {
            Ok(g) => Ok(g),
            Err(m) => Err(Halt::Rejected(m)),
        },
        None => Ok(drawn),
    }
}

/// What the disk signature of a DOS table is: the given hexadecimal text
/// (after its `0x` prefixes) as a little-endian 32-bit value (a text that
/// is no 32-bit hex number is refused with `Invalid DOS ID: ` and the parse
/// error's message), or `drawn` without a text.
pub open spec fn chosen_dos_id(disk_id: Option<String>, drawn: Seq<u8>) -> Result<Seq<u8>, Halt> {
    match disk_id {
        Some(t) => match parse_prefixed_hex_spec(t@, u32::MAX as int) {
            Ok(v) => Ok(le_bytes_u32(v)),
            Err(e) => Err(Halt::Rejected("Invalid DOS ID: "@ + e.spec_message())),
        },
        None => Ok(drawn),
    }
}

/// The disk GUID of a GPT (see `chosen_disk_guid`), with `drawn` standing
/// for the random GUID used without a text.
pub fn gpt_disk_guid_with(disk_id: &Option<String>, drawn: [u8; 16]) -> (r: Result<[u8; 16], Stop>)
    ensures
        match chosen_disk_guid(*disk_id, drawn@) {
            Ok(g) => r matches Ok(a) && a@ == g,
            Err(h) => r matches Err(e) && e@ == h,
        },
{
    match disk_id {
        Some(t) => match parse_uuid_to_gpt_guid(t.as_str()) {
            Ok(g) => Ok(g),
            Err(m) => Err(Stop::Rejected(m)),
        },
        None => Ok(drawn),
    }
}

/// The disk GUID of a GPT: the given UUID text in GPT byte order (a text
/// that is no UUID is refused with the parse error's message), or a fresh
/// random one without a text; `Stop::Trapped` comes only when the system
/// random source failed.
pub fn gpt_disk_guid(disk_id: &Option<String>) -> (r: Result<[u8; 16], Stop>)
    ensures
        match disk_id {
            Some(t) => match gpt_guid_of(t@) {
                Ok(g) => r matches Ok(a) && a@ == g,
                Err(m) => r matches Err(e) && e@ == Halt::Rejected(m),
            },
            None => (r matches Ok(a) && is_random_guid(a@)) || r matches Err(Stop::Trapped),
        },
{
    match disk_id {
        Some(_) => gpt_disk_guid_with(disk_id, [0u8; 16]),
        None => match generate_random_guid() {
            Some(g) => gpt_disk_guid_with(disk_id, g),
            None => Err(Stop::Trapped),
        },
    }
}

/// The disk signature of a DOS table (see `chosen_dos_id`), with `drawn`
/// standing for the random bytes used without a text.
pub fn dos_disk_id_with(disk_id: &Option<String>, drawn: [u8; 4]) -> (r: Result<[u8; 4], Stop>)
    ensures
        match chosen_dos_id(*disk_id, drawn@) {
            Ok(g) => r matches Ok(a) && a@ == g,
            Err(h) => r matches Err(e) && e@ == h,
        },
{
    match disk_id {
        Some(t) => match parse_prefixed_hex(t.as_str(), 0xffff_ffffu64) {
            Ok(v) => {
                let b0 = (v % 256) as u8;
                let b1 = ((v / 256) % 256) as u8;
                let b2 = ((v / 65536) % 256) as u8;
                let b3 = ((v / 16777216) % 256) as u8;
                let a = [b0, b1, b2, b3];
                assert(a@ =~= le_bytes_u32(v as int));
                Ok(a)
            },
            Err(e) => {
                let mut m = String::from_str("Invalid DOS ID: ");
                let em = e.message();
                m.append(em.as_str());
                Err(Stop::Rejected(m))
            },
        },
        None => Ok(drawn),
    }
}

/// The disk signature of a DOS table: the given hexadecimal text (after
/// its `0x` prefixes) as a little-endian 32-bit value, or four random
/// bytes without a text. A text that is no 32-bit hex number is refused
/// with `Invalid DOS ID: ` and the parse error's message; `Stop::Trapped`
/// comes only when the system random source failed.
pub fn dos_disk_id(disk_id: &Option<String>) -> (r: Result<[u8; 4], Stop>)
    ensures
        match disk_id {
            Some(t) => match parse_prefixed_hex_spec(t@, u32::MAX as int) {
                Ok(v) => r matches Ok(a) && a@ == le_bytes_u32(v),
                Err(e) => r matches Err(x) && x@ == Halt::Rejected("Invalid DOS ID: "@ + e.spec_message()),
            },
            None => r is Ok || r matches Err(Stop::Trapped),
        },
{
    match disk_id {
        Some(_) => dos_disk_id_with(disk_id, [0u8; 4]),
        None => match generate_random_dos_id() {
            Some(a) => dos_disk_id_with(disk_id, a),
            None => Err(Stop::Trapped),
        },
    }
}

/// The first resolved partition with this id.
fn find_resolved<'a>(parts: &'a Vec<ResolvedPartition>, id: &String) -> (r: Option<&'a ResolvedPartition>)
    ensures
        match find_placement(placements_of(parts@), id@) {
            Some(p) => r matches Some(x) && p == (Placement { id: x.id@, offset: x.offset as int, size: x.size as int }),
            None => r is None,
        },
{
    let ghost placed = placements_of(parts@);
    let mut j: usize = 0;
    assert(placed.skip(0) =~= placed);
    while j < parts.len()
        invariant
            j <= parts@.len(),
            placed == placements_of(parts@),
            find_placement(placed, id@) == find_placement(placed.skip(j as int), id@),
        decreases parts@.len() - j,
    {
        assert(placed.skip(j as int)[0] == placed[j as int]);
        if parts[j].id == *id {
            return Some(&parts[j]);
        }
        assert(placed.skip(j as int).skip(1) =~= placed.skip(j + 1));
        j = j + 1;
    }
    None
}

/// The GPT entries to write for the visible partitions, in order (see
/// `gpt_entries`); the `k`-th entry gets the unique GUID `uniques[k]`.
pub fn plan_gpt_entries_with(
    schema: &SchemaLayout,
    resolved: &ResolvedInfo,
    uniques: &Vec<[u8; 16]>,
) -> (r: Result<Vec<GptEntry>, Stop>)
    requires
        uniques@.len() >= count_visible(schema.partitions@),
    ensures
        match gpt_entries(schema.sector as int, resolved@.1, schema.partitions@) {
            Ok(es) => r matches Ok(v) && v@.len() == es.len() && forall|k: int|
                0 <= k < es.len() ==> gpt_entry_fits(#[trigger] v@[k], es[k])
                    && v@[k].unique_partition_guid == uniques@[k] && v@[k].ending_lba < u64::MAX,
            Err(h) => r matches Err(e) && e@ == h,
        },
{
    let s = schema.sector;
    let items = &schema.partitions;
    let ghost placed = resolved@.1;
    let n = items.len();
    let mut out: Vec<GptEntry> = Vec::new();
    let mut i: usize = 0;
    assert(items@.take(0) =~= Seq::<PartitionConfig>::empty());
    while i < n
        invariant
            n == items@.len(),
            items == &schema.partitions,
            s == schema.sector,
            placed == resolved@.1,
            i <= n,
            uniques@.len() >= count_visible(items@),
            gpt_entries(s as int, placed, items@.take(i as int)) matches Ok(es) && out@.len() == es.len()
                && forall|k: int| 0 <= k < es.len() ==> gpt_entry_fits(#[trigger] out@[k], es[k])
                    && out@[k].unique_partition_guid == uniques@[k] && out@[k].ending_lba < u64::MAX,
        decreases n - i,
    {
        let p = &items[i];
        let ghost es = gpt_entries(s as int, placed, items@.take(i as int))->Ok_0;
        assert(items@.take(i + 1).drop_last() =~= items@.take(i as int));
        assert(items@.take(i + 1).last() == items@[i as int]);
        let hidden = match p.hidden {
            Some(h) => h,
            None => false,
        };
        if !hidden {
            let type_text: &str = match &p.partition_type {
                Some(t) => t.as_str(),
                None => "",
            };
            let guid = match parse_uuid_to_gpt_guid(type_text) {
                Ok(g) => g,
                Err(e) => {
                    proof {
                        lemma_gpt_entries_stay_halted(s as int, placed, items@, i + 1, n as int);
                        assert(items@.take(n as int) =~= items@);
                    }
                    return Err(Stop::Rejected(e));
                },
            };
            proof {
                lemma_gpt_entries_count(s as int, placed, items@.take(i as int));
                lemma_count_visible_prefix(items@, i + 1, n as int);
                assert(items@.take(n as int) =~= items@);
            }
            let unique = uniques[out.len()];
            let rp = match find_resolved(&resolved.partitions, &p.id) {
                Some(x) => x,
                None => {
                    proof {
                        lemma_gpt_entries_stay_halted(s as int, placed, items@, i + 1, n as int);
                        assert(items@.take(n as int) =~= items@);
                    }
                    return Err(Stop::Trapped);
                },
            };
            if s == 0 {
                proof {
                    lemma_gpt_entries_stay_halted(s as int, placed, items@, i + 1, n as int);
                    assert(items@.take(n as int) =~= items@);
                }
                return Err(Stop::Trapped);
            }
            let start = rp.offset / s;
            let count = rp.size / s;
            if start > u64::MAX - count || start + count == 0 {
                proof {
                    lemma_gpt_entries_stay_halted(s as int, placed, items@, i + 1, n as int);
                    assert(items@.take(n as int) =~= items@);
                }
                return Err(Stop::Trapped);
            }
            if out.len() >= 128 {
                proof {
                    lemma_gpt_entries_stay_halted(s as int, placed, items@, i + 1, n as int);
                    assert(items@.take(n as int) =~= items@);
                }
                return Err(Stop::Trapped);
            }
            out.push(
                GptEntry {
                    partition_type_guid: guid,
                    unique_partition_guid: unique,
                    starting_lba: start,
                    ending_lba: start + count - 1,
                    partition_name: p.id.clone(),
                },
            );
            proof {
                let e = gpt_entry_step(s as int, placed, items@[i as int])->Ok_0->Some_0;
                assert forall|k: int| 0 <= k < es.len() + 1 implies gpt_entry_fits(
                    #[trigger] out@[k],
                    es.push(e)[k],
                ) && out@[k].unique_partition_guid == uniques@[k] && out@[k].ending_lba < u64::MAX by {
                    if k < es.len() {
                        assert(es.push(e)[k] == es[k]);
                    }
                }
            }
        }
        i = i + 1;
    }
    assert(items@.take(n as int) =~= items@);
    Ok(out)
}

/// The two GUIDs hold the same bytes.
fn same_guid(a: &[u8; 16], b: &[u8; 16]) -> (r: bool)
    ensures
        r == (a@ == b@),
{
    let mut i: usize = 0;
    while i < 16
        invariant
            i <= 16,
            a@.len() == 16,
            b@.len() == 16,
            forall|j: int| 0 <= j < i ==> a@[j] == b@[j],
        decreases 16 - i,
    {
        if a[i] != b[i] {
            return false;
        }
        i = i + 1;
    }
    assert(a@ =~= b@);
    true
}

/// `g` is among the GUIDs `v`.
fn guid_among(v: &Vec<[u8; 16]>, g: &[u8; 16]) -> (r: bool)
    ensures
        r == exists|k: int| 0 <= k < v@.len() && (#[trigger] v@[k])@ == g@,
{
    let mut i: usize = 0;
    while i < v.len()
        invariant
            i <= v@.len(),
            forall|k: int| 0 <= k < i ==> (#[trigger] v@[k])@ != g@,
        decreases v@.len() - i,
    {
        if same_guid(&v[i], g) {
            return true;
        }
        i = i + 1;
    }
    false
}

/// `n` fresh random GUIDs, no two alike: a GUID that repeats one drawn
/// before is drawn again (up to four times). `None` when the system random
/// source failed or kept repeating.
pub fn draw_unique_guids(n: usize) -> (r: Option<Vec<[u8; 16]>>)
    ensures
        r matches Some(v) ==> v@.len() == n && forall|k: int|
            0 <= k < v@.len() ==> is_random_guid(#[trigger] v@[k]@),
        r matches Some(v) ==> forall|i: int, j: int|
            0 <= i < j < v@.len() ==> (#[trigger] v@[i])@ != (#[trigger] v@[j])@,
        n == 0 ==> r is Some,
{
    let mut uniques: Vec<[u8; 16]> = Vec::new();
    while uniques.len() < n
        invariant
            uniques@.len() <= n,
            forall|k: int| 0 <= k < uniques@.len() ==> is_random_guid(#[trigger] uniques@[k]@),
            forall|i: int, j: int|
                0 <= i < j < uniques@.len() ==> (#[trigger] uniques@[i])@ != (#[trigger] uniques@[j])@,
        decreases n - uniques@.len(),
    {
        let mut fresh: Option<[u8; 16]> = None;
        let mut tries: u32 = 0;
        while tries < 4 && fresh.is_none()
            invariant
                uniques@.len() < n,
                fresh matches Some(g) ==> is_random_guid(g@) && forall|k: int|
                    0 <= k < uniques@.len() ==> (#[trigger] uniques@[k])@ != g@,
            decreases 4 - tries,
        {
            match generate_random_guid() {
                Some(g) => {
                    if !guid_among(&uniques, &g) {
                        fresh = Some(g);
                    }
                },
                None => {
                    return None;
                },
            }
            tries = tries + 1;
        }
        match fresh {
            Some(g) => {
                let ghost old_u = uniques@;
                uniques.push(g);
                assert forall|i: int, j: int| 0 <= i < j < uniques@.len() implies (#[trigger] uniques@[i])@
                    != (#[trigger] uniques@[j])@ by {
                    if j == old_u.len() {
                        assert(uniques@[i] == old_u[i]);
                    } else {
                        assert(uniques@[i] == old_u[i] && uniques@[j] == old_u[j]);
                    }
                }
            },
            None => {
                return None;
            },
        }
    }
    Some(uniques)
}

/// The GPT entries to write for the visible partitions, in order (see
/// `gpt_entries`); each gets a fresh random unique GUID, drawn before
/// planning, no two alike. Where no partition is visible nothing is drawn
/// and the result is exactly that of `gpt_entries`; otherwise
/// `Stop::Trapped` also comes when the system random source failed.
pub fn plan_gpt_entries(schema: &SchemaLayout, resolved: &ResolvedInfo) -> (r: Result<Vec<GptEntry>, Stop>)
    ensures
        match gpt_entries(schema.sector as int, resolved@.1, schema.partitions@) {
            Ok(es) => (r matches Ok(v) && v@.len() == es.len() && forall|k: int|
                0 <= k < es.len() ==> gpt_entry_agrees(#[trigger] v@[k], es[k]))
                || (r matches Err(Stop::Trapped) && count_visible(schema.partitions@) > 0),
            Err(h) => (r matches Err(e) && e@ == h)
                || (r matches Err(Stop::Trapped) && count_visible(schema.partitions@) > 0),
        },
        r matches Ok(v) ==> forall|i: int, j: int|
            0 <= i < j < v@.len() ==> (#[trigger] v@[i]).unique_partition_guid@
                != (#[trigger] v@[j]).unique_partition_guid@,
{
    let n = count_visible_partitions(&schema.partitions);
    let uniques = match draw_unique_guids(n) {
        Some(u) => u,
        None => {
            return Err(Stop::Trapped);
        },
    };
    let r = plan_gpt_entries_with(schema, resolved, &uniques);
    proof {
        let es = gpt_entries(schema.sector as int, resolved@.1, schema.partitions@);
        if es is Ok {
            lemma_gpt_entries_count(schema.sector as int, resolved@.1, schema.partitions@);
            let v = r->Ok_0;
            assert forall|k: int| 0 <= k < es->Ok_0.len() implies gpt_entry_agrees(#[trigger] v@[k], es->Ok_0[k]) by {
                assert(gpt_entry_fits(v@[k], es->Ok_0[k]) && v@[k].unique_partition_guid == uniques@[k]);
            }
        }
    }
    r
}

/// A GPT has room for the entries planned.
pub proof fn lemma_gpt_entries_capped(s: int, placed: Seq<Placement>, items: Seq<PartitionConfig>)
    requires
        gpt_entries(s, placed, items) is Ok,
    ensures
        gpt_entries(s, placed, items)->Ok_0.len() <= 128,
    decreases items.len(),
{
    if items.len() > 0 {
        lemma_gpt_entries_capped(s, placed, items.drop_last());
    }
}

/// A DOS table has room for the entries planned.
pub proof fn lemma_mbr_entries_capped(s: int, placed: Seq<Placement>, items: Seq<PartitionConfig>)
    requires
        mbr_entries(s, placed, items) is Ok,
    ensures
        mbr_entries(s, placed, items)->Ok_0.len() <= 4,
    decreases items.len(),
{
    if items.len() > 0 {
        lemma_mbr_entries_capped(s, placed, items.drop_last());
    }
}

/// The DOS entries to write for the visible partitions, in order (see
/// `mbr_entries`).
pub fn plan_mbr_entries(schema: &SchemaLayout, resolved: &ResolvedInfo) -> (r: Result<Vec<MbrEntry>, Stop>)
    ensures
        match mbr_entries(schema.sector as int, resolved@.1, schema.partitions@) {
            Ok(es) => r matches Ok(v) && v@ == es,
            Err(h) => r matches Err(e) && e@ == h,
        },
{
    let s = schema.sector;
    let items = &schema.partitions;
    let ghost placed = resolved@.1;
    let n = items.len();
    let mut out: Vec<MbrEntry> = Vec::new();
    let mut i: usize = 0;
    assert(items@.take(0) =~= Seq::<PartitionConfig>::empty());
    while i < n
        invariant
            n == items@.len(),
            items == &schema.partitions,
            s == schema.sector,
            placed == resolved@.1,
            i <= n,
            mbr_entries(s as int, placed, items@.take(i as int)) == Ok::<Seq<MbrEntry>, Halt>(out@),
        decreases n - i,
    {
        let p = &items[i];
        assert(items@.take(i + 1).drop_last() =~= items@.take(i as int));
        assert(items@.take(i + 1).last() == items@[i as int]);
        let hidden = match p.hidden {
            Some(h) => h,
            None => false,
        };
        if !hidden {
            let rp = match find_resolved(&resolved.partitions, &p.id) {
                Some(x) => x,
                None => {
                    proof {
                        lemma_mbr_entries_stay_halted(s as int, placed, items@, i + 1, n as int);
                        assert(items@.take(n as int) =~= items@);
                    }
                    return Err(Stop::Trapped);
                },
            };
            if s == 0 {
                proof {
                    lemma_mbr_entries_stay_halted(s as int, placed, items@, i + 1, n as int);
                    assert(items@.take(n as int) =~= items@);
                }
                return Err(Stop::Trapped);
            }
            let start = rp.offset / s;
            let count = rp.size / s;
            let type_text: &str = match &p.partition_type {
                Some(t) => t.as_str(),
                None => "0x83",
            };
            let sys = match parse_prefixed_hex(type_text, 255) {
                Ok(b) => b as u8,
                Err(_) => {
                    proof {
                        lemma_mbr_entries_stay_halted(s as int, placed, items@, i + 1, n as int);
                        assert(items@.take(n as int) =~= items@);
                    }
                    return Err(Stop::Trapped);
                },
            };
            let starting_lba = (start % 0x1_0000_0000) as u32;
            let sectors = (count % 0x1_0000_0000) as u32;
            if out.len() >= 4 {
                proof {
                    lemma_mbr_entries_stay_halted(s as int, placed, items@, i + 1, n as int);
                    assert(items@.take(n as int) =~= items@);
                }
                return Err(Stop::Trapped);
            }
            let entry = MbrEntry { starting_lba, sectors, sys };
            assert(mbr_entry_step(s as int, placed, items@[i as int]) == Ok::<Option<MbrEntry>, Halt>(Some(entry)));
            out.push(entry);
        }
        i = i + 1;
    }
    assert(items@.take(n as int) =~= items@);
    Ok(out)
}

/// Once planning GPT entries has stopped, more partitions do not resume it.
proof fn lemma_gpt_entries_stay_halted(
    s: int,
    placed: Seq<Placement>,
    items: Seq<PartitionConfig>,
    i: int,
    m: int,
)
    requires
        0 <= i <= m <= items.len(),
        gpt_entries(s, placed, items.take(i)) is Err,
    ensures
        gpt_entries(s, placed, items.take(m)) == gpt_entries(s, placed, items.take(i)),
    decreases m - i,
{
    if m > i {
        lemma_gpt_entries_stay_halted(s, placed, items, i, m - 1);
        assert(items.take(m).drop_last() =~= items.take(m - 1));
    }
}

/// Once planning DOS entries has stopped, more partitions do not resume it.
proof fn lemma_mbr_entries_stay_halted(
    s: int,
    placed: Seq<Placement>,
    items: Seq<PartitionConfig>,
    i: int,
    m: int,
)
    requires
        0 <= i <= m <= items.len(),
        mbr_entries(s, placed, items.take(i)) is Err,
    ensures
        mbr_entries(s, placed, items.take(m)) == mbr_entries(s, placed, items.take(i)),
    decreases m - i,
{
    if m > i {
        lemma_mbr_entries_stay_halted(s, placed, items, i, m - 1);
        assert(items.take(m).drop_last() =~= items.take(m - 1));
    }
}

/// The layout handed back once the partition table has been written on
/// `disk`: the disk size and placements as resolved, and the disk's
/// non-zero bytes as chunks (see `chunks_describe`), which reproduce the
/// disk (see `chunks_reproduce`).
pub fn finish_layout(disk: &SparseDisk, resolved: ResolvedInfo) -> (r: LayoutResult)
    requires
        disk.wf(),
    ensures
        r.disk_size == resolved.disk_size,
        r.resolved_partitions@ == resolved.partitions@,
        chunks_describe(disk.content(), r.metadata_chunks@),
        chunks_reproduce(disk.content(), r.metadata_chunks@),
{
    let chunks = disk.nonzero_chunks();
    proof {
        disk.lemma_wf_blocks();
        lemma_chunks_reproduce_disk(disk.content(), chunks@);
    }
    LayoutResult {
        disk_size: resolved.disk_size,
        metadata_chunks: chunks,
        resolved_partitions: resolved.partitions,
    }
}

/// Writes the partition table that the schema asks for on an all-zero
/// sparse disk of the resolved size and returns the disk's non-zero chunks
/// with the resolved placements (see `table_image` and `generate_with`).
/// Where the table needs no random value the outcome is exactly that of
/// `table_image`; otherwise it is that of `table_image` for some random
/// values, or `Stop::Trapped` when the system random source failed.
pub fn generate(schema: &SchemaLayout, resolved: ResolvedInfo) -> (r: Result<LayoutResult, Stop>)
    ensures
        !draws_random(*schema) ==> layout_of(
            r,
            table_image(
                *schema,
                resolved.disk_size,
                resolved@.1,
                Seq::new(16, |i: int| 0u8),
                Seq::new(4, |i: int| 0u8),
                Seq::empty(),
            ),
            resolved,
        ),
        draws_random(*schema) ==> r matches Err(Stop::Trapped) || exists|g: Seq<u8>, d: Seq<u8>, u: Seq<[u8; 16]>|
            possible_draws(*schema, g, d, u) && #[trigger] layout_of(
                r,
                table_image(*schema, resolved.disk_size, resolved@.1, g, d, u),
                resolved,
            ),
{
    let gpt = match schema.table {
        TableType::Gpt => true,
        _ => false,
    };
    let dos = match schema.table {
        TableType::Dos => true,
        _ => false,
    };
    let no_id = schema.disk_id.is_none();
    let guid_drawn: [u8; 16] = if gpt && no_id {
        match generate_random_guid() {
            Some(g) => g,
            None => {
                return Err(Stop::Trapped);
            },
        }
    } else {
        [0u8; 16]
    };
    let dos_drawn: [u8; 4] = if dos && no_id {
        match generate_random_dos_id() {
            Some(a) => a,
            None => {
                return Err(Stop::Trapped);
            },
        }
    } else {
        [0u8; 4]
    };
    let uniques: Vec<[u8; 16]> = if gpt {
        let n = count_visible_partitions(&schema.partitions);
        match draw_unique_guids(n) {
            Some(u) => u,
            None => {
                return Err(Stop::Trapped);
            },
        }
    } else {
        Vec::new()
    };
    let ghost g = guid_drawn@;
    let ghost d = dos_drawn@;
    let ghost u = uniques@;
    let r = generate_with(schema, resolved, guid_drawn, dos_drawn, &uniques);
    proof {
        assert(possible_draws(*schema, g, d, u));
        if !draws_random(*schema) {
            assert(guid_drawn@ =~= Seq::new(16, |i: int| 0u8));
            assert(dos_drawn@ =~= Seq::new(4, |i: int| 0u8));
            assert(uniques@ =~= Seq::<[u8; 16]>::empty());
        }
    }
    r
}

} // verus!
