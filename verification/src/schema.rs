use vstd::prelude::*;

verus! {

/// Kind of partition table written on the disk.
#[derive(Debug, PartialEq, Eq, Structural, Clone, Copy)]
pub enum TableType {
    Gpt,
    Dos,
    /// No partition table at all: the partitions are only placed.
    Raw,
}

/// One partition as the user describes it.
#[derive(Debug)]
pub struct PartitionConfig {
    /// GPT type UUID or DOS type byte (hex text).
    pub partition_type: Option<String>,
    pub id: String,
    pub offset: Option<u64>,
    pub size: Option<u64>,
    pub hidden: Option<bool>,
}

/// The whole disk schema.
#[derive(Debug)]
pub struct SchemaLayout {
    pub table: TableType,
    pub disk_id: Option<String>,
    pub sector: u64,
    pub partitions: Vec<PartitionConfig>,
}

/// Sector size used when the schema gives none.
pub fn default_sector() -> (r: u64)
    ensures
        r == 512,
{
    512
}


/// The map spelled by a list of `(id, size)` pairs, later pairs winning.
pub open spec fn sizes_map(entries: Seq<(String, u64)>) -> Map<Seq<char>, u64>
    decreases entries.len(),
{
    if entries.len() == 0 {
        Map::empty()
    } else {
        sizes_map(entries.drop_last()).insert(entries.last().0@, entries.last().1)
    }
}

/// Looking `k` up in the pairs from position `i` on finds nothing newer
/// than what the first `i` pairs give, when no later pair names `k`.
proof fn lemma_sizes_map_prefix(entries: Seq<(String, u64)>, i: int, k: Seq<char>)
    requires
        0 <= i <= entries.len(),
        forall|j: int| i <= j < entries.len() ==> #[trigger] entries[j].0@ != k,
    ensures
        sizes_map(entries).contains_key(k) == sizes_map(entries.take(i)).contains_key(k),
        sizes_map(entries).contains_key(k) ==> sizes_map(entries)[k] == sizes_map(entries.take(i))[k],
    decreases entries.len() - i,
{
    if i < entries.len() {
        lemma_sizes_map_prefix(entries.drop_last(), i, k);
        assert(entries.drop_last().take(i) =~= entries.take(i));
    } else {
        assert(entries.take(i) =~= entries);
    }
}

/// Byte sizes of the input files, by partition id: a map in which each id
/// has at most one size.
pub struct FileSizes {
    entries: Vec<(String, u64)>,
}

impl View for FileSizes {
    type V = Map<Seq<char>, u64>;

    closed spec fn view(&self) -> Map<Seq<char>, u64> {
        sizes_map(self.entries@)
    }
}

impl FileSizes {
    /// No sizes at all.
    pub fn new() -> (r: Self)
        ensures
            r@ == Map::<Seq<char>, u64>::empty(),
    {
        FileSizes { entries: Vec::new() }
    }

    /// Records `size` for `id`, replacing any size it had.
    pub fn insert(&mut self, id: String, size: u64)
        ensures
            final(self)@ == old(self)@.insert(id@, size),
    {
        let ghost old_entries = self.entries@;
        self.entries.push((id, size));
        assert(self.entries@.drop_last() =~= old_entries);
    }

    /// The size recorded for `id`, if any.
    pub fn get(&self, id: &String) -> (r: Option<u64>)
        ensures
            match r {
                Some(v) => self@.contains_key(id@) && self@[id@] == v,
                None => !self@.contains_key(id@),
            },
    {
        let mut i: usize = self.entries.len();
        while i > 0
            invariant
                i <= self.entries@.len(),
                forall|j: int| i <= j < self.entries@.len() ==> #[trigger] self.entries@[j].0@ != id@,
            decreases i,
        {
            i = i - 1;
            if self.entries[i].0 == *id {
                proof {
                    lemma_sizes_map_prefix(self.entries@, i + 1, id@);
                    assert(self.entries@.take(i + 1).drop_last() =~= self.entries@.take(i as int));
                }
                return Some(self.entries[i].1);
            }
        }
        proof {
            lemma_sizes_map_prefix(self.entries@, 0, id@);
        }
        None
    }
}

} // verus!
