use std::collections::BTreeMap;
use vstd::prelude::*;
use crate::layout::Chunk;
use vstd::std_specs::btree::{increasing_seq, key_obeys_cmp_spec};
use vstd::std_specs::cmp::OrdSpec;
use vstd::std_specs::iter::IteratorSpec;

verus! {

broadcast use vstd::std_specs::btree::group_btree_axioms, vstd::laws_cmp::group_laws_cmp;

/// Size of one stored block of the sparse disk.
pub const BLOCK_SIZE: u64 = 4096;

/// Where a seek counts from (as `std::io::SeekFrom`).
#[derive(Debug, Clone, Copy, PartialEq, Eq, Structural)]
pub enum SeekFrom {
    Start(u64),
    End(i64),
    Current(i64),
}

/// A virtual disk of `size` bytes that only stores the 4096-byte blocks
/// that were written; every other byte reads as zero.
pub struct SparseDisk {
    pub blocks: BTreeMap<u64, Vec<u8>>,
    pos: u64,
    size: u64,
}

/// Largest block index whose bytes all have a `u64` address.
pub open spec fn max_block_index() -> int {
    (u64::MAX as int) / 4096
}

/// The byte at `addr` of a disk whose stored blocks are `content`.
pub open spec fn byte_at(content: Map<u64, Seq<u8>>, addr: int) -> u8 {
    let k = addr / 4096;
    if 0 <= addr && k <= u64::MAX && content.contains_key(k as u64) {
        content[k as u64][addr % 4096]
    } else {
        0
    }
}

/// Number of bytes a read of `len` bytes at `pos` yields on a disk of `size`
/// bytes: it stops at the end of the current block and at the end of the
/// disk (the bytes left are counted in `usize`).
pub open spec fn read_len(pos: u64, size: u64, len: int) -> int {
    let room = 4096 - pos % 4096;
    let left = ((size - pos) as u64 as usize) as int;
    if len == 0 || size <= pos {
        0
    } else {
        let a = if room < len { room } else { len };
        if left < a { left } else { a }
    }
}

/// Number of bytes a write of `len` bytes at `pos` stores: it stops at the
/// end of the current block.
pub open spec fn write_len(pos: u64, len: int) -> int {
    let room = 4096 - pos % 4096;
    if room < len { room } else { len }
}

/// The stored blocks after writing `data` at `pos`: the block holding `pos`
/// (zeros if it was not stored) gets the first `write_len` bytes of `data`
/// from offset `pos % 4096` on; the block's other bytes stay.
pub open spec fn written_content(content: Map<u64, Seq<u8>>, pos: u64, data: Seq<u8>) -> Map<
    u64,
    Seq<u8>,
> {
    let k = (pos / 4096) as u64;
    let o = pos % 4096;
    let n = write_len(pos, data.len() as int);
    let base = if content.contains_key(k) {
        content[k]
    } else {
        Seq::new(4096, |i: int| 0u8)
    };
    if data.len() == 0 {
        content
    } else {
        content.insert(k, base.subrange(0, o as int) + data.subrange(0, n) + base.subrange(o + n, base.len() as int))
    }
}

/// The block holding `pos`, where it is stored, reaches at least `n` bytes
/// past `pos`.
pub open spec fn block_room(content: Map<u64, Seq<u8>>, pos: u64, n: int) -> bool {
    let k = (pos / 4096) as u64;
    content.contains_key(k) ==> content[k].len() >= pos % 4096 + n
}

/// Where a seek leads from cursor `pos` on a disk of `size` bytes.
pub open spec fn seek_target(pos: u64, size: u64, target: SeekFrom) -> u64 {
    match target {
        SeekFrom::Start(p) => p,
        SeekFrom::End(p) => ((size as i64) + p) as i64 as u64,
        SeekFrom::Current(p) => ((pos as i64) + p) as i64 as u64,
    }
}

/// The seek stays within `i64` arithmetic.
pub open spec fn seek_in_range(pos: u64, size: u64, target: SeekFrom) -> bool {
    match target {
        SeekFrom::Start(_) => true,
        SeekFrom::End(p) => i64::MIN <= (size as i64) + p <= i64::MAX,
        SeekFrom::Current(p) => i64::MIN <= (pos as i64) + p <= i64::MAX,
    }
}


/// `b` holds a non-zero byte.
pub open spec fn has_nonzero(b: Seq<u8>) -> bool {
    exists|i: int| 0 <= i < b.len() && b[i] != 0
}

/// `[s, e)` is `b` without its leading and trailing zero bytes: it starts
/// and ends on a non-zero byte and all bytes outside it are zero.
pub open spec fn is_trimmed_span(b: Seq<u8>, s: int, e: int) -> bool {
    &&& 0 <= s < e <= b.len()
    &&& b[s] != 0
    &&& b[e - 1] != 0
    &&& forall|j: int| 0 <= j < s ==> b[j] == 0
    &&& forall|j: int| e <= j < b.len() ==> b[j] == 0
}

/// `(offset, data)` is the trimmed non-zero part of the stored block that
/// holds `offset`.
pub open spec fn is_block_chunk(content: Map<u64, Seq<u8>>, offset: u64, data: Seq<u8>) -> bool {
    let k = (offset / 4096) as u64;
    let s = offset % 4096;
    &&& content.contains_key(k)
    &&& is_trimmed_span(content[k], s as int, s + data.len())
    &&& data == content[k].subrange(s as int, s + data.len())
}

/// The chunks list, in increasing block order, exactly the trimmed non-zero
/// part of every stored block that is not all zero.
pub open spec fn chunks_describe(content: Map<u64, Seq<u8>>, chunks: Seq<Chunk>) -> bool {
    &&& forall|i: int|
        0 <= i < chunks.len() ==> is_block_chunk(content, #[trigger] chunks[i].offset, chunks[i].data@)
    &&& forall|i: int, j: int|
        0 <= i < j < chunks.len() ==> #[trigger] chunks[i].offset / 4096 < #[trigger] chunks[j].offset / 4096
    &&& forall|k: u64|
        #[trigger] content.contains_key(k) && has_nonzero(content[k]) ==> exists|i: int|
            0 <= i < chunks.len() && #[trigger] (chunks[i].offset / 4096) == k
}

/// `u64` keys follow vstd's model of `Ord`.
proof fn lemma_u64_keys_follow_ord()
    ensures
        key_obeys_cmp_spec::<u64>(),
{
    assert(vstd::laws_cmp::obeys_cmp::<u64>());
}

/// A key-ordered walk over `u64` keys visits them in strictly increasing order.
proof fn lemma_block_keys_sorted(s: Seq<(&u64, &Vec<u8>)>)
    requires
        key_obeys_cmp_spec::<u64>() ==> increasing_seq(s.map_values(|kv: (&u64, &Vec<u8>)| *kv.0)),
    ensures
        key_obeys_cmp_spec::<u64>(),
        forall|i: int, j: int| 0 <= i < j < s.len() ==> *s[i].0 < *s[j].0,
{
    lemma_u64_keys_follow_ord();
    let ks = s.map_values(|kv: (&u64, &Vec<u8>)| *kv.0);
    assert forall|i: int, j: int| 0 <= i < j < s.len() implies *s[i].0 < *s[j].0 by {
        assert(ks[i].cmp_spec(&ks[j]) is Less);
    }
}

/// Bounds of the non-zero part of a block, if it has one.
fn trimmed_span(b: &Vec<u8>) -> (r: Option<(usize, usize)>)
    ensures
        match r {
            Some((s, e)) => is_trimmed_span(b@, s as int, e as int),
            None => !has_nonzero(b@),
        },
{
    let n = b.len();
    let mut s: usize = 0;
    while s < n && b[s] == 0
        invariant
            s <= n,
            n == b@.len(),
            forall|j: int| 0 <= j < s ==> b@[j] == 0,
        decreases n - s,
    {
        s = s + 1;
    }
    if s == n {
        return None;
    }
    let mut e: usize = n;
    while e > s + 1 && b[e - 1] == 0
        invariant
            s < e <= n,
            n == b@.len(),
            b@[s as int] != 0,
            forall|j: int| e <= j < n ==> b@[j] == 0,
        decreases e,
    {
        e = e - 1;
    }
    Some((s, e))
}

/// The bytes `b[s..e]`.
fn copy_span(b: &Vec<u8>, s: usize, e: usize) -> (r: Vec<u8>)
    requires
        s <= e <= b@.len(),
    ensures
        r@ == b@.subrange(s as int, e as int),
{
    let mut r: Vec<u8> = Vec::new();
    let mut i: usize = s;
    while i < e
        invariant
            s <= i <= e,
            e <= b@.len(),
            r@ == b@.subrange(s as int, i as int),
        decreases e - i,
    {
        r.push(b[i]);
        i = i + 1;
        assert(r@ =~= b@.subrange(s as int, i as int));
    }
    r
}

/// Every stored block is 4096 bytes long.
pub open spec fn blocks_full_size(content: Map<u64, Seq<u8>>) -> bool {
    forall|k: u64| #[trigger] content.contains_key(k) ==> content[k].len() == 4096
}

/// Law: a write stores its bytes and leaves every other byte alone. After
/// writing `data` (not empty) at the cursor `pos`, the `n` bytes it reports
/// (`write_len`) read back as the front of `data`, and every other address
/// holds what it held before.
pub proof fn lemma_write_then_read(content: Map<u64, Seq<u8>>, pos: u64, data: Seq<u8>, addr: int)
    requires
        blocks_full_size(content),
        data.len() > 0,
        pos + write_len(pos, data.len() as int) <= u64::MAX,
    ensures
        ({
            let after = written_content(content, pos, data);
            let n = write_len(pos, data.len() as int);
            &&& pos <= addr < pos + n ==> byte_at(after, addr) == data[addr - pos]
            &&& !(pos <= addr < pos + n) ==> byte_at(after, addr) == byte_at(content, addr)
        }),
{
    let k = (pos / 4096) as u64;
    let o = (pos % 4096) as int;
    let n = write_len(pos, data.len() as int);
    let after = written_content(content, pos, data);
    let base = if content.contains_key(k) {
        content[k]
    } else {
        Seq::new(4096, |i: int| 0u8)
    };
    let nb = base.subrange(0, o) + data.subrange(0, n) + base.subrange(o + n, base.len() as int);
    assert(after == content.insert(k, nb));
    assert(0 < n <= 4096 - o);
    if pos <= addr < pos + n {
        assert(addr / 4096 == k && addr % 4096 == o + (addr - pos)) by (nonlinear_arith)
            requires
                k == pos / 4096,
                o == pos % 4096,
                pos <= addr < pos + n,
                n <= 4096 - o,
        ;
        assert(nb[o + (addr - pos)] == data[addr - pos]);
    } else if addr >= 0 && addr / 4096 == k {
        let j = addr % 4096;
        assert(j < o || j >= o + n) by (nonlinear_arith)
            requires
                k == pos / 4096,
                o == pos % 4096,
                addr / 4096 == k,
                j == addr % 4096,
                !(pos <= addr < pos + n),
                addr >= 0,
        ;
        assert(0 <= j < 4096);
        assert(nb[j] == base[j]);
    }
}

/// The chunks reproduce the disk: every byte of every chunk is the disk's
/// byte at that address; every non-zero byte of the disk lies in a chunk;
/// the chunks come in increasing address order without overlap.
pub open spec fn chunks_reproduce(content: Map<u64, Seq<u8>>, chunks: Seq<Chunk>) -> bool {
    &&& forall|i: int, j: int|
        0 <= i < chunks.len() && 0 <= j < chunks[i].data@.len() ==> byte_at(
            content,
            chunks[i].offset + j,
        ) == #[trigger] chunks[i].data@[j]
    &&& forall|addr: int|
        #[trigger] byte_at(content, addr) != 0 ==> exists|i: int|
            0 <= i < chunks.len() && #[trigger] chunks[i].offset <= addr < chunks[i].offset
                + chunks[i].data@.len()
    &&& forall|i: int, j: int|
        0 <= i < j < chunks.len() ==> chunks[i].offset + chunks[i].data@.len()
            <= #[trigger] chunks[j].offset && #[trigger] chunks[i].offset < chunks[j].offset
}

/// Law: a write keeps every stored block 4096 bytes long and can only add
/// the block that holds the cursor.
pub proof fn lemma_write_keeps_blocks(content: Map<u64, Seq<u8>>, pos: u64, data: Seq<u8>)
    requires
        blocks_full_size(content),
    ensures
        blocks_full_size(written_content(content, pos, data)),
        forall|k: u64|
            #[trigger] written_content(content, pos, data).contains_key(k) ==> content.contains_key(k)
                || k == pos / 4096,
{
}

/// Law: the chunks of a disk reproduce it. Every byte of every chunk is the
/// disk's byte at that address; every non-zero byte of the disk lies in a
/// chunk; and the chunks come in increasing address order without overlap.
pub proof fn lemma_chunks_reproduce_disk(content: Map<u64, Seq<u8>>, chunks: Seq<Chunk>)
    requires
        blocks_full_size(content),
        forall|k: u64| #[trigger] content.contains_key(k) ==> k <= max_block_index(),
        chunks_describe(content, chunks),
    ensures
        chunks_reproduce(content, chunks),
{
    assert forall|i: int, j: int|
        0 <= i < chunks.len() && 0 <= j < chunks[i].data@.len() implies byte_at(
        content,
        chunks[i].offset + j,
    ) == #[trigger] chunks[i].data@[j] by {
        let c = chunks[i];
        assert(is_block_chunk(content, c.offset, c.data@));
        let k = (c.offset / 4096) as u64;
        let st = c.offset % 4096;
        let a = c.offset + j;
        assert(st + c.data@.len() <= 4096);
        assert(a / 4096 == k && a % 4096 == st + j) by (nonlinear_arith)
            requires
                k == c.offset / 4096,
                st == c.offset % 4096,
                a == c.offset + j,
                0 <= j,
                st + j < 4096,
        ;
    }
    assert forall|addr: int| #[trigger] byte_at(content, addr) != 0 implies exists|i: int|
        0 <= i < chunks.len() && #[trigger] chunks[i].offset <= addr < chunks[i].offset + chunks[i].data@.len() by {
        let k = (addr / 4096) as u64;
        let j = addr % 4096;
        assert(content.contains_key(k));
        assert(content[k][j] != 0);
        assert(has_nonzero(content[k]));
        let i = choose|i: int| 0 <= i < chunks.len() && #[trigger] (chunks[i].offset / 4096) == k;
        let c = chunks[i];
        assert(is_block_chunk(content, c.offset, c.data@));
        let st = c.offset % 4096;
        assert(st <= j < st + c.data@.len());
        assert(c.offset <= addr < c.offset + c.data@.len()) by (nonlinear_arith)
            requires
                k == addr / 4096,
                j == addr % 4096,
                k == c.offset / 4096,
                st == c.offset % 4096,
                st <= j < st + c.data@.len(),
                addr >= 0,
                c.offset >= 0,
        ;
    }
    assert forall|i: int, j: int| 0 <= i < j < chunks.len() implies chunks[i].offset
        + chunks[i].data@.len() <= #[trigger] chunks[j].offset && #[trigger] chunks[i].offset
        < chunks[j].offset by {
        let ci = chunks[i];
        let cj = chunks[j];
        assert(ci.offset / 4096 < cj.offset / 4096);
        assert(is_block_chunk(content, ci.offset, ci.data@));
        let st = ci.offset % 4096;
        assert(st + ci.data@.len() <= 4096);
        assert(ci.offset + ci.data@.len() <= cj.offset) by (nonlinear_arith)
            requires
                ci.offset / 4096 < cj.offset / 4096,
                st == ci.offset % 4096,
                st + ci.data@.len() <= 4096,
                ci.offset >= 0,
                cj.offset >= 0,
        ;
    }
}

/// Two chunk lists hold the same chunks: the same offsets and bytes, in
/// the same order.
pub open spec fn same_chunks(a: Seq<Chunk>, b: Seq<Chunk>) -> bool {
    &&& a.len() == b.len()
    &&& forall|i: int| 0 <= i < a.len() ==> #[trigger] a[i].offset == b[i].offset && a[i].data@ == b[i].data@
}

/// A block has one trimmed span.
proof fn lemma_trimmed_span_unique(b: Seq<u8>, s1: int, e1: int, s2: int, e2: int)
    requires
        is_trimmed_span(b, s1, e1),
        is_trimmed_span(b, s2, e2),
    ensures
        s1 == s2 && e1 == e2,
{
    if s1 < s2 {
        assert(b[s1] == 0);
    }
    if s2 < s1 {
        assert(b[s2] == 0);
    }
    if e1 < e2 {
        assert(b[e2 - 1] == 0);
    }
    if e2 < e1 {
        assert(b[e1 - 1] == 0);
    }
}

/// Described chunks of one content sit on the same blocks, position by
/// position, up to `i`.
proof fn lemma_chunk_blocks_agree(c: Map<u64, Seq<u8>>, a: Seq<Chunk>, b: Seq<Chunk>, i: int)
    requires
        chunks_describe(c, a),
        chunks_describe(c, b),
        0 <= i < a.len(),
        i < b.len(),
    ensures
        forall|t: int| 0 <= t <= i ==> #[trigger] (a[t].offset / 4096) == b[t].offset / 4096,
    decreases i,
{
    if i > 0 {
        lemma_chunk_blocks_agree(c, a, b, i - 1);
    }
    let ka = (a[i].offset / 4096) as u64;
    let kb = (b[i].offset / 4096) as u64;
    assert(is_block_chunk(c, a[i].offset, a[i].data@));
    assert(is_block_chunk(c, b[i].offset, b[i].data@));
    let sa = a[i].offset % 4096;
    let sb = b[i].offset % 4096;
    assert(c[ka][sa as int] != 0);
    assert(c[kb][sb as int] != 0);
    assert(has_nonzero(c[ka]));
    assert(has_nonzero(c[kb]));
    assert(c.contains_key(ka) && has_nonzero(c[ka]));
    let j = choose|j: int| 0 <= j < b.len() && #[trigger] (b[j].offset / 4096) == ka;
    let h = choose|h: int| 0 <= h < a.len() && #[trigger] (a[h].offset / 4096) == kb;
    if j < i {
        assert(a[j].offset / 4096 == b[j].offset / 4096);
        assert(a[j].offset / 4096 < a[i].offset / 4096);
    }
    if h < i {
        assert(a[h].offset / 4096 == b[h].offset / 4096);
        assert(b[h].offset / 4096 < b[i].offset / 4096);
    }
    if j > i {
        assert(b[i].offset / 4096 < b[j].offset / 4096);
    }
    if h > i {
        assert(a[i].offset / 4096 < a[h].offset / 4096);
    }
}

/// Law: the chunks of a disk are determined by its content: any two chunk
/// lists that describe the same content hold the same chunks.
pub proof fn lemma_chunks_determined(c: Map<u64, Seq<u8>>, a: Seq<Chunk>, b: Seq<Chunk>)
    requires
        chunks_describe(c, a),
        chunks_describe(c, b),
    ensures
        same_chunks(a, b),
{
    let m = if a.len() < b.len() { a.len() as int } else { b.len() as int };
    if m > 0 {
        lemma_chunk_blocks_agree(c, a, b, m - 1);
    }
    if a.len() != b.len() {
        if a.len() > b.len() {
            let x = a[m];
            assert(is_block_chunk(c, x.offset, x.data@));
            let k = (x.offset / 4096) as u64;
            assert(c[k][(x.offset % 4096) as int] != 0);
            assert(has_nonzero(c[k]));
            let j = choose|j: int| 0 <= j < b.len() && #[trigger] (b[j].offset / 4096) == k;
            assert(a[j].offset / 4096 == b[j].offset / 4096);
            assert(a[j].offset / 4096 < a[m].offset / 4096);
        } else {
            let x = b[m];
            assert(is_block_chunk(c, x.offset, x.data@));
            let k = (x.offset / 4096) as u64;
            assert(c[k][(x.offset % 4096) as int] != 0);
            assert(has_nonzero(c[k]));
            let j = choose|j: int| 0 <= j < a.len() && #[trigger] (a[j].offset / 4096) == k;
            assert(a[j].offset / 4096 == b[j].offset / 4096);
            assert(b[j].offset / 4096 < b[m].offset / 4096);
        }
    }
    assert forall|i: int| 0 <= i < a.len() implies #[trigger] a[i].offset == b[i].offset && a[i].data@ == b[i].data@ by {
        assert(a[i].offset / 4096 == b[i].offset / 4096);
        assert(is_block_chunk(c, a[i].offset, a[i].data@));
        assert(is_block_chunk(c, b[i].offset, b[i].data@));
        let k = (a[i].offset / 4096) as u64;
        let sa = a[i].offset % 4096;
        let sb = b[i].offset % 4096;
        lemma_trimmed_span_unique(c[k], sa as int, sa + a[i].data@.len(), sb as int, sb + b[i].data@.len());
        let oa = a[i].offset;
        let ob = b[i].offset;
        assert(oa == ob) by (nonlinear_arith)
            requires
                oa / 4096 == ob / 4096,
                oa % 4096 == ob % 4096,
        ;
    }
}

impl SparseDisk {
    /// The stored blocks, each by its bytes.
    pub closed spec fn content(&self) -> Map<u64, Seq<u8>> {
        self.blocks@.map_values(|b: Vec<u8>| b@)
    }

    /// Every stored block is 4096 bytes long and addressable in `u64`.
    pub closed spec fn wf(&self) -> bool {
        forall|k: u64| #[trigger]
            self.blocks@.contains_key(k) ==> k <= max_block_index() && self.blocks@[k]@.len()
                == 4096
    }

    /// A well-formed disk's blocks are full-size and addressable.
    pub proof fn lemma_wf_blocks(&self)
        requires
            self.wf(),
        ensures
            blocks_full_size(self.content()),
            forall|k: u64| #[trigger] self.content().contains_key(k) ==> k <= max_block_index(),
    {
    }

    /// The cursor.
    pub closed spec fn cursor(&self) -> u64 {
        self.pos
    }

    /// The disk's size in bytes.
    pub closed spec fn capacity(&self) -> u64 {
        self.size
    }

    /// The cursor.
    pub fn position(&self) -> (p: u64)
        ensures
            p == self.cursor(),
    {
        self.pos
    }

    /// The disk's size in bytes.
    pub fn size(&self) -> (n: u64)
        ensures
            n == self.capacity(),
    {
        self.size
    }

    /// An all-zero disk of `size` bytes with the cursor at 0.
    pub fn new(size: u64) -> (d: Self)
        ensures
            d.wf(),
            d.content() == Map::<u64, Seq<u8>>::empty(),
            forall|addr: int| byte_at(d.content(), addr) == 0,
            d.cursor() == 0,
            d.capacity() == size,
    {
        let d = Self { blocks: BTreeMap::new(), pos: 0, size };
        assert(d.content() =~= Map::<u64, Seq<u8>>::empty());
        d
    }

    /// Reads from the cursor into `buf`, at most up to the end of the
    /// current block and of the disk; advances the cursor by the count read.
    pub fn read(&mut self, buf: &mut [u8]) -> (n: usize)
        requires
            block_room(
                old(self).content(),
                old(self).cursor(),
                read_len(old(self).cursor(), old(self).capacity(), old(buf)@.len() as int),
            ),
        ensures
            final(self).wf() == old(self).wf(),
            final(self).content() == old(self).content(),
            final(self).capacity() == old(self).capacity(),
            n == read_len(old(self).cursor(), old(self).capacity(), old(buf)@.len() as int),
            final(self).cursor() == old(self).cursor() + n,
            final(buf)@.len() == old(buf)@.len(),
            forall|i: int|
                0 <= i < n ==> #[trigger] final(buf)@[i] == byte_at(
                    old(self).content(),
                    old(self).cursor() + i,
                ),
            forall|i: int| n <= i < old(buf)@.len() ==> #[trigger] final(buf)@[i] == old(buf)@[i],
    {
        if buf.len() == 0 {
            return 0;
        }
        let block_idx = self.pos / BLOCK_SIZE;
        let offset = (self.pos % BLOCK_SIZE) as usize;
        let remaining_in_disk: u64 = if self.size > self.pos {
            self.size - self.pos
        } else {
            0
        };
        if remaining_in_disk == 0 {
            return 0;
        }
        let mut len: usize = buf.len();
        let room: usize = 4096 - offset;
        if room < len {
            len = room;
        }
        let left: usize = #[verifier::truncate] (remaining_in_disk as usize);
        if left < len {
            len = left;
        }
        let ghost old_buf = buf@;
        let ghost content = self.content();
        match self.blocks.get(&block_idx) {
            Some(block) => {
                let mut i: usize = 0;
                while i < len
                    invariant
                        i <= len,
                        len <= 4096 - offset,
                        offset == self.pos % 4096,
                        block_idx == self.pos / 4096,
                        block@.len() >= offset + len,
                        content.contains_key(block_idx),
                        content[block_idx] == block@,
                        len <= old_buf.len(),
                        buf@.len() == old_buf.len(),
                        forall|j: int|
                            0 <= j < i ==> #[trigger] buf@[j] == byte_at(content, self.pos + j),
                        forall|j: int| i <= j < old_buf.len() ==> #[trigger] buf@[j] == old_buf[j],
                    decreases len - i,
                {
                    let b = block[offset + i];
                    proof {
                        let a = self.pos + i;
                        assert(a / 4096 == block_idx && a % 4096 == offset + i) by (nonlinear_arith)
                            requires
                                a == self.pos + i,
                                offset == self.pos % 4096,
                                block_idx == self.pos / 4096,
                                i < 4096 - offset,
                        ;
                    }
                    buf[i] = b;
                    i = i + 1;
                }
            },
            None => {
                let mut i: usize = 0;
                while i < len
                    invariant
                        i <= len,
                        len <= 4096 - offset,
                        offset == self.pos % 4096,
                        block_idx == self.pos / 4096,
                        !content.contains_key(block_idx),
                        len <= old_buf.len(),
                        buf@.len() == old_buf.len(),
                        forall|j: int|
                            0 <= j < i ==> #[trigger] buf@[j] == byte_at(content, self.pos + j),
                        forall|j: int| i <= j < old_buf.len() ==> #[trigger] buf@[j] == old_buf[j],
                    decreases len - i,
                {
                    proof {
                        let a = self.pos + i;
                        assert(a / 4096 == block_idx) by (nonlinear_arith)
                            requires
                                a == self.pos + i,
                                offset == self.pos % 4096,
                                block_idx == self.pos / 4096,
                                i < 4096 - offset,
                        ;
                    }
                    buf[i] = 0;
                    i = i + 1;
                }
            },
        }
        self.pos = self.pos + len as u64;
        assert(self.blocks@ == old(self).blocks@);
        len
    }

    /// Writes the front of `buf` at the cursor, at most up to the end of the
    /// current block (the disk's size is no limit); advances the cursor by
    /// the count written.
    pub fn write(&mut self, buf: &[u8]) -> (n: usize)
        requires
            buf@.len() == 0 || block_room(
                old(self).content(),
                old(self).cursor(),
                write_len(old(self).cursor(), buf@.len() as int),
            ),
            buf@.len() == 0 || old(self).cursor() + write_len(
                old(self).cursor(),
                buf@.len() as int,
            ) <= u64::MAX,
        ensures
            old(self).wf() ==> final(self).wf(),
            final(self).capacity() == old(self).capacity(),
            n == (if buf@.len() == 0 {
                0
            } else {
                write_len(old(self).cursor(), buf@.len() as int)
            }),
            final(self).cursor() == old(self).cursor() + n,
            final(self).content() == written_content(old(self).content(), old(self).cursor(), buf@),
    {
        if buf.len() == 0 {
            return 0;
        }
        let block_idx = self.pos / BLOCK_SIZE;
        let offset = (self.pos % BLOCK_SIZE) as usize;
        let mut len: usize = buf.len();
        let room: usize = 4096 - offset;
        if room < len {
            len = room;
        }
        let ghost old_content = self.content();
        let ghost base: Seq<u8> = if old_content.contains_key(block_idx) {
            old_content[block_idx]
        } else {
            Seq::new(4096, |i: int| 0u8)
        };
        let mut block: Vec<u8> = match self.blocks.remove(&block_idx) {
            Some(b) => b,
            None => {
                let z = vec![0u8; 4096];
                assert(z@ =~= Seq::new(4096, |i: int| 0u8));
                z
            },
        };
        assert(block@ == base);
        assert(self.content() == old_content.remove(block_idx)) by {
            assert(self.content() =~= old_content.remove(block_idx));
        }
        let mut i: usize = 0;
        while i < len
            invariant
                i <= len,
                len <= 4096 - offset,
                len <= buf@.len(),
                base.len() >= offset + len,
                block@.len() == base.len(),
                block@ =~= base.subrange(0, offset as int) + buf@.subrange(0, i as int)
                    + base.subrange(offset + i, base.len() as int),
            decreases len - i,
        {
            block.set(offset + i, buf[i]);
            i = i + 1;
            assert(block@ =~= base.subrange(0, offset as int) + buf@.subrange(0, i as int)
                + base.subrange(offset + i, base.len() as int));
        }
        self.blocks.insert(block_idx, block);
        self.pos = self.pos + len as u64;
        assert(self.content() =~= written_content(old_content, old(self).pos, buf@));
        len
    }

    /// The non-zero bytes of the stored blocks, one chunk per block that is
    /// not all zero, trimmed of leading and trailing zeros, in block order.
    pub fn nonzero_chunks(&self) -> (r: Vec<Chunk>)
        requires
            self.wf(),
        ensures
            chunks_describe(self.content(), r@),
            chunks_reproduce(self.content(), r@),
    {
        let ghost content = self.content();
        proof {
            lemma_u64_keys_follow_ord();
        }
        let iter = self.blocks.iter();
        let ghost s = iter.remaining();
        proof {
            lemma_block_keys_sorted(s);
        }
        let mut chunks: Vec<Chunk> = Vec::new();
        let ghost mut src: Seq<int> = Seq::empty();
        for kv in it: iter
            invariant
                content == self.content(),
                self.wf(),
                it.seq() == s,
                forall|i: int, j: int| 0 <= i < j < s.len() ==> *s[i].0 < *s[j].0,
                forall|t: int| 0 <= t < s.len() ==> #[trigger] self.blocks@.contains_key(*s[t].0) && self.blocks@[*s[t].0] == *s[t].1,
                forall|i: int|
                    0 <= i < chunks@.len() ==> is_block_chunk(content, #[trigger] chunks@[i].offset, chunks@[i].data@),
                forall|i: int, j: int|
                    0 <= i < j < chunks@.len() ==> #[trigger] chunks@[i].offset / 4096 < #[trigger] chunks@[j].offset / 4096,
                src.len() == chunks@.len(),
                forall|i: int|
                    0 <= i < chunks@.len() ==> 0 <= #[trigger] src[i] < it.index() && *s[src[i]].0 == chunks@[i].offset / 4096,
                forall|t: int|
                    0 <= t < it.index() && #[trigger] has_nonzero(content[*s[t].0]) ==> exists|i: int|
                        0 <= i < chunks@.len() && #[trigger] (chunks@[i].offset / 4096) == *s[t].0,
        {
            let ghost t0 = it.index();
            let ghost n0 = chunks@.len();
            let ghost before = chunks@;
            let (k, block) = kv;
            assert(kv == s[t0]);
            assert(self.blocks@.contains_key(*k));
            assert(content[*k] == block@);
            match trimmed_span(block) {
                Some((st, e)) => {
                    let data = copy_span(block, st, e);
                    assert(*k <= max_block_index());
                    let offset = *k * 4096 + st as u64;
                    assert(offset / 4096 == *k && offset % 4096 == st) by (nonlinear_arith)
                        requires
                            offset == *k * 4096 + st,
                            st < 4096,
                    ;
                    chunks.push(Chunk { offset, data });
                    proof {
                        assert(chunks@[n0 as int].offset == offset);
                        assert(is_block_chunk(content, chunks@[n0 as int].offset, chunks@[n0 as int].data@));
                        assert forall|i: int| 0 <= i < n0 implies #[trigger] (chunks@[i].offset / 4096) < *k by {
                            assert(*s[src[i]].0 < *s[t0].0);
                        }
                        src = src.push(t0);
                        assert forall|t: int|
                            0 <= t < t0 + 1 && #[trigger] has_nonzero(content[*s[t].0]) implies exists|i: int|
                                0 <= i < chunks@.len() && #[trigger] (chunks@[i].offset / 4096) == *s[t].0 by {
                            if t == t0 {
                                assert(chunks@[n0 as int].offset / 4096 == *s[t].0);
                            } else {
                                let i = choose|i: int| 0 <= i < n0 && #[trigger] (before[i].offset / 4096) == *s[t].0;
                                assert(chunks@[i] == before[i]);
                            }
                        }
                    }
                },
                None => {
                    proof {
                        assert forall|t: int|
                            0 <= t < t0 + 1 && #[trigger] has_nonzero(content[*s[t].0]) implies exists|i: int|
                                0 <= i < chunks@.len() && #[trigger] (chunks@[i].offset / 4096) == *s[t].0 by {
                            assert(t != t0);
                        }
                    }
                },
            }
        }
        proof {
            assert forall|kk: u64| #[trigger] content.contains_key(kk) && has_nonzero(content[kk]) implies exists|i: int|
                0 <= i < chunks@.len() && #[trigger] (chunks@[i].offset / 4096) == kk by {
                assert(self.blocks@.contains_key(kk));
                assert(s.contains((&kk, &self.blocks@[kk])));
                let t = choose|t: int| 0 <= t < s.len() && s[t] == (&kk, &self.blocks@[kk]);
                assert(*s[t].0 == kk);
            }
        }
        proof {
            lemma_chunks_reproduce_disk(content, chunks@);
        }
        chunks
    }

    /// Nothing is buffered, so flushing changes nothing.
    pub fn flush(&mut self)
        ensures
            final(self).wf() == old(self).wf(),
            final(self).content() == old(self).content(),
            final(self).cursor() == old(self).cursor(),
            final(self).capacity() == old(self).capacity(),
    {
    }

    /// Moves the cursor and returns its new place.
    pub fn seek(&mut self, target: SeekFrom) -> (r: u64)
        requires
            seek_in_range(old(self).cursor(), old(self).capacity(), target),
        ensures
            final(self).wf() == old(self).wf(),
            r == seek_target(old(self).cursor(), old(self).capacity(), target),
            final(self).cursor() == r,
            final(self).content() == old(self).content(),
            final(self).capacity() == old(self).capacity(),
    {
        self.pos = match target {
            SeekFrom::Start(p) => p,
            SeekFrom::End(p) => {
                let s: i64 = #[verifier::truncate] (self.size as i64);
                #[verifier::truncate] ((s + p) as u64)
            },
            SeekFrom::Current(p) => {
                let c: i64 = #[verifier::truncate] (self.pos as i64);
                #[verifier::truncate] ((c + p) as u64)
            },
        };
        assert(self.blocks@ == old(self).blocks@);
        self.pos
    }
}

} // verus!
