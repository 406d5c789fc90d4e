//! Physical frame allocation and the 4-level page-table walk.
//!
//! The firmware hands the kernel a list of physical memory regions at boot;
//! the frame allocator walks the usable regions lazily and hands out each
//! 4 KiB frame at most once, driven by a cursor, never by mutating the map.
//! The page-table hierarchy is held as an owned tree whose leaves carry the
//! mapped physical frames; mapping and translation are ordinary verified
//! walks over that tree. The machine registers that point at the real tables
//! (the root-table register, the physical-memory offset) are trusted boot
//! input handled at the hardware edge.

use vstd::prelude::*;

verus! {

/// Size in bytes of a physical frame and of a virtual page.
pub const PAGE_SIZE: u64 = 4096;

/// Classification of a firmware-reported physical memory region. Only
/// regions tagged usable may back new mappings; everything else belongs to
/// firmware structures or the boot image.
#[derive(Debug, Clone, Copy, PartialEq, Eq, Structural)]
pub enum MemoryRegionType {
    Usable,
    InUse,
    Reserved,
}

/// One physical memory region: the half-open byte range `[start, end)`.
#[derive(Debug, Clone, Copy, PartialEq, Eq, Structural)]
pub struct MemoryRegion {
    pub start: u64,
    pub end: u64,
    pub region_type: MemoryRegionType,
}

/// A well-formed region is frame-aligned at both ends and non-empty or empty
/// but never reversed.
pub open spec fn spec_region_wf(r: MemoryRegion) -> bool {
    &&& r.start % PAGE_SIZE == 0
    &&& r.end % PAGE_SIZE == 0
    &&& r.start <= r.end
}

/// Number of whole frames in a region.
pub open spec fn spec_region_frame_count(r: MemoryRegion) -> int {
    (r.end - r.start) / (PAGE_SIZE as int)
}

/// The frame start addresses of one region, in increasing order.
pub open spec fn spec_region_frames(r: MemoryRegion) -> Seq<u64> {
    Seq::new(spec_region_frame_count(r) as nat, |i: int| (r.start + i * PAGE_SIZE) as u64)
}

/// The frames contributed by the first `n` regions: frames of every usable
/// region, in map order, skipping regions not tagged usable.
pub open spec fn spec_usable_frames_prefix(regions: Seq<MemoryRegion>, n: int) -> Seq<u64>
    decreases n,
{
    if n <= 0 {
        Seq::empty()
    } else {
        spec_usable_frames_prefix(regions, n - 1) + (if regions[n - 1].region_type
            is Usable {
            spec_region_frames(regions[n - 1])
        } else {
            Seq::empty()
        })
    }
}

/// The full lazy sequence of usable frames described by a memory map.
pub open spec fn spec_usable_frames(regions: Seq<MemoryRegion>) -> Seq<u64> {
    spec_usable_frames_prefix(regions, regions.len() as int)
}

/// A well-formed memory map: every region well formed, regions ordered and
/// disjoint as firmware reports them, and few enough frames that the
/// allocation cursor can address each one.
pub open spec fn spec_map_wf(regions: Seq<MemoryRegion>) -> bool {
    &&& forall|i: int| 0 <= i < regions.len() ==> spec_region_wf(#[trigger] regions[i])
    &&& forall|i: int, j: int|
        0 <= i < j < regions.len() ==> #[trigger] regions[i].end <= #[trigger] regions[j].start
    &&& spec_usable_frames(regions).len() <= usize::MAX
}

/// Each frame of a well-formed region lies wholly inside the region and is
/// frame-aligned.
proof fn lemma_region_frame_in_bounds(r: MemoryRegion, k: int)
    requires
        spec_region_wf(r),
        0 <= k < spec_region_frame_count(r),
    ensures
        r.start + k * PAGE_SIZE + PAGE_SIZE <= r.end,
        (r.start + k * PAGE_SIZE) % (PAGE_SIZE as int) == 0,
        spec_region_frames(r)[k] == r.start + k * PAGE_SIZE,
{
    let d = r.end - r.start;
    assert(d % 4096 == 0) by (nonlinear_arith)
        requires
            r.start % 4096 == 0,
            r.end % 4096 == 0,
            d == r.end - r.start,
            r.start <= r.end,
    ;
    assert(k * 4096 + 4096 <= d) by (nonlinear_arith)
        requires
            0 <= k < d / 4096,
            d % 4096 == 0,
            d >= 0,
    ;
    assert((r.start + k * 4096) % 4096 == 0) by (nonlinear_arith)
        requires
            r.start % 4096 == 0,
            k >= 0,
    ;
    assert(r.start + k * PAGE_SIZE <= u64::MAX);
}

/// The prefix sequences extend one another: a frame listed after `i` regions
/// keeps its position after more regions are taken in.
proof fn lemma_prefix_extends(regions: Seq<MemoryRegion>, i: int, n: int)
    requires
        0 <= i <= n,
    ensures
        spec_usable_frames_prefix(regions, i).len() <= spec_usable_frames_prefix(
            regions,
            n,
        ).len(),
        forall|k: int|
            0 <= k < spec_usable_frames_prefix(regions, i).len() ==> spec_usable_frames_prefix(
                regions,
                n,
            )[k] == spec_usable_frames_prefix(regions, i)[k],
    decreases n - i,
{
    if i < n {
        lemma_prefix_extends(regions, i, n - 1);
    }
}

/// Every frame of a well-formed map's prefix is aligned, lies inside a
/// usable region already taken in, and is strictly larger than every frame
/// listed before it; frames of regions not yet taken in lie strictly above.
proof fn lemma_prefix_props(regions: Seq<MemoryRegion>, n: int)
    requires
        spec_map_wf(regions),
        0 <= n <= regions.len(),
    ensures
        forall|a: int, b: int|
            0 <= a < b < spec_usable_frames_prefix(regions, n).len()
                ==> #[trigger] spec_usable_frames_prefix(regions, n)[a]
                < #[trigger] spec_usable_frames_prefix(regions, n)[b],
        forall|k: int|
            0 <= k < spec_usable_frames_prefix(regions, n).len() ==> (
            #[trigger] spec_usable_frames_prefix(regions, n)[k]) % PAGE_SIZE == 0,
        forall|k: int|
            0 <= k < spec_usable_frames_prefix(regions, n).len() ==> exists|m: int|
                0 <= m < n && regions[m].region_type is Usable && regions[m].start
                    <= #[trigger] spec_usable_frames_prefix(regions, n)[k]
                    && spec_usable_frames_prefix(regions, n)[k] + PAGE_SIZE <= regions[m].end,
        forall|k: int, j: int|
            0 <= k < spec_usable_frames_prefix(regions, n).len() && n <= j < regions.len()
                ==> #[trigger] spec_usable_frames_prefix(regions, n)[k] < (#[trigger] regions[j]).start
                    + PAGE_SIZE,
    decreases n,
{
    if n > 0 {
        lemma_prefix_props(regions, n - 1);
        let prev = spec_usable_frames_prefix(regions, n - 1);
        let cur = spec_usable_frames_prefix(regions, n);
        let r = regions[n - 1];
        if r.region_type is Usable {
            assert forall|k: int| prev.len() <= k < cur.len() implies {
                &&& cur[k] == r.start + (k - prev.len()) * PAGE_SIZE
                &&& cur[k] % PAGE_SIZE == 0
                &&& r.start <= cur[k]
                &&& cur[k] + PAGE_SIZE <= r.end
            } by {
                lemma_region_frame_in_bounds(r, k - prev.len());
            }
            assert forall|k: int| 0 <= k < cur.len() implies exists|m: int|
                0 <= m < n && regions[m].region_type is Usable && regions[m].start
                    <= #[trigger] cur[k] && cur[k] + PAGE_SIZE <= regions[m].end by {
                if k < prev.len() {
                    let m = choose|m: int|
                        0 <= m < n - 1 && regions[m].region_type is Usable && regions[m].start
                            <= prev[k] && prev[k] + PAGE_SIZE <= regions[m].end;
                    assert(regions[m].start <= cur[k] && cur[k] + PAGE_SIZE <= regions[m].end);
                } else {
                    assert(r.start <= cur[k] && cur[k] + PAGE_SIZE <= r.end);
                    assert(regions[n - 1].region_type is Usable);
                }
            }
            assert forall|a: int, b: int| 0 <= a < b < cur.len() implies #[trigger] cur[a]
                < #[trigger] cur[b] by {
                if b < prev.len() {
                } else if a >= prev.len() {
                    assert(cur[a] == r.start + (a - prev.len()) * PAGE_SIZE);
                    assert(cur[b] == r.start + (b - prev.len()) * PAGE_SIZE);
                } else {
                    assert(cur[a] == prev[a]);
                    assert(prev[a] < regions[n - 1].start + PAGE_SIZE);
                    lemma_region_frame_in_bounds(r, b - prev.len());
                    assert(cur[a] % PAGE_SIZE == 0 && r.start % PAGE_SIZE == 0);
                    assert(cur[a] < r.start + PAGE_SIZE && cur[a] % PAGE_SIZE == 0 && r.start
                        % PAGE_SIZE == 0 ==> cur[a] <= r.start) by (nonlinear_arith);
                    assert(cur[a] <= r.start);
                    assert(r.start <= cur[b]);
                    assert(cur[a] < cur[b]) by {
                        assert(cur[b] >= r.start + 0 * PAGE_SIZE);
                        assert(cur[a] < r.start + PAGE_SIZE);
                        assert(cur[a] <= r.start);
                        assert(cur[b] == r.start + (b - prev.len()) * PAGE_SIZE);
                        assert((b - prev.len()) * PAGE_SIZE >= 0) by (nonlinear_arith)
                            requires
                                b >= prev.len(),
                        ;
                        if cur[a] == cur[b] {
                            assert(r.start <= cur[b] && cur[b] <= r.start);
                            assert((b - prev.len()) * PAGE_SIZE == 0);
                            assert(cur[b] + PAGE_SIZE <= r.end);
                            assert(prev[a] < regions[n - 1].start + PAGE_SIZE);
                        }
                    }
                }
            }
            assert forall|k: int, j: int|
                0 <= k < cur.len() && n <= j < regions.len() implies #[trigger] cur[k]
                < (#[trigger] regions[j]).start + PAGE_SIZE by {
                if k < prev.len() {
                    assert(cur[k] == prev[k]);
                    assert(prev[k] < regions[n - 1].start + PAGE_SIZE);
                    assert(regions[n - 1].end <= regions[j].start);
                    assert(regions[n - 1].start <= regions[n - 1].end);
                } else {
                    assert(cur[k] + PAGE_SIZE <= r.end);
                    assert(r.end <= regions[j].start);
                }
            }
        }
    }
}

/// Frames handed out by a well-formed map are strictly increasing in the
/// order they are listed: no frame is ever listed twice.
pub proof fn lemma_usable_frames_increasing(regions: Seq<MemoryRegion>, a: int, b: int)
    requires
        spec_map_wf(regions),
        0 <= a < b < spec_usable_frames(regions).len(),
    ensures
        spec_usable_frames(regions)[a] < spec_usable_frames(regions)[b],
{
    lemma_prefix_props(regions, regions.len() as int);
}

/// Frames at distinct positions of the usable sequence are distinct: the
/// allocator never yields the same frame twice.
pub proof fn lemma_usable_frames_distinct(regions: Seq<MemoryRegion>, a: int, b: int)
    requires
        spec_map_wf(regions),
        0 <= a < spec_usable_frames(regions).len(),
        0 <= b < spec_usable_frames(regions).len(),
        a != b,
    ensures
        spec_usable_frames(regions)[a] != spec_usable_frames(regions)[b],
{
    if a < b {
        lemma_usable_frames_increasing(regions, a, b);
    } else {
        lemma_usable_frames_increasing(regions, b, a);
    }
}

/// Every frame the allocator can yield is frame-aligned and lies wholly
/// within a region tagged usable.
pub proof fn lemma_usable_frame_in_usable_region(regions: Seq<MemoryRegion>, k: int)
    requires
        spec_map_wf(regions),
        0 <= k < spec_usable_frames(regions).len(),
    ensures
        spec_usable_frames(regions)[k] % PAGE_SIZE == 0,
        exists|m: int|
            0 <= m < regions.len() && regions[m].region_type is Usable && regions[m].start
                <= spec_usable_frames(regions)[k] && spec_usable_frames(regions)[k] + PAGE_SIZE
                <= regions[m].end,
{
    lemma_prefix_props(regions, regions.len() as int);
}

/// The usable-frame sequence is also complete: every whole frame of every
/// region tagged usable appears in it, so when a map holds `n` usable
/// frames, `n` distinct allocations are possible, and nothing outside the
/// usable regions is ever offered.
pub proof fn lemma_usable_frames_complete(regions: Seq<MemoryRegion>, m: int, k: int)
    requires
        spec_map_wf(regions),
        0 <= m < regions.len(),
        regions[m].region_type is Usable,
        0 <= k < spec_region_frame_count(regions[m]),
    ensures
        exists|i: int|
            0 <= i < spec_usable_frames(regions).len() && #[trigger] spec_usable_frames(regions)[i]
                == regions[m].start + k * PAGE_SIZE,
{
    let pos = spec_usable_frames_prefix(regions, m).len() + k;
    lemma_region_frame_in_bounds(regions[m], k);
    assert(spec_usable_frames_prefix(regions, m + 1)[pos] == spec_region_frames(regions[m])[k]);
    lemma_prefix_extends(regions, m + 1, regions.len() as int);
    assert(spec_usable_frames(regions)[pos] == regions[m].start + k * PAGE_SIZE);
    assert(0 <= pos < spec_usable_frames(regions).len());
}

/// A frame allocator that always reports exhaustion; usable before the boot
/// memory map is available.
pub struct EmptyFrameAllocator;

impl EmptyFrameAllocator {
    /// The empty allocator has no frames to hand out.
    pub fn allocate_frame(&mut self) -> (r: Option<u64>)
        ensures
            r is None,
    {
        None
    }
}

/// The boot-time frame allocator: hands out the usable frames of the
/// firmware memory map in order, tracked by a cursor over the filtered
/// region list, never by mutating the map itself.
pub struct BootInfoFrameAllocator {
    pub memory_map: Vec<MemoryRegion>,
    pub next: usize,
}

impl BootInfoFrameAllocator {
    pub open spec fn wf(self) -> bool {
        spec_map_wf(self.memory_map@)
    }

    /// The frames this allocator has not yet handed out, in the order it
    /// will hand them out.
    pub open spec fn avail(self) -> Seq<u64> {
        let frames = spec_usable_frames(self.memory_map@);
        if self.next <= frames.len() {
            frames.skip(self.next as int)
        } else {
            Seq::empty()
        }
    }

    /// Create a frame allocator from the firmware memory map. The caller
    /// vouches for the map: the regions it tags usable are really unused.
    pub fn init(memory_map: Vec<MemoryRegion>) -> (a: BootInfoFrameAllocator)
        requires
            spec_map_wf(memory_map@),
        ensures
            a.wf(),
            a.memory_map@ == memory_map@,
            a.next == 0,
            a.avail() == spec_usable_frames(memory_map@),
    {
        let a = BootInfoFrameAllocator { memory_map, next: 0 };
        proof {
            assert(a.avail() =~= spec_usable_frames(a.memory_map@));
        }
        a
    }

    /// The `n`-th frame of the usable-frame sequence, if the map holds that
    /// many.
    fn usable_frames(&self, n: usize) -> (r: Option<u64>)
        requires
            self.wf(),
        ensures
            n < spec_usable_frames(self.memory_map@).len() ==> r == Some(
                spec_usable_frames(self.memory_map@)[n as int],
            ),
            n >= spec_usable_frames(self.memory_map@).len() ==> r is None,
    {
        let regions = &self.memory_map;
        let ghost all = spec_usable_frames(regions@);
        let mut i: usize = 0;
        let mut rem: u64 = n as u64;
        while i < regions.len()
            invariant
                self.wf(),
                regions == self.memory_map,
                all == spec_usable_frames(regions@),
                0 <= i <= regions.len(),
                spec_usable_frames_prefix(regions@, i as int).len() <= n,
                rem == n - spec_usable_frames_prefix(regions@, i as int).len(),
            decreases regions.len() - i,
        {
            let r = *regions.get(i).unwrap();
            let ghost prev = spec_usable_frames_prefix(regions@, i as int);
            let ghost cur = spec_usable_frames_prefix(regions@, i + 1);
            match r.region_type {
                MemoryRegionType::Usable => {
                    let count: u64 = (r.end - r.start) / PAGE_SIZE;
                    if rem < count {
                        proof {
                            lemma_region_frame_in_bounds(r, rem as int);
                            assert(cur[n as int] == spec_region_frames(r)[rem as int]);
                            lemma_prefix_extends(regions@, i + 1, regions@.len() as int);
                            assert(all[n as int] == cur[n as int]);
                        }
                        return Some(r.start + rem * PAGE_SIZE);
                    }
                    rem = rem - count;
                },
                MemoryRegionType::InUse => {
                    assert(cur =~= prev);
                },
                MemoryRegionType::Reserved => {
                    assert(cur =~= prev);
                },
            }
            i = i + 1;
        }
        proof {
            assert(spec_usable_frames_prefix(regions@, i as int) == all);
        }
        None
    }

    /// Hand out the next usable frame, or report exhaustion. Each call
    /// advances the cursor, so no frame is ever handed out twice.
    pub fn allocate_frame(&mut self) -> (r: Option<u64>)
        requires
            old(self).wf(),
        ensures
            final(self).wf(),
            final(self).memory_map@ == old(self).memory_map@,
            old(self).avail().len() > 0 ==> r == Some(old(self).avail()[0]) && final(self).avail()
                =~= old(self).avail().drop_first(),
            old(self).avail().len() == 0 ==> r is None && final(self).avail().len() == 0,
    {
        let frame = self.usable_frames(self.next);
        if self.next < usize::MAX {
            self.next = self.next + 1;
        }
        proof {
            let frames = spec_usable_frames(self.memory_map@);
            if old(self).avail().len() > 0 {
                assert(old(self).next < frames.len());
                assert(old(self).avail()[0] == frames[old(self).next as int]);
                assert(final(self).avail() =~= old(self).avail().drop_first());
            }
        }
        frame
    }
}



/// Page-table entry flags used by this kernel's mappings.
pub const FLAG_PRESENT: u64 = 1;
pub const FLAG_WRITABLE: u64 = 2;

/// Physical frame of the character-cell display buffer.
pub const VGA_FRAME: u64 = 0xb8000;

/// One entry of a page table: absent, a pointer to the next-level table
/// (recording the physical frame that backs that table), or a mapped frame
/// with its permission flags. A frame entry above the leaf level would be a
/// huge-page mapping, which this kernel never creates.
pub enum PageTableEntry {
    Empty,
    Table { backing: u64, next: Box<PageTable> },
    Frame { frame: u64, flags: u64 },
}

/// One level of the 4-level page-table hierarchy, owned by the kernel.
pub struct PageTable {
    pub entries: Vec<PageTableEntry>,
}

/// The 9-bit index a virtual address selects at each level of the walk.
pub open spec fn spec_l_index(addr: u64, level: int) -> u64 {
    if level == 1 {
        (addr >> 12) & 0x1ff
    } else if level == 2 {
        (addr >> 21) & 0x1ff
    } else if level == 3 {
        (addr >> 30) & 0x1ff
    } else {
        (addr >> 39) & 0x1ff
    }
}

pub proof fn lemma_l_index_bounds(addr: u64)
    ensures
        forall|l: int| spec_l_index(addr, l) < 512,
{
    assert((addr >> 12) & 0x1ff < 512 && (addr >> 21) & 0x1ff < 512 && (addr >> 30) & 0x1ff < 512
        && (addr >> 39) & 0x1ff < 512) by (bit_vector);
}

/// Well-formedness of a table at a given level: full 512-entry tables all
/// the way down, frames only at the leaf level (no huge pages), and every
/// mapped frame aligned.
pub open spec fn spec_table_wf(t: PageTable, level: int) -> bool
    decreases level, 1int,
{
    &&& t.entries@.len() == 512
    &&& forall|i: int| 0 <= i < 512 ==> spec_entry_wf(#[trigger] t.entries@[i], level)
}

pub open spec fn spec_entry_wf(e: PageTableEntry, level: int) -> bool
    decreases level, 0int,
{
    match e {
        PageTableEntry::Empty => true,
        PageTableEntry::Frame { frame, flags } => level == 1 && frame % PAGE_SIZE == 0,
        PageTableEntry::Table { backing, next } => level > 1 && spec_table_wf(*next, level - 1),
    }
}

/// The leaf a virtual address reaches after walking down from `level` —
/// the mapped frame together with its permission flags — or nothing if the
/// walk hits an absent entry.
pub open spec fn spec_translate_rec(t: PageTable, level: int, addr: u64) -> Option<(u64, u64)>
    decreases level,
{
    match t.entries@[spec_l_index(addr, level) as int] {
        PageTableEntry::Empty => None,
        PageTableEntry::Frame { frame, flags } => if level == 1 {
            Some((frame, flags))
        } else {
            None
        },
        PageTableEntry::Table { backing, next } => if level <= 1 {
            None
        } else {
            spec_translate_rec(*next, level - 1, addr)
        },
    }
}

/// The mapped frame alone, for statements that do not need the flags.
pub open spec fn spec_translate_frame(t: PageTable, level: int, addr: u64) -> Option<u64> {
    match spec_translate_rec(t, level, addr) {
        Some(p) => Some(p.0),
        None => None,
    }
}

/// How many intermediate tables are missing on the walk for `addr`: once an
/// absent entry is hit above the leaf, one fresh table is needed for every
/// remaining level.
pub open spec fn spec_missing_tables(t: PageTable, level: int, addr: u64) -> int
    decreases level,
{
    if level <= 1 {
        0
    } else {
        match t.entries@[spec_l_index(addr, level) as int] {
            PageTableEntry::Empty => level - 1,
            PageTableEntry::Frame { frame, flags } => 0,
            PageTableEntry::Table { backing, next } => spec_missing_tables(*next, level - 1, addr),
        }
    }
}

/// Missing-table counts are bounded by the walk depth.
pub proof fn lemma_missing_tables_bounds(t: PageTable, level: int, addr: u64)
    requires
        1 <= level,
    ensures
        0 <= spec_missing_tables(t, level, addr) <= level - 1,
    decreases level,
{
    if level > 1 {
        match t.entries@[spec_l_index(addr, level) as int] {
            PageTableEntry::Table { backing, next } => {
                lemma_missing_tables_bounds(*next, level - 1, addr);
            },
            _ => {},
        }
    }
}

/// Two addresses walk the same entries down to the leaf iff they select the
/// same index at every level.
pub open spec fn spec_same_path(a: u64, b: u64, level: int) -> bool {
    forall|l: int| 1 <= l <= level ==> spec_l_index(a, l) == spec_l_index(b, l)
}

/// The walk reads only the per-level indices, so addresses on the same path
/// translate alike and need the same missing tables.
pub proof fn lemma_translate_same_path(t: PageTable, level: int, a: u64, b: u64)
    requires
        spec_same_path(a, b, level),
        1 <= level,
    ensures
        spec_translate_rec(t, level, a) == spec_translate_rec(t, level, b),
        spec_missing_tables(t, level, a) == spec_missing_tables(t, level, b),
    decreases level,
{
    assert(spec_l_index(a, level) == spec_l_index(b, level));
    if level > 1 {
        match t.entries@[spec_l_index(a, level) as int] {
            PageTableEntry::Table { backing, next } => {
                lemma_translate_same_path(*next, level - 1, a, b);
            },
            _ => {},
        }
    }
}

impl PageTable {
    /// An all-empty page table: nothing mapped through it at any level.
    pub fn new_empty() -> (t: PageTable)
        ensures
            t.entries@.len() == 512,
            forall|i: int| 0 <= i < 512 ==> (#[trigger] t.entries@[i]) is Empty,
            forall|l: int| 1 <= l ==> spec_table_wf(t, l),
    {
        let mut entries: Vec<PageTableEntry> = Vec::new();
        let mut i: usize = 0;
        while i < 512
            invariant
                i <= 512,
                entries@.len() == i,
                forall|j: int| 0 <= j < i ==> (#[trigger] entries@[j]) is Empty,
            decreases 512 - i,
        {
            entries.push(PageTableEntry::Empty);
            i = i + 1;
        }
        let t = PageTable { entries };
        proof {
            assert forall|l: int| 1 <= l implies spec_table_wf(t, l) by {
                assert(forall|i: int|
                    0 <= i < 512 ==> spec_entry_wf(#[trigger] t.entries@[i], l));
            }
        }
        t
    }
}

/// Frames reached by a well-formed walk are frame-aligned.
pub proof fn lemma_translate_frame_aligned(t: PageTable, level: int, addr: u64)
    requires
        spec_table_wf(t, level),
        1 <= level,
    ensures
        spec_translate_rec(t, level, addr) matches Some(p) ==> p.0 % PAGE_SIZE == 0,
    decreases level,
{
    lemma_l_index_bounds(addr);
    match t.entries@[spec_l_index(addr, level) as int] {
        PageTableEntry::Table { backing, next } => {
            if level > 1 {
                lemma_translate_frame_aligned(*next, level - 1, addr);
            }
        },
        _ => {},
    }
}

/// The per-level index of a virtual address.
fn index_of(addr: u64, level: usize) -> (r: u64)
    requires
        1 <= level <= 4,
    ensures
        r == spec_l_index(addr, level as int),
        r < 512,
{
    proof {
        lemma_l_index_bounds(addr);
    }
    if level == 1 {
        (addr >> 12) & 0x1ff
    } else if level == 2 {
        (addr >> 21) & 0x1ff
    } else if level == 3 {
        (addr >> 30) & 0x1ff
    } else {
        (addr >> 39) & 0x1ff
    }
}

/// Tables with equal entry sequences behave alike under every walk.
proof fn lemma_table_view_eq(t1: PageTable, t2: PageTable, level: int)
    requires
        t1.entries@ =~= t2.entries@,
    ensures
        forall|a: u64| #[trigger] spec_translate_rec(t1, level, a) == spec_translate_rec(
            t2,
            level,
            a,
        ),
        forall|a: u64| #[trigger] spec_missing_tables(t1, level, a) == spec_missing_tables(
            t2,
            level,
            a,
        ),
        spec_table_wf(t1, level) == spec_table_wf(t2, level),
{
}

/// Why a mapping request failed: the frame allocator ran dry while creating
/// an intermediate table, the walk met a huge-page entry, or the page is
/// already mapped and remapping is a fatal error.
#[derive(Debug, Clone, Copy, PartialEq, Eq, Structural)]
pub enum MapToError {
    FrameAllocationFailed,
    ParentEntryHugePage,
    PageAlreadyMapped,
}

/// Walk down from `level`, creating missing intermediate tables from the
/// frame allocator, and install `frame` at the leaf for `vaddr`.
fn map_rec(
    table: &mut PageTable,
    level: usize,
    vaddr: u64,
    frame: u64,
    flags: u64,
    allocator: &mut BootInfoFrameAllocator,
) -> (r: Result<(), MapToError>)
    requires
        1 <= level <= 4,
        spec_table_wf(*old(table), level as int),
        old(allocator).wf(),
        frame % PAGE_SIZE == 0,
    ensures
        final(allocator).wf(),
        final(allocator).memory_map@ == old(allocator).memory_map@,
        spec_table_wf(*final(table), level as int),
        forall|a: u64|
            !spec_same_path(a, vaddr, level as int) ==> spec_translate_rec(
                *final(table),
                level as int,
                a,
            ) == spec_translate_rec(*old(table), level as int, a),
        r is Ok <==> (spec_translate_rec(*old(table), level as int, vaddr) is None && old(allocator).avail().len() >= spec_missing_tables(*old(table), level as int, vaddr)),
        r is Ok ==> spec_translate_rec(*final(table), level as int, vaddr) == Some(
            (frame, flags),
        ) && final(allocator).avail() == old(allocator).avail().skip(
            spec_missing_tables(*old(table), level as int, vaddr),
        ),
        spec_translate_rec(*old(table), level as int, vaddr) is Some ==> r == Err::<(), MapToError>(
            MapToError::PageAlreadyMapped,
        ),
        r == Err::<(), MapToError>(MapToError::PageAlreadyMapped) ==> spec_translate_rec(
            *old(table),
            level as int,
            vaddr,
        ) is Some,
        r == Err::<(), MapToError>(MapToError::PageAlreadyMapped) ==> (forall|a: u64|
            spec_translate_rec(*final(table), level as int, a) == spec_translate_rec(
                *old(table),
                level as int,
                a,
            )) && final(allocator).avail() == old(allocator).avail(),
        r == Err::<(), MapToError>(MapToError::FrameAllocationFailed) ==> spec_translate_rec(
            *final(table),
            level as int,
            vaddr,
        ) is None && final(allocator).avail().len() == 0,
        !(r == Err::<(), MapToError>(MapToError::ParentEntryHugePage)),
    decreases level,
{
    proof {
        lemma_l_index_bounds(vaddr);
    }
    let idx: usize = index_of(vaddr, level) as usize;
    if level == 1 {
        let already = match table.entries.get(idx) {
            Some(PageTableEntry::Empty) => false,
            _ => true,
        };
        if already {
            proof {
                assert(spec_entry_wf(table.entries@[idx as int], 1));
            }
            return Err(MapToError::PageAlreadyMapped);
        }
        table.entries.set(idx, PageTableEntry::Frame { frame, flags });
        proof {
            assert forall|a: u64| !spec_same_path(a, vaddr, level as int) implies spec_translate_rec(
                *table,
                level as int,
                a,
            ) == spec_translate_rec(*old(table), level as int, a) by {
                lemma_l_index_bounds(a);
                let l = choose|l: int|
                    1 <= l <= level && spec_l_index(a, l) != spec_l_index(vaddr, l);
                assert(spec_l_index(a, 1) != spec_l_index(vaddr, 1));
            }
        }
        Ok(())
    } else {
        let ghost old_t = *old(table);
        let ghost gidx = idx as int;
        let entry = table.entries.remove(idx);
        match entry {
            PageTableEntry::Empty => {
                match allocator.allocate_frame() {
                    None => {
                        table.entries.insert(idx, PageTableEntry::Empty);
                        proof {
                            assert(table.entries@ =~= old_t.entries@);
                            lemma_table_view_eq(*table, old_t, level as int);
                        }
                        Err(MapToError::FrameAllocationFailed)
                    },
                    Some(backing) => {
                        let mut child = PageTable::new_empty();
                        proof {
                            assert forall|a: u64| #[trigger] spec_translate_rec(
                                child,
                                (level - 1) as int,
                                a,
                            ) is None by {
                                lemma_l_index_bounds(a);
                            }
                            assert forall|a: u64| #[trigger] spec_missing_tables(
                                child,
                                (level - 1) as int,
                                a,
                            ) == if level - 1 <= 1 { 0int } else { level - 2 } by {
                                lemma_l_index_bounds(a);
                            }
                            assert(spec_table_wf(child, (level - 1) as int));
                        }
                        let r2 = map_rec(&mut child, level - 1, vaddr, frame, flags, allocator);
                        table.entries.insert(
                            idx,
                            PageTableEntry::Table { backing, next: Box::new(child) },
                        );
                        proof {
                            assert(table.entries@ =~= old_t.entries@.update(
                                gidx,
                                table.entries@[gidx],
                            ));
                            assert(spec_missing_tables(old_t, level as int, vaddr) == level - 1);
                            assert forall|i: int| 0 <= i < 512 implies spec_entry_wf(
                                #[trigger] table.entries@[i],
                                level as int,
                            ) by {
                                if i != gidx {
                                    assert(table.entries@[i] == old_t.entries@[i]);
                                    assert(spec_entry_wf(old_t.entries@[i], level as int));
                                }
                            }
                            assert forall|a: u64| !spec_same_path(a, vaddr, level as int)
                                implies spec_translate_rec(*table, level as int, a)
                                == spec_translate_rec(old_t, level as int, a) by {
                                lemma_l_index_bounds(a);
                                if spec_l_index(a, level as int) == spec_l_index(
                                    vaddr,
                                    level as int,
                                ) {
                                    assert(!spec_same_path(a, vaddr, (level - 1) as int));
                                    assert(spec_translate_rec(old_t, level as int, a) is None);
                                } else {
                                    assert(table.entries@[spec_l_index(a, level as int) as int]
                                        == old_t.entries@[spec_l_index(a, level as int) as int]);
                                }
                            }
                            if r2 is Ok {
                                let m0 = spec_missing_tables(old_t, level as int, vaddr);
                                assert(final(allocator).avail() =~= old(allocator).avail().skip(
                                    m0,
                                ));
                            }
                        }
                        match r2 {
                            Ok(()) => Ok(()),
                            Err(e) => Err(e),
                        }
                    },
                }
            },
            PageTableEntry::Table { backing, next } => {
                let mut inner: PageTable = *next;
                let ghost old_inner = inner;
                proof {
                    assert(spec_entry_wf(old_t.entries@[gidx], level as int));
                }
                let r2 = map_rec(&mut inner, level - 1, vaddr, frame, flags, allocator);
                table.entries.insert(idx, PageTableEntry::Table { backing, next: Box::new(inner) });
                proof {
                    assert(table.entries@ =~= old_t.entries@.update(gidx, table.entries@[gidx]));
                    assert forall|i: int| 0 <= i < 512 implies spec_entry_wf(
                        #[trigger] table.entries@[i],
                        level as int,
                    ) by {
                        if i != gidx {
                            assert(table.entries@[i] == old_t.entries@[i]);
                            assert(spec_entry_wf(old_t.entries@[i], level as int));
                        }
                    }
                    assert(spec_translate_rec(old_t, level as int, vaddr) == spec_translate_rec(
                        old_inner,
                        (level - 1) as int,
                        vaddr,
                    ));
                    assert(spec_missing_tables(old_t, level as int, vaddr) == spec_missing_tables(
                        old_inner,
                        (level - 1) as int,
                        vaddr,
                    ));
                    assert forall|a: u64|
                        spec_l_index(a, level as int) == spec_l_index(vaddr, level as int)
                        implies spec_translate_rec(*table, level as int, a) == spec_translate_rec(
                        inner,
                        (level - 1) as int,
                        a,
                    ) && spec_translate_rec(old_t, level as int, a) == spec_translate_rec(
                        old_inner,
                        (level - 1) as int,
                        a,
                    ) by {
                        lemma_l_index_bounds(a);
                    }
                    assert forall|a: u64| !spec_same_path(a, vaddr, level as int)
                        implies spec_translate_rec(*table, level as int, a) == spec_translate_rec(
                        old_t,
                        level as int,
                        a,
                    ) by {
                        lemma_l_index_bounds(a);
                        if spec_l_index(a, level as int) == spec_l_index(vaddr, level as int) {
                            assert(!spec_same_path(a, vaddr, (level - 1) as int));
                        } else {
                            assert(table.entries@[spec_l_index(a, level as int) as int]
                                == old_t.entries@[spec_l_index(a, level as int) as int]);
                        }
                    }
                    if r2 == Err::<(), MapToError>(MapToError::PageAlreadyMapped) {
                        assert forall|a: u64|
                            spec_translate_rec(*table, level as int, a) == spec_translate_rec(
                            old_t,
                            level as int,
                            a,
                        ) by {
                            lemma_l_index_bounds(a);
                            if spec_l_index(a, level as int) != spec_l_index(vaddr, level as int) {
                                assert(table.entries@[spec_l_index(a, level as int) as int]
                                    == old_t.entries@[spec_l_index(a, level as int) as int]);
                            }
                        }
                    }
                }
                match r2 {
                    Ok(()) => Ok(()),
                    Err(e) => Err(e),
                }
            },
            PageTableEntry::Frame { frame: f2, flags: fl2 } => {
                // unreachable: a frame entry above the leaf level would be a
                // huge page, which well-formed hierarchies never hold
                proof {
                    assert(spec_entry_wf(old_t.entries@[gidx], level as int));
                    assert(false);
                }
                table.entries.insert(idx, PageTableEntry::Frame { frame: f2, flags: fl2 });
                Err(MapToError::ParentEntryHugePage)
            },
        }
    }
}


/// The physical address a virtual address maps to: the leaf frame reached
/// by the walk plus the page-internal offset.
pub open spec fn spec_translate(root: PageTable, addr: u64) -> Option<u64> {
    match spec_translate_rec(root, 4, addr) {
        None => None,
        Some(p) => Some((p.0 + (addr % PAGE_SIZE)) as u64),
    }
}

/// Exec counterpart of the read-only walk.
fn translate_rec_exec(table: &PageTable, level: usize, addr: u64) -> (r: Option<u64>)
    requires
        1 <= level <= 4,
        spec_table_wf(*table, level as int),
    ensures
        r == spec_translate_frame(*table, level as int, addr),
    decreases level,
{
    proof {
        lemma_l_index_bounds(addr);
    }
    let idx: usize = index_of(addr, level) as usize;
    proof {
        assert(spec_entry_wf(table.entries@[idx as int], level as int));
    }
    match table.entries.get(idx) {
        Some(PageTableEntry::Empty) => None,
        Some(PageTableEntry::Frame { frame, flags }) => {
            if level == 1 {
                Some(*frame)
            } else {
                None
            }
        },
        Some(PageTableEntry::Table { backing, next }) => {
            if level == 1 {
                None
            } else {
                translate_rec_exec(&**next, level - 1, addr)
            }
        },
        None => {
            // unreachable: a well-formed table has all 512 entries
            proof {
                assert(false);
            }
            None
        },
    }
}

/// The kernel's view of the active 4-level page-table hierarchy, rooted at
/// the table the root-table register points to, together with the fixed
/// offset at which all physical memory is mapped into the virtual address
/// space. The offset is trusted boot input; the walk itself operates on the
/// owned tree.
pub struct Mapper {
    pub root: PageTable,
    pub physical_memory_offset: u64,
}

impl Mapper {
    pub open spec fn wf(self) -> bool {
        spec_table_wf(self.root, 4)
    }

    /// Adopt a root table, recording the physical-memory offset supplied
    /// once at boot.
    pub fn new(root: PageTable, physical_memory_offset: u64) -> (m: Mapper)
        requires
            spec_table_wf(root, 4),
        ensures
            m.wf(),
            m.root == root,
            m.physical_memory_offset == physical_memory_offset,
    {
        Mapper { root, physical_memory_offset }
    }

    /// Map one virtual page to one physical frame, creating any missing
    /// intermediate tables from the frame allocator. Fails if the page is
    /// already mapped (remapping is fatal in this design) or if the
    /// allocator runs dry while creating intermediate tables; the success
    /// and failure conditions are exact.
    pub fn map_to(
        &mut self,
        page: u64,
        frame: u64,
        flags: u64,
        allocator: &mut BootInfoFrameAllocator,
    ) -> (r: Result<(), MapToError>)
        requires
            old(self).wf(),
            old(allocator).wf(),
            page % PAGE_SIZE == 0,
            frame % PAGE_SIZE == 0,
        ensures
            final(self).wf(),
            final(self).physical_memory_offset == old(self).physical_memory_offset,
            final(allocator).wf(),
            final(allocator).memory_map@ == old(allocator).memory_map@,
            r is Ok <==> (spec_translate_rec(old(self).root, 4, page) is None && old(allocator).avail().len() >= spec_missing_tables(old(self).root, 4, page)),
            r is Ok ==> spec_translate_rec(final(self).root, 4, page) == Some(
                (frame, flags),
            ) && final(allocator).avail() == old(allocator).avail().skip(
                spec_missing_tables(old(self).root, 4, page),
            ),
            forall|a: u64|
                !spec_same_path(a, page, 4) ==> spec_translate_rec(final(self).root, 4, a)
                    == spec_translate_rec(old(self).root, 4, a),
            spec_translate_rec(old(self).root, 4, page) is Some ==> r == Err::<(), MapToError>(
                MapToError::PageAlreadyMapped,
            ),
            r == Err::<(), MapToError>(MapToError::PageAlreadyMapped) ==> spec_translate_rec(
                old(self).root,
                4,
                page,
            ) is Some && (forall|a: u64|
                spec_translate_rec(final(self).root, 4, a) == spec_translate_rec(
                    old(self).root,
                    4,
                    a,
                )) && final(allocator).avail() == old(allocator).avail(),
            r == Err::<(), MapToError>(MapToError::FrameAllocationFailed) ==> spec_translate_rec(
                final(self).root,
                4,
                page,
            ) is None && final(allocator).avail().len() == 0,
            !(r == Err::<(), MapToError>(MapToError::ParentEntryHugePage)),
    {
        map_rec(&mut self.root, 4, page, frame, flags, allocator)
    }
}

/// Translate a virtual address through the active hierarchy: the physical
/// address of the mapped frame plus the page-internal offset, or nothing if
/// the address is unmapped.
pub fn translate_addr(mapper: &Mapper, addr: u64) -> (r: Option<u64>)
    requires
        mapper.wf(),
    ensures
        r == spec_translate(mapper.root, addr),
{
    match translate_rec_exec(&mapper.root, 4, addr) {
        None => None,
        Some(frame) => {
            proof {
                lemma_translate_frame_aligned(mapper.root, 4, addr);
                assert(frame % 4096 == 0 ==> frame <= u64::MAX - 4095) by (nonlinear_arith);
            }
            Some(frame + addr % PAGE_SIZE)
        },
    }
}

/// Create the fixed example mapping used during bring-up: the given virtual
/// page mapped to the display buffer's physical frame. The caller must pick
/// an unmapped page and have frames available; failure here is fatal.
pub fn create_example_mapping(
    page: u64,
    mapper: &mut Mapper,
    frame_allocator: &mut BootInfoFrameAllocator,
)
    requires
        old(mapper).wf(),
        old(frame_allocator).wf(),
        page % PAGE_SIZE == 0,
        spec_translate_rec(old(mapper).root, 4, page) is None,
        old(frame_allocator).avail().len() >= spec_missing_tables(old(mapper).root, 4, page),
    ensures
        final(mapper).wf(),
        final(frame_allocator).wf(),
        spec_translate_rec(final(mapper).root, 4, page) == Some(
            (VGA_FRAME, FLAG_PRESENT | FLAG_WRITABLE),
        ),
        forall|a: u64|
            !spec_same_path(a, page, 4) ==> spec_translate_rec(final(mapper).root, 4, a)
                == spec_translate_rec(old(mapper).root, 4, a),
{
    let flags: u64 = FLAG_PRESENT | FLAG_WRITABLE;
    let r = mapper.map_to(page, VGA_FRAME, flags, frame_allocator);
    proof {
        assert(r is Ok);
    }
}

/// Addresses within one page share the whole walk: their indices agree at
/// every level.
pub proof fn lemma_page_offset_same_path(page: u64, addr: u64)
    requires
        page % PAGE_SIZE == 0,
        page <= addr,
        addr - page < PAGE_SIZE,
    ensures
        spec_same_path(addr, page, 4),
        addr % PAGE_SIZE == addr - page,
{
    assert((addr >> 12) & 0x1ff == (page >> 12) & 0x1ff && (addr >> 21) & 0x1ff == (page >> 21)
        & 0x1ff && (addr >> 30) & 0x1ff == (page >> 30) & 0x1ff && (addr >> 39) & 0x1ff == (page
        >> 39) & 0x1ff) by (bit_vector)
        requires
            page % 4096 == 0,
            page <= addr,
            addr < page + 4096,
    ;
    assert(addr % 4096 == addr - page) by (nonlinear_arith)
        requires
            page % 4096 == 0,
            page <= addr,
            addr - page < 4096,
    ;
    assert forall|l: int| 1 <= l <= 4 implies spec_l_index(addr, l) == spec_l_index(
        page,
        l,
    ) by {
    }
}

/// Mapping then translating: once `map` has installed `frame` for a page,
/// `translate` returns the physical address of `frame` plus the original
/// page-internal offset, for every address inside that page.
pub proof fn lemma_map_then_translate(root: PageTable, page: u64, frame: u64, addr: u64)
    requires
        spec_table_wf(root, 4),
        page % PAGE_SIZE == 0,
        spec_translate_frame(root, 4, page) == Some(frame),
        page <= addr,
        addr - page < PAGE_SIZE,
    ensures
        spec_translate(root, addr) == Some((frame + (addr - page)) as u64),
{
    lemma_page_offset_same_path(page, addr);
    lemma_translate_same_path(root, 4, addr, page);
    lemma_translate_frame_aligned(root, 4, page);
    assert(frame % 4096 == 0 ==> frame <= u64::MAX - 4095) by (nonlinear_arith);
}

/// Distinct pages in the canonical low half of the address space never
/// share a full walk: some level index differs.
pub proof fn lemma_distinct_pages_differ(p1: u64, p2: u64)
    requires
        p1 % PAGE_SIZE == 0,
        p2 % PAGE_SIZE == 0,
        p1 < 0x1000000000000,
        p2 < 0x1000000000000,
        p1 != p2,
    ensures
        !spec_same_path(p1, p2, 4),
{
    assert(!((p1 >> 12) & 0x1ff == (p2 >> 12) & 0x1ff && (p1 >> 21) & 0x1ff == (p2 >> 21) & 0x1ff
        && (p1 >> 30) & 0x1ff == (p2 >> 30) & 0x1ff && (p1 >> 39) & 0x1ff == (p2 >> 39)
        & 0x1ff)) by (bit_vector)
        requires
            p1 % 4096 == 0,
            p2 % 4096 == 0,
            p1 < 0x1000000000000,
            p2 < 0x1000000000000,
            p1 != p2,
    ;
    if spec_same_path(p1, p2, 4) {
        assert(spec_l_index(p1, 1) == spec_l_index(p2, 1));
        assert(spec_l_index(p1, 2) == spec_l_index(p2, 2));
        assert(spec_l_index(p1, 3) == spec_l_index(p2, 3));
        assert(spec_l_index(p1, 4) == spec_l_index(p2, 4));
    }
}

/// Once one page of a walk is fully mapped, a second page that shares the
/// same path above the leaf level needs no new intermediate tables.
pub proof fn lemma_missing_zero_of_sibling(t: PageTable, level: int, a: u64, b: u64)
    requires
        spec_table_wf(t, level),
        1 <= level,
        spec_translate_rec(t, level, a) is Some,
        forall|l: int| 2 <= l <= level ==> spec_l_index(a, l) == spec_l_index(b, l),
    ensures
        spec_missing_tables(t, level, b) == 0,
    decreases level,
{
    lemma_l_index_bounds(a);
    lemma_l_index_bounds(b);
    if level > 1 {
        assert(spec_l_index(a, level) == spec_l_index(b, level));
        match t.entries@[spec_l_index(a, level) as int] {
            PageTableEntry::Table { backing, next } => {
                assert(spec_entry_wf(t.entries@[spec_l_index(a, level) as int], level));
                lemma_missing_zero_of_sibling(*next, level - 1, a, b);
            },
            _ => {},
        }
    }
}

} // verus!
