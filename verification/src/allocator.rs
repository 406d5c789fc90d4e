//! Heap bootstrap: the fixed virtual heap window is backed page by page
//! with freshly allocated frames before any dynamic allocation happens.
//!
//! The window that is mapped here is afterwards handed to the general
//! purpose allocator that serves the whole kernel; that hand-off writes the
//! allocator's free list into the newly mapped memory and so belongs to the
//! unverified hardware edge. What is proved here is the part the rest of
//! the kernel depends on: after a successful `init_heap` every address of
//! the heap window translates to mapped physical memory, and the call
//! succeeds exactly when the window was unmapped and the frame allocator
//! held enough frames.

use vstd::prelude::*;

use crate::memory::BootInfoFrameAllocator;
use crate::memory::MapToError;
use crate::memory::Mapper;
use crate::memory::FLAG_PRESENT;
use crate::memory::FLAG_WRITABLE;
use crate::memory::PAGE_SIZE;
use crate::memory::lemma_distinct_pages_differ;
use crate::memory::lemma_missing_tables_bounds;
use crate::memory::lemma_missing_zero_of_sibling;
use crate::memory::lemma_page_offset_same_path;
use crate::memory::lemma_translate_same_path;
use crate::memory::lemma_usable_frame_in_usable_region;
use crate::memory::lemma_usable_frames_distinct;
use crate::memory::translate_addr;
use crate::memory::spec_l_index;
use crate::memory::spec_missing_tables;
use crate::memory::spec_translate;
use crate::memory::spec_translate_frame;
use crate::memory::spec_translate_rec;
use crate::memory::spec_usable_frames;

verus! {

/// Start of the fixed virtual heap window.
pub const HEAP_START: u64 = 0x4444_4444_0000;

/// Size of the heap window in bytes.
pub const HEAP_SIZE: u64 = 100 * 1024;

/// Number of pages that back the heap window.
pub const HEAP_PAGE_COUNT: u64 = HEAP_SIZE / PAGE_SIZE;

/// A placeholder global allocator that refuses every allocation; it stands
/// in until the heap window has been mapped and handed to the real
/// allocator. Deallocation through it is a programming error.
pub struct Dummy;

impl Dummy {
    /// The placeholder never produces memory.
    pub fn allocate(&self) -> (r: Option<u64>)
        ensures
            r is None,
    {
        None
    }
}

/// The base address of the `k`-th page of the heap window.
pub open spec fn spec_heap_page(k: int) -> u64 {
    (HEAP_START + k * PAGE_SIZE) as u64
}

/// Heap pages are aligned, low-canonical, and all share the walk above the
/// leaf level, so backing the window needs intermediate tables only once.
proof fn lemma_heap_page_facts(k: u64)
    requires
        k < HEAP_PAGE_COUNT,
    ensures
        spec_heap_page(k as int) == HEAP_START + k * PAGE_SIZE,
        spec_heap_page(k as int) % PAGE_SIZE == 0,
        spec_heap_page(k as int) < 0x1000000000000,
        forall|l: int|
            2 <= l <= 4 ==> spec_l_index(spec_heap_page(k as int), l) == spec_l_index(
                HEAP_START,
                l,
            ),
{
    let p: u64 = (0x4444_4444_0000 + k * 4096) as u64;
    assert(p % 4096 == 0 && p < 0x1000000000000 && (p >> 21) & 0x1ff == ((
    0x4444_4444_0000u64 >> 21) & 0x1ff) && (p >> 30) & 0x1ff == ((0x4444_4444_0000u64 >> 30)
        & 0x1ff) && (p >> 39) & 0x1ff == ((0x4444_4444_0000u64 >> 39) & 0x1ff)) by (bit_vector)
        requires
            k < 25,
            p == 0x4444_4444_0000 + k * 4096,
    ;
    assert forall|l: int|
        2 <= l <= 4 implies spec_l_index(spec_heap_page(k as int), l) == spec_l_index(
        HEAP_START,
        l,
    ) by {
        assert(spec_heap_page(k as int) == p);
    }
}

/// Position in the allocator's pending frame sequence of the frame that
/// backs the `k`-th heap page: the first page's mapping also consumes the
/// intermediate tables its walk was missing, so later pages' frames sit
/// past those.
pub open spec fn spec_heap_frame_index(k: int, missing: int) -> int {
    if k == 0 {
        0
    } else {
        k + missing
    }
}

/// Map every page of the fixed heap window, each backed by a fresh frame
/// from the allocator, so the window can then be handed to the dynamic
/// allocator. Succeeds exactly when no page of the window is already mapped
/// and the allocator holds a frame for every page plus every intermediate
/// table the first page's walk is missing. Each page is checked against the
/// already-mapped rule before any frame is consumed for it, so a repeated
/// initialization fails at that check, with nothing allocated and nothing
/// remapped.
pub fn init_heap(mapper: &mut Mapper, frame_allocator: &mut BootInfoFrameAllocator) -> (r: Result<
    (),
    MapToError,
>)
    requires
        old(mapper).wf(),
        old(frame_allocator).wf(),
    ensures
        final(mapper).wf(),
        final(frame_allocator).wf(),
        final(mapper).physical_memory_offset == old(mapper).physical_memory_offset,
        final(frame_allocator).memory_map@ == old(frame_allocator).memory_map@,
        r is Ok <==> ((forall|k: int|
            0 <= k < HEAP_PAGE_COUNT ==> spec_translate_rec(
                old(mapper).root,
                4,
                #[trigger] spec_heap_page(k),
            ) is None) && old(frame_allocator).avail().len() >= HEAP_PAGE_COUNT
            + spec_missing_tables(old(mapper).root, 4, HEAP_START)),
        r is Ok ==> forall|a: u64|
            HEAP_START <= a < HEAP_START + HEAP_SIZE ==> (#[trigger] spec_translate(
                final(mapper).root,
                a,
            )) is Some,
        r is Ok ==> forall|k: int|
            0 <= k < HEAP_PAGE_COUNT ==> spec_translate_rec(
                final(mapper).root,
                4,
                #[trigger] spec_heap_page(k),
            ) == Some(
                (
                    old(frame_allocator).avail()[spec_heap_frame_index(
                        k,
                        spec_missing_tables(old(mapper).root, 4, HEAP_START),
                    )],
                    FLAG_PRESENT | FLAG_WRITABLE,
                ),
            ),
        r is Ok ==> forall|j: int, k: int|
            0 <= j < k < HEAP_PAGE_COUNT ==> spec_translate_frame(
                final(mapper).root,
                4,
                #[trigger] spec_heap_page(j),
            ) != spec_translate_frame(final(mapper).root, 4, #[trigger] spec_heap_page(k)),
        r is Ok ==> final(frame_allocator).avail() == old(frame_allocator).avail().skip(
            HEAP_PAGE_COUNT + spec_missing_tables(old(mapper).root, 4, HEAP_START),
        ),
        spec_translate_rec(old(mapper).root, 4, HEAP_START) is Some ==> r == Err::<
            (),
            MapToError,
        >(MapToError::PageAlreadyMapped) && (forall|a: u64|
            spec_translate_rec(final(mapper).root, 4, a) == spec_translate_rec(
                old(mapper).root,
                4,
                a,
            )) && final(frame_allocator).avail() == old(frame_allocator).avail(),
        r == Err::<(), MapToError>(MapToError::PageAlreadyMapped) ==> exists|k: int|
            0 <= k < HEAP_PAGE_COUNT && spec_translate_rec(
                old(mapper).root,
                4,
                #[trigger] spec_heap_page(k),
            ) is Some,
        r == Err::<(), MapToError>(MapToError::FrameAllocationFailed) ==> old(
            frame_allocator,
        ).avail().len() < HEAP_PAGE_COUNT + spec_missing_tables(old(mapper).root, 4, HEAP_START),
        !(r == Err::<(), MapToError>(MapToError::ParentEntryHugePage)),
{
    let ghost r0 = old(mapper).root;
    let ghost a0 = old(frame_allocator).avail();
    let ghost mm0 = old(frame_allocator).memory_map@;
    let ghost next0 = old(frame_allocator).next;
    let ghost m0 = spec_missing_tables(r0, 4, HEAP_START);
    proof {
        lemma_missing_tables_bounds(r0, 4, HEAP_START);
        assert(spec_heap_page(0) == HEAP_START);
    }
    let mut k: u64 = 0;
    while k < HEAP_PAGE_COUNT
        invariant
            mapper.wf(),
            frame_allocator.wf(),
            mapper.physical_memory_offset == old(mapper).physical_memory_offset,
            frame_allocator.memory_map@ == mm0,
            r0 == old(mapper).root,
            a0 == old(frame_allocator).avail(),
            mm0 == old(frame_allocator).memory_map@,
            next0 == old(frame_allocator).next,
            m0 == spec_missing_tables(r0, 4, HEAP_START),
            0 <= m0 <= 3,
            0 <= k <= HEAP_PAGE_COUNT,
            forall|j: int|
                0 <= j < k ==> spec_translate_rec(
                    mapper.root,
                    4,
                    #[trigger] spec_heap_page(j),
                ) == Some((a0[spec_heap_frame_index(j, m0)], FLAG_PRESENT | FLAG_WRITABLE)),
            forall|j: int|
                0 <= j < k ==> spec_translate_rec(r0, 4, #[trigger] spec_heap_page(j)) is None,
            forall|j: int|
                k <= j < HEAP_PAGE_COUNT ==> spec_translate_rec(
                    mapper.root,
                    4,
                    #[trigger] spec_heap_page(j),
                ) == spec_translate_rec(r0, 4, spec_heap_page(j)),
            k == 0 ==> frame_allocator.avail() == a0 && mapper.root == r0
                && frame_allocator.next == next0,
            k > 0 ==> a0.len() >= k + m0 && frame_allocator.avail() == a0.skip(k + m0),
        decreases HEAP_PAGE_COUNT - k,
    {
        proof {
            lemma_heap_page_facts(k);
        }
        let page: u64 = HEAP_START + k * PAGE_SIZE;
        // the already-mapped rule is checked before any frame is consumed
        // for this page: remapping is fatal, and a repeated initialization
        // must stop here with nothing changed
        if translate_addr(mapper, page).is_some() {
            proof {
                assert(spec_translate_rec(mapper.root, 4, page) is Some);
                assert(spec_translate_rec(r0, 4, spec_heap_page(k as int)) is Some);
                if k > 0 {
                    assert(spec_translate_rec(r0, 4, spec_heap_page(0)) is None);
                }
            }
            return Err(MapToError::PageAlreadyMapped);
        }
        let ghost avail_before = frame_allocator.avail();
        let frame: u64 = match frame_allocator.allocate_frame() {
            Some(f) => f,
            None => {
                proof {
                    if k == 0 {
                        assert(a0.len() == 0);
                    } else {
                        assert(avail_before =~= a0.skip(k as int + m0));
                        assert(avail_before.len() == 0);
                        assert(a0.skip(k as int + m0).len() == a0.len() - (k + m0));
                        assert(a0.len() == k + m0);
                        assert(spec_translate_rec(r0, 4, spec_heap_page(0)) is None);
                    }
                }
                return Err(MapToError::FrameAllocationFailed);
            },
        };
        proof {
            let frames = spec_usable_frames(mm0);
            assert(avail_before[0] == frames[frames.len() - avail_before.len()]);
            lemma_usable_frame_in_usable_region(mm0, frames.len() - avail_before.len());
        }
        let ghost root_before = mapper.root;
        let ghost avail_mid = frame_allocator.avail();
        let ghost missing_now = spec_missing_tables(root_before, 4, page);
        proof {
            lemma_missing_tables_bounds(root_before, 4, page);
            if k > 0 {
                assert(spec_translate_rec(mapper.root, 4, spec_heap_page(0)) is Some);
                lemma_missing_zero_of_sibling(mapper.root, 4, HEAP_START, page);
                assert(missing_now == 0);
            } else {
                assert(page == HEAP_START);
            }
        }
        match mapper.map_to(page, frame, FLAG_PRESENT | FLAG_WRITABLE, frame_allocator) {
            Ok(()) => {},
            Err(e) => {
                proof {
                    // the page was just checked unmapped, so only frame
                    // exhaustion remains
                    assert(spec_translate_rec(root_before, 4, page) is None);
                    assert(e is FrameAllocationFailed);
                    assert(avail_mid.len() < missing_now);
                    if k == 0 {
                        assert(avail_mid.len() == a0.len() - 1);
                        assert(a0.len() < 1 + m0);
                    } else {
                        assert(missing_now == 0);
                        assert(false);
                    }
                }
                return Err(e);
            },
        }
        proof {
            let ghost consumed_prev: int = if k == 0 {
                0
            } else {
                k + m0
            };
            assert(avail_before =~= a0.skip(consumed_prev));
            assert(avail_mid =~= a0.skip(consumed_prev + 1));
            assert(avail_mid.len() >= missing_now);
            assert(frame_allocator.avail() == avail_mid.skip(missing_now));
            assert(frame_allocator.avail() =~= a0.skip(consumed_prev + 1 + missing_now));
            assert(consumed_prev + 1 + missing_now == k + 1 + m0);
            assert(frame == avail_before[0]);
            assert(frame == a0[spec_heap_frame_index(k as int, m0)]);
            assert forall|j: int|
                0 <= j < k + 1 implies spec_translate_rec(
                mapper.root,
                4,
                #[trigger] spec_heap_page(j),
            ) == Some((a0[spec_heap_frame_index(j, m0)], FLAG_PRESENT | FLAG_WRITABLE)) by {
                if j < k {
                    lemma_heap_page_facts(j as u64);
                    lemma_distinct_pages_differ(spec_heap_page(j), page);
                }
            }
            assert forall|j: int|
                k + 1 <= j < HEAP_PAGE_COUNT implies spec_translate_rec(
                mapper.root,
                4,
                #[trigger] spec_heap_page(j),
            ) == spec_translate_rec(r0, 4, spec_heap_page(j)) by {
                lemma_heap_page_facts(j as u64);
                lemma_distinct_pages_differ(spec_heap_page(j), page);
            }
        }
        k = k + 1;
    }
    proof {
        assert(a0.len() >= HEAP_PAGE_COUNT + m0);
        assert(spec_translate_rec(r0, 4, HEAP_START) is None);
        assert forall|a: u64| HEAP_START <= a < HEAP_START + HEAP_SIZE implies (
        #[trigger] spec_translate(mapper.root, a)) is Some by {
            let j = (a - HEAP_START) / (PAGE_SIZE as int);
            assert((a - HEAP_START) >= (PAGE_SIZE as int) * j && (a - HEAP_START) < (
            PAGE_SIZE as int) * j + (PAGE_SIZE as int) && 0 <= j) by (nonlinear_arith)
                requires
                    j == (a - HEAP_START) / (PAGE_SIZE as int),
                    0 <= a - HEAP_START,
            ;
            assert(j < HEAP_PAGE_COUNT) by (nonlinear_arith)
                requires
                    (a - HEAP_START) >= (PAGE_SIZE as int) * j,
                    a - HEAP_START < HEAP_SIZE,
                    HEAP_SIZE == HEAP_PAGE_COUNT * PAGE_SIZE,
                    0 <= j,
            ;
            let p = spec_heap_page(j);
            lemma_heap_page_facts(j as u64);
            assert(p <= a && a - p < PAGE_SIZE);
            lemma_page_offset_same_path(p, a);
            lemma_translate_same_path(mapper.root, 4, a, p);
            assert(spec_translate_rec(mapper.root, 4, p) is Some);
        }
        // the backing frames come from distinct positions of the usable
        // frame sequence, so no two heap pages share a frame
        let frames = spec_usable_frames(mm0);
        assert(a0.len() > 0);
        assert(next0 <= frames.len());
        assert(a0 =~= frames.skip(next0 as int));
        assert forall|j: int, k2: int|
            0 <= j < k2 < HEAP_PAGE_COUNT implies spec_translate_frame(
            mapper.root,
            4,
            #[trigger] spec_heap_page(j),
        ) != spec_translate_frame(mapper.root, 4, #[trigger] spec_heap_page(k2)) by {
            let ij = spec_heap_frame_index(j, m0);
            let ik = spec_heap_frame_index(k2, m0);
            assert(0 <= ij < a0.len() && 0 <= ik < a0.len() && ij < ik);
            assert(a0[ij] == frames[next0 + ij]);
            assert(a0[ik] == frames[next0 + ik]);
            lemma_usable_frames_distinct(mm0, next0 + ij, next0 + ik);
            assert(spec_translate_frame(mapper.root, 4, spec_heap_page(j)) == Some(a0[ij]));
            assert(spec_translate_frame(mapper.root, 4, spec_heap_page(k2)) == Some(a0[ik]));
        }
    }
    Ok(())
}

} // verus!
