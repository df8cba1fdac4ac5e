//! Application images: the segments of a program as the loader hands them
//! over, and the address space that a program starts with.
use vstd::prelude::*;
use crate::config::{MAXVA, PAGE_SIZE, USER_STACK_SIZE, page_ceil, spec_page_ceil, spec_page_floor};
use crate::mm::address_space::{AddressSpace, heap_perm};
use crate::mm::flags::{MapPermission, PERM_U};
use crate::mm::memory_set::{MemorySet, heap_permission};

verus! {

/// One loadable segment of a program: where it goes, the rights of its
/// pages, and its bytes.
pub struct Segment {
    pub start_va: usize,
    pub perm: MapPermission,
    pub data: Vec<u8>,
}

/// A program as the loader supplies it: its segments and its entry point.
pub struct AppImage {
    pub entry: usize,
    pub segments: Vec<Segment>,
}

/// The highest address at which a segment may end: above it there must be
/// room for a guard page and the user stack.
pub open spec fn image_limit() -> int {
    MAXVA - USER_STACK_SIZE - PAGE_SIZE
}

/// The rights of a segment's pages: those that the image names, and user
/// access.
pub open spec fn segment_perm(g: Segment) -> MapPermission {
    MapPermission { bits: g.perm.bits | PERM_U }
}

/// Whether segment `g` can be placed into `space`: it starts on a page
/// boundary, ends at or below [`image_limit`], and none of its pages is
/// mapped yet.
pub open spec fn segment_fits(space: AddressSpace, g: Segment) -> bool {
    &&& g.start_va as int % (PAGE_SIZE as int) == 0
    &&& g.start_va + g.data.len() <= image_limit()
    &&& space.range_free(
        spec_page_floor(g.start_va as int),
        spec_page_ceil(g.start_va + g.data.len()),
    )
}

/// `space` with segment `g` placed: its pages mapped and its bytes stored,
/// the rest of its last page zero.
pub open spec fn place_segment(space: AddressSpace, g: Segment) -> AddressSpace {
    space.map_range(
        spec_page_floor(g.start_va as int),
        spec_page_ceil(g.start_va + g.data.len()),
        segment_perm(g),
    ).write(g.start_va as int, g.data@)
}

/// The address space after the first `n` segments were placed one after
/// the other into an empty one, or `None` if one of them did not fit.
pub open spec fn placed(segments: Seq<Segment>, n: int) -> Option<AddressSpace>
    decreases n,
{
    if n <= 0 {
        Some(AddressSpace::empty(0))
    } else {
        match placed(segments, n - 1) {
            None => None,
            Some(space) => if segment_fits(space, segments[n - 1]) {
                Some(place_segment(space, segments[n - 1]))
            } else {
                None
            },
        }
    }
}

/// The first page boundary at or above the end of each of the first `n`
/// segments, as a page number.
pub open spec fn image_top(segments: Seq<Segment>, n: int) -> int
    decreases n,
{
    if n <= 0 {
        0
    } else {
        let below = image_top(segments, n - 1);
        let end = spec_page_ceil(segments[n - 1].start_va + segments[n - 1].data.len());
        if end > below {
            end
        } else {
            below
        }
    }
}

/// Where the user stack of a program with these segments ends (its
/// highest address, exclusive): one guard page and the stack above the
/// image.
pub open spec fn stack_top(segments: Seq<Segment>) -> int {
    image_top(segments, segments.len() as int) * PAGE_SIZE + PAGE_SIZE + USER_STACK_SIZE
}

/// The address space that a program with these segments starts with: the
/// segments placed, the user stack mapped one guard page above them, and
/// an empty heap on top of the stack. `None` if a segment does not fit.
pub open spec fn initial_space(segments: Seq<Segment>) -> Option<AddressSpace> {
    match placed(segments, segments.len() as int) {
        None => None,
        Some(space) => {
            let top = stack_top(segments);
            Some(
                AddressSpace {
                    heap_bottom: top,
                    brk: top,
                    ..space.map_range(
                        spec_page_floor(top - USER_STACK_SIZE),
                        spec_page_floor(top),
                        heap_perm(),
                    )
                },
            )
        },
    }
}

/// Every page that is mapped after the first `n` segments were placed lies
/// below [`image_top`], which is at most the page of [`image_limit`].
proof fn lemma_placed_below_top(segments: Seq<Segment>, n: int)
    requires
        0 <= n <= segments.len(),
        placed(segments, n).is_some(),
    ensures
        image_top(segments, n) * PAGE_SIZE <= image_limit(),
        image_top(segments, n) >= 0,
        forall|vpn: int| #[trigger]
            placed(segments, n).unwrap().mapped(vpn) ==> vpn < image_top(segments, n),
    decreases n,
{
    if n > 0 {
        lemma_placed_below_top(segments, n - 1);
    }
}

impl MemorySet {
    /// Builds the address space that the program `image` starts with, and
    /// returns it with the initial stack pointer and the entry point.
    /// Yields `None` if a segment of the image does not fit.
    pub fn from_image(image: &AppImage) -> (r: Option<(MemorySet, usize, usize)>)
        ensures
            r.is_some() == initial_space(image.segments@).is_some(),
            r.is_some() ==> {
                let (ms, user_sp, entry) = r.unwrap();
                &&& ms.wf()
                &&& ms@ == initial_space(image.segments@).unwrap()
                &&& user_sp == stack_top(image.segments@)
                &&& entry == image.entry
            },
    {
        let mut ms = MemorySet::new_bare();
        let mut top: usize = 0;
        let mut i: usize = 0;
        let limit: usize = MAXVA - USER_STACK_SIZE - PAGE_SIZE;
        while i < image.segments.len()
            invariant
                ms.wf(),
                i <= image.segments.len(),
                limit == image_limit(),
                placed(image.segments@, i as int) == Some(ms@),
                top == image_top(image.segments@, i as int),
            decreases image.segments.len() - i,
        {
            let g = &image.segments[i];
            let len = g.data.len();
            if g.start_va % PAGE_SIZE != 0 || g.start_va > limit || len > limit - g.start_va {
                proof {
                    lemma_placed_none(image.segments@, i + 1, image.segments.len() as int);
                }
                return None;
            }
            let end_va: usize = g.start_va + len;
            let perm = g.perm.union(MapPermission { bits: PERM_U });
            if !ms.insert_framed_area(g.start_va, end_va, perm) {
                proof {
                    lemma_placed_none(image.segments@, i + 1, image.segments.len() as int);
                }
                return None;
            }
            proof {
                ms.lemma_view_wf();
                let space = placed(image.segments@, i as int).unwrap();
                let s = spec_page_floor(g.start_va as int);
                let e = spec_page_ceil(end_va as int);
                assert(ms@.buffer_mapped(g.start_va as int, len as int)) by {
                    assert forall|vpn: int| s <= vpn < e implies #[trigger] ms@.mapped(vpn) by {}
                }
            }
            let ok = ms.write_bytes(g.start_va, &g.data);
            let end_vpn = page_ceil(end_va);
            if end_vpn > top {
                top = end_vpn;
            }
            i = i + 1;
        }
        proof {
            lemma_placed_below_top(image.segments@, i as int);
        }
        let stack_bottom: usize = top * PAGE_SIZE + PAGE_SIZE;
        let user_sp: usize = stack_bottom + USER_STACK_SIZE;
        let ghost before = ms@;
        let ok = ms.insert_framed_area(stack_bottom, user_sp, heap_permission());
        proof {
            assert(spec_page_floor(stack_bottom as int) == top + 1);
            assert(spec_page_ceil(user_sp as int) == top + 3);
            assert(spec_page_floor(user_sp as int) == top + 3);
            assert(before.range_free(top + 1, top + 3));
        }
        ms.set_heap(user_sp);
        Some((ms, user_sp, image.entry))
    }
}

/// Once a segment did not fit, placing further segments cannot succeed.
proof fn lemma_placed_none(segments: Seq<Segment>, n: int, m: int)
    requires
        0 < n <= m,
        placed(segments, n).is_none(),
    ensures
        placed(segments, m).is_none(),
    decreases m - n,
{
    if n < m {
        lemma_placed_none(segments, n + 1, m);
    }
}

} // verus!
