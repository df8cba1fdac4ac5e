//! What follows from the model of an address space: facts about mapping
//! and unmapping, about the program break, and about copies into user
//! memory.
use vstd::prelude::*;
use crate::config::{PAGE_SIZE, spec_page_ceil, spec_page_floor};
use crate::mm::address_space::{AddressSpace, heap_perm, vpn_limit};
use crate::mm::flags::{MapPermission, PageTableEntry, lemma_entry_matches_permission};

verus! {

/// In a well-formed space, the region that holds a page is unique.
pub proof fn lemma_region_unique(space: AddressSpace, i: int, vpn: int)
    requires
        space.wf(),
        0 <= i < space.regions.len(),
        space.regions[i].contains(vpn),
    ensures
        space.mapped(vpn),
        space.region_of(vpn) == i,
        space.pages[vpn].perm == space.regions[i].perm,
{
    assert(space.covered(vpn));
    assert(space.mapped(vpn));
    let j = space.region_of(vpn);
    assert(space.regions[j].contains(vpn));
    if i != j {
        assert(space.regions[i].disjoint(space.regions[j]));
    }
}

/// Mapping a free range of pages below the limit keeps the space
/// well-formed.
pub proof fn lemma_map_range_wf(space: AddressSpace, start: int, end: int, perm: MapPermission)
    requires
        space.wf(),
        0 <= start,
        end <= vpn_limit(),
        space.range_free(start, end),
    ensures
        space.map_range(start, end, perm).wf(),
{
    if start < end {
        let n = space.map_range(start, end, perm);
        let len = space.regions.len() as int;
        assert forall|i: int| 0 <= i < len implies (#[trigger] space.regions[i]).disjoint(
            n.regions[len],
        ) by {
            let r = space.regions[i];
            if !r.disjoint(n.regions[len]) {
                let v = if start >= r.start {
                    start
                } else {
                    r.start
                };
                lemma_region_unique(space, i, v);
                assert(space.mapped(v));
            }
        }
        assert forall|i: int, j: int| 0 <= i < n.regions.len() && 0 <= j < n.regions.len() && i != j implies (
        #[trigger] n.regions[i]).disjoint(#[trigger] n.regions[j]) by {
            if i < len && j < len {
                assert(space.regions[i].disjoint(space.regions[j]));
            } else if i < len {
                assert(space.regions[i].disjoint(n.regions[len]));
            } else {
                assert(space.regions[j].disjoint(n.regions[len]));
            }
        }
        assert forall|vpn: int| #[trigger] n.mapped(vpn) <==> n.covered(vpn) by {
            if n.mapped(vpn) {
                if start <= vpn < end {
                    assert(n.regions[len].contains(vpn));
                } else {
                    assert(space.mapped(vpn));
                    assert(space.covered(vpn));
                    let i = space.region_of(vpn);
                    assert(n.regions[i].contains(vpn));
                }
            }
            if n.covered(vpn) {
                let i = n.region_of(vpn);
                assert(n.regions[i].contains(vpn));
                if i < len {
                    lemma_region_unique(space, i, vpn);
                }
            }
        }
        assert forall|vpn: int| #[trigger] n.mapped(vpn) implies n.pages[vpn].perm
            == n.regions[n.region_of(vpn)].perm && n.pages[vpn].bytes.len() == PAGE_SIZE by {
            assert(n.covered(vpn));
            let i = n.region_of(vpn);
            assert(n.regions[i].contains(vpn));
            if start <= vpn < end {
                if i < len {
                    lemma_region_unique(space, i, vpn);
                }
            } else {
                assert(i < len);
                lemma_region_unique(space, i, vpn);
                assert(space.mapped(vpn));
            }
        }
    }
}

/// After a range was mapped, every page of it translates to a valid entry
/// with the rights it was mapped with, and every other page translates as
/// before.
pub proof fn lemma_map_range_translate(
    space: AddressSpace,
    start: int,
    end: int,
    perm: MapPermission,
    vpn: int,
)
    ensures
        start <= vpn < end ==> space.map_range(start, end, perm).translate(vpn) == Some(
            PageTableEntry::spec_for_perm(perm),
        ),
        !(start <= vpn < end) ==> space.map_range(start, end, perm).translate(vpn)
            == space.translate(vpn),
        PageTableEntry::spec_for_perm(perm).is_valid(),
{
    lemma_entry_matches_permission(perm);
}

/// Unmapping a range all of whose pages are mapped succeeds; afterwards
/// no page of the range is mapped, and every other page is mapped as
/// before, with the same rights and bytes. The heap cursor stays.
pub proof fn lemma_unmap_range_mapped(space: AddressSpace, start: int, end: int)
    requires
        space.range_mapped(start, end),
    ensures
        space.unmap_range(start, end).1,
        space.unmap_range(start, end).0.pages == space.pages.remove_keys(
            Set::new(|vpn: int| start <= vpn < end),
        ),
        space.unmap_range(start, end).0.brk == space.brk,
        space.unmap_range(start, end).0.heap_bottom == space.heap_bottom,
    decreases end - start,
{
    let gone = Set::new(|vpn: int| start <= vpn < end);
    if start >= end {
        assert(space.pages =~= space.pages.remove_keys(gone));
    } else {
        assert(space.mapped(start));
        let next = space.unmap_page(start);
        assert forall|vpn: int| start + 1 <= vpn < end implies #[trigger] next.mapped(vpn) by {
            assert(space.mapped(vpn));
        }
        lemma_unmap_range_mapped(next, start + 1, end);
        let rest = Set::new(|vpn: int| start + 1 <= vpn < end);
        assert(next.pages.remove_keys(rest) =~= space.pages.remove_keys(gone));
    }
}

/// Unmapping every mapped page of a range leaves no page of the range
/// mapped and every other page as before. The heap cursor stays.
pub proof fn lemma_clear_range(space: AddressSpace, start: int, end: int)
    ensures
        space.clear_range(start, end).pages == space.pages.remove_keys(
            Set::new(|vpn: int| start <= vpn < end),
        ),
        space.clear_range(start, end).brk == space.brk,
        space.clear_range(start, end).heap_bottom == space.heap_bottom,
    decreases end - start,
{
    let gone = Set::new(|vpn: int| start <= vpn < end);
    if start >= end {
        assert(space.pages =~= space.pages.remove_keys(gone));
    } else {
        let rest = Set::new(|vpn: int| start + 1 <= vpn < end);
        if !space.mapped(start) {
            lemma_clear_range(space, start + 1, end);
            assert(space.pages.remove_keys(rest) =~= space.pages.remove_keys(gone));
        } else {
            let next = space.unmap_page(start);
            lemma_clear_range(next, start + 1, end);
            assert(next.pages.remove_keys(rest) =~= space.pages.remove_keys(gone));
        }
    }
}

/// Mapping a free range and then unmapping the same range succeeds and
/// gives back the pages as they were.
pub proof fn lemma_map_then_unmap(space: AddressSpace, start: int, end: int, perm: MapPermission)
    requires
        space.range_free(start, end),
    ensures
        space.map_range(start, end, perm).unmap_range(start, end).1,
        space.map_range(start, end, perm).unmap_range(start, end).0.pages == space.pages,
        forall|vpn: int|
            start <= vpn < end ==> space.map_range(start, end, perm).unmap_range(
                start,
                end,
            ).0.translate(vpn).is_none(),
{
    let mapped = space.map_range(start, end, perm);
    assert forall|vpn: int| start <= vpn < end implies #[trigger] mapped.mapped(vpn) by {}
    lemma_unmap_range_mapped(mapped, start, end);
    let gone = Set::new(|vpn: int| start <= vpn < end);
    assert(mapped.pages.remove_keys(gone) =~= space.pages) by {
        assert forall|vpn: int| space.pages.contains_key(vpn) implies !gone.contains(vpn) by {
            assert(space.mapped(vpn));
        }
    }
}

/// Moving the program break by `n` bytes and then by `-n` bytes: if the
/// first move is valid, so is the second, and the break stands where it
/// stood. If the first move did not shrink the heap, the pages are what
/// they were as well.
pub proof fn lemma_brk_round_trip(space: AddressSpace, n: int)
    requires
        space.wf(),
        space.brk_change_valid(n),
    ensures
        space.change_brk(n).brk == space.brk + n,
        space.change_brk(n).brk_change_valid(-n),
        space.change_brk(n).change_brk(-n).brk == space.brk,
        space.change_brk(n).change_brk(-n).heap_bottom == space.heap_bottom,
        n >= 0 ==> space.change_brk(n).change_brk(-n).pages == space.pages,
{
    let low = spec_page_ceil(space.brk);
    let high = spec_page_ceil(space.brk + n);
    let moved = space.change_brk(n);
    if n > 0 {
        assert(low <= high);
        let mapped = space.map_range(low, high, heap_perm());
        lemma_clear_range(mapped, low, high);
        let gone = Set::new(|vpn: int| low <= vpn < high);
        assert(mapped.pages.remove_keys(gone) =~= space.pages) by {
            assert forall|vpn: int| space.pages.contains_key(vpn) implies !gone.contains(vpn) by {
                assert(space.mapped(vpn));
            }
        }
        assert(moved.pages == mapped.pages);
        lemma_clear_range(moved, low, high);
    } else if n == 0 {
        assert(moved.range_free(low, low));
        assert(moved.map_range(low, low, heap_perm()) == moved);
    } else {
        lemma_clear_range(space, high, low);
        assert(moved.range_free(high, low)) by {
            assert forall|vpn: int| high <= vpn < low implies !#[trigger] moved.mapped(vpn) by {}
        }
    }
}

/// A copy into user memory keeps the space well-formed: it maps and
/// unmaps nothing and changes no rights.
pub proof fn lemma_write_wf(space: AddressSpace, va: int, data: Seq<u8>)
    requires
        space.wf(),
    ensures
        space.write(va, data).wf(),
        forall|vpn: int| space.write(va, data).translate(vpn) == space.translate(vpn),
{
    let w = space.write(va, data);
    assert forall|vpn: int| #[trigger] w.mapped(vpn) <==> w.covered(vpn) by {
        assert(space.mapped(vpn) <==> space.covered(vpn));
        if space.covered(vpn) {
            let i = space.region_of(vpn);
            assert(w.regions[i].contains(vpn));
        }
    }
    assert forall|vpn: int| #[trigger] w.mapped(vpn) implies w.pages[vpn].perm
        == w.regions[w.region_of(vpn)].perm && w.pages[vpn].bytes.len() == PAGE_SIZE by {
        assert(space.mapped(vpn));
    }
}

/// What was copied into a mapped buffer of user memory is what a read of
/// that buffer yields, wherever in its pages the buffer lies and however
/// many pages it spans.
pub proof fn lemma_write_then_read(space: AddressSpace, va: int, data: Seq<u8>)
    requires
        space.wf(),
        0 <= va,
        space.buffer_mapped(va, data.len() as int),
    ensures
        space.write(va, data).read(va, data.len() as int) == data,
{
    let w = space.write(va, data);
    let r = w.read(va, data.len() as int);
    assert forall|i: int| 0 <= i < data.len() implies r[i] == data[i] by {
        let a = va + i;
        let vpn = spec_page_floor(a);
        let off = a % (PAGE_SIZE as int);
        assert(spec_page_floor(va) <= vpn < spec_page_ceil(va + data.len()));
        assert(space.mapped(vpn));
        assert(vpn * PAGE_SIZE + off == a);
    }
    assert(r =~= data);
}

/// A copy into user memory changes no byte outside the destination.
pub proof fn lemma_write_elsewhere(space: AddressSpace, va: int, data: Seq<u8>, a: int)
    requires
        space.wf(),
        0 <= a,
        space.mapped(spec_page_floor(a)),
        a < va || a >= va + data.len(),
    ensures
        space.write(va, data).byte(a) == space.byte(a),
{
    let vpn = spec_page_floor(a);
    let off = a % (PAGE_SIZE as int);
    assert(vpn * PAGE_SIZE + off == a);
}

/// Copying a buffer in one piece gives the same space as copying its
/// first `k` bytes and then the rest behind them: the result does not
/// depend on where the copy is cut, as it is at each page boundary that
/// the destination crosses.
pub proof fn lemma_write_in_pieces(space: AddressSpace, va: int, data: Seq<u8>, k: int)
    requires
        0 <= k <= data.len(),
    ensures
        space.write(va, data) == space.write(va, data.subrange(0, k)).write(
            va + k,
            data.subrange(k, data.len() as int),
        ),
{
    let whole = space.write(va, data);
    let first = space.write(va, data.subrange(0, k));
    let both = first.write(va + k, data.subrange(k, data.len() as int));
    assert forall|vpn: int| whole.pages.contains_key(vpn) implies #[trigger] whole.pages[vpn]
        == both.pages[vpn] by {
        assert(whole.pages[vpn].bytes =~= both.pages[vpn].bytes);
    }
    assert(whole.pages =~= both.pages);
}

} // verus!
