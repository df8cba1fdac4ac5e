//! The executable address space: a list of mapped areas, each of which
//! owns the frames that back its pages.
use vstd::prelude::*;
use crate::config::{MAXVA, PAGE_SIZE, page_ceil, page_floor, spec_page_ceil, spec_page_floor};
use crate::mm::address_space::{
    AddressSpace, PageView, Region, heap_perm, lemma_text_unique, vpn_limit, zero_page,
};
use crate::mm::flags::{MapPermission, PageTableEntry, PERM_R, PERM_U, PERM_W};

verus! {

/// The backing store of one mapped page.
struct Frame {
    bytes: Vec<u8>,
}

impl Frame {
    spec fn wf(&self) -> bool {
        self.bytes.len() == PAGE_SIZE
    }

    spec fn view(&self) -> Seq<u8> {
        self.bytes@
    }

    /// A frame filled with zero bytes.
    fn zeroed() -> (f: Frame)
        ensures
            f.wf(),
            f.view() == zero_page(),
    {
        let bytes: Vec<u8> = vec![0u8; PAGE_SIZE];
        assert(bytes@ =~= zero_page());
        Frame { bytes }
    }

    /// Stores `data[from .. from + count]` at the offsets from `off` on.
    fn store(&mut self, off: usize, data: &Vec<u8>, from: usize, count: usize)
        requires
            old(self).wf(),
            off + count <= PAGE_SIZE,
            from + count <= data.len(),
        ensures
            final(self).wf(),
            final(self).view() == Seq::new(
                PAGE_SIZE as nat,
                |o: int|
                    if off <= o < off + count {
                        data[from + o - off]
                    } else {
                        old(self).view()[o]
                    },
            ),
    {
        let mut n: usize = 0;
        while n < count
            invariant
                n <= count,
                off + count <= PAGE_SIZE,
                from + count <= data.len(),
                self.bytes.len() == PAGE_SIZE,
                forall|o: int|
                    0 <= o < PAGE_SIZE ==> #[trigger] self.bytes[o] == (if off <= o < off + n {
                        data[from + o - off]
                    } else {
                        old(self).bytes[o]
                    }),
            decreases count - n,
        {
            self.bytes[off + n] = data[from + n];
            n = n + 1;
        }
        assert(self.bytes@ =~= Seq::new(
            PAGE_SIZE as nat,
            |o: int|
                if off <= o < off + count {
                    data[from + o - off]
                } else {
                    old(self).bytes@[o]
                },
        ));
    }

    /// The byte at offset `off`.
    fn load(&self, off: usize) -> (b: u8)
        requires
            self.wf(),
            off < PAGE_SIZE,
        ensures
            b == self.view()[off as int],
    {
        self.bytes[off]
    }

    /// A frame with the same bytes as `self`.
    fn duplicate(&self) -> (f: Frame)
        requires
            self.wf(),
        ensures
            f.wf(),
            f.view() == self.view(),
    {
        let bytes: Vec<u8> = self.bytes.clone();
        assert(bytes@ =~= self.bytes@);
        Frame { bytes }
    }
}

/// A contiguous run of mapped pages with common rights; `frames[k]` backs
/// page `start_vpn + k`.
struct MapArea {
    start_vpn: usize,
    perm: MapPermission,
    frames: Vec<Frame>,
}

impl MapArea {
    spec fn wf(&self) -> bool {
        &&& self.frames.len() >= 1
        &&& self.start_vpn + self.frames.len() <= vpn_limit()
        &&& forall|k: int| 0 <= k < self.frames.len() ==> (#[trigger] self.frames[k]).wf()
    }

    spec fn region(&self) -> Region {
        Region {
            start: self.start_vpn as int,
            end: self.start_vpn + self.frames.len(),
            perm: self.perm,
        }
    }

    spec fn page(&self, vpn: int) -> PageView {
        PageView { perm: self.perm, bytes: self.frames[vpn - self.start_vpn].view() }
    }
}

/// An address space: its mapped areas and its heap cursor.
pub struct MemorySet {
    areas: Vec<MapArea>,
    heap_bottom: usize,
    brk: usize,
}

spec fn regions_of(areas: Seq<MapArea>) -> Seq<Region> {
    Seq::new(areas.len(), |i: int| areas[i].region())
}

spec fn covered_by(areas: Seq<MapArea>, vpn: int) -> bool {
    exists|i: int| 0 <= i < areas.len() && #[trigger] areas[i].region().contains(vpn)
}

spec fn owner_of(areas: Seq<MapArea>, vpn: int) -> int {
    choose|i: int| 0 <= i < areas.len() && #[trigger] areas[i].region().contains(vpn)
}

spec fn pages_of(areas: Seq<MapArea>) -> Map<int, PageView> {
    Map::new(
        |vpn: int| covered_by(areas, vpn),
        |vpn: int| areas[owner_of(areas, vpn)].page(vpn),
    )
}

spec fn areas_wf(areas: Seq<MapArea>) -> bool {
    &&& forall|i: int| 0 <= i < areas.len() ==> (#[trigger] areas[i]).wf()
    &&& forall|i: int, j: int|
        0 <= i < areas.len() && 0 <= j < areas.len() && i != j ==> (#[trigger] areas[i].region()).disjoint(
            #[trigger] areas[j].region(),
        )
}

/// In a well-formed list the area that holds a page is unique.
proof fn lemma_owner(areas: Seq<MapArea>, i: int, vpn: int)
    requires
        areas_wf(areas),
        0 <= i < areas.len(),
        areas[i].region().contains(vpn),
    ensures
        covered_by(areas, vpn),
        owner_of(areas, vpn) == i,
        pages_of(areas).contains_key(vpn),
        pages_of(areas)[vpn] == areas[i].page(vpn),
{
    let j = owner_of(areas, vpn);
    assert(0 <= j < areas.len() && areas[j].region().contains(vpn));
    if i != j {
        assert(areas[i].region().disjoint(areas[j].region()));
    }
}

/// Appending an area that overlaps none of the list keeps the list
/// well-formed and adds exactly the pages of that area.
proof fn lemma_push_area(areas: Seq<MapArea>, a: MapArea)
    requires
        areas_wf(areas),
        a.wf(),
        forall|i: int| 0 <= i < areas.len() ==> (#[trigger] areas[i].region()).disjoint(a.region()),
    ensures
        areas_wf(areas.push(a)),
        regions_of(areas.push(a)) == regions_of(areas).push(a.region()),
        pages_of(areas.push(a)) == Map::new(
            |vpn: int| pages_of(areas).contains_key(vpn) || a.region().contains(vpn),
            |vpn: int|
                if a.region().contains(vpn) {
                    a.page(vpn)
                } else {
                    pages_of(areas)[vpn]
                },
        ),
{
    let new = areas.push(a);
    let n = areas.len() as int;
    assert(areas_wf(new)) by {
        assert forall|i: int, j: int| 0 <= i < new.len() && 0 <= j < new.len() && i != j implies (
        #[trigger] new[i].region()).disjoint(#[trigger] new[j].region()) by {
            if i < n && j < n {
                assert(areas[i].region().disjoint(areas[j].region()));
            } else if i < n {
                assert(areas[i].region().disjoint(a.region()));
            } else {
                assert(areas[j].region().disjoint(a.region()));
            }
        }
    }
    assert(regions_of(new) =~= regions_of(areas).push(a.region()));
    let target = Map::new(
        |vpn: int| pages_of(areas).contains_key(vpn) || a.region().contains(vpn),
        |vpn: int|
            if a.region().contains(vpn) {
                a.page(vpn)
            } else {
                pages_of(areas)[vpn]
            },
    );
    assert forall|vpn: int| pages_of(new).contains_key(vpn) == target.contains_key(vpn) by {
        if pages_of(new).contains_key(vpn) {
            let i = owner_of(new, vpn);
            assert(new[i].region().contains(vpn));
            if i < n {
                assert(areas[i].region().contains(vpn));
            }
        }
        if pages_of(areas).contains_key(vpn) {
            let i = owner_of(areas, vpn);
            assert(new[i].region().contains(vpn));
        }
        if a.region().contains(vpn) {
            assert(new[n].region().contains(vpn));
        }
    }
    assert forall|vpn: int| pages_of(new).contains_key(vpn) implies pages_of(new)[vpn]
        == target[vpn] by {
        if a.region().contains(vpn) {
            assert(new[n].region().contains(vpn));
            lemma_owner(new, n, vpn);
        } else {
            let i = owner_of(areas, vpn);
            assert(areas[i].region().contains(vpn));
            assert(new[i].region().contains(vpn));
            lemma_owner(new, i, vpn);
        }
    }
    assert(pages_of(new) =~= target);
}

/// Replacing the area that holds page `vpn` by pieces that together hold
/// all of its pages but `vpn`, with the same rights and bytes, keeps the
/// list well-formed and removes exactly page `vpn`.
proof fn lemma_replace_area(old_areas: Seq<MapArea>, i: int, vpn: int, pieces: Seq<MapArea>)
    requires
        areas_wf(old_areas),
        0 <= i < old_areas.len(),
        old_areas[i].region().contains(vpn),
        forall|p: int| 0 <= p < pieces.len() ==> (#[trigger] pieces[p]).wf(),
        forall|p: int|
            0 <= p < pieces.len() ==> old_areas[i].region().start <= (
            #[trigger] pieces[p].region()).start && pieces[p].region().end
                <= old_areas[i].region().end && !pieces[p].region().contains(vpn),
        forall|p: int, q: int|
            0 <= p < pieces.len() && 0 <= q < pieces.len() && p != q ==> (
            #[trigger] pieces[p].region()).disjoint(#[trigger] pieces[q].region()),
        forall|v: int|
            old_areas[i].region().contains(v) && v != vpn ==> exists|p: int|
                0 <= p < pieces.len() && #[trigger] pieces[p].region().contains(v),
        forall|p: int, v: int|
            0 <= p < pieces.len() && (#[trigger] pieces[p].region()).contains(v)
                ==> #[trigger] pieces[p].page(v) == old_areas[i].page(v),
    ensures
        areas_wf(
            old_areas.subrange(0, i) + pieces + old_areas.subrange(i + 1, old_areas.len() as int),
        ),
        pages_of(
            old_areas.subrange(0, i) + pieces + old_areas.subrange(i + 1, old_areas.len() as int),
        ) == pages_of(old_areas).remove(vpn),
        regions_of(
            old_areas.subrange(0, i) + pieces + old_areas.subrange(i + 1, old_areas.len() as int),
        ) == regions_of(old_areas).subrange(0, i) + regions_of(pieces) + regions_of(
            old_areas,
        ).subrange(i + 1, old_areas.len() as int),
{
    let n = old_areas.len() as int;
    let np = pieces.len() as int;
    let new = old_areas.subrange(0, i) + pieces + old_areas.subrange(i + 1, n);
    // Where each area of the new list comes from.
    assert forall|m: int| 0 <= m < new.len() implies (m < i ==> new[m] == old_areas[m]) && (i <= m
        < i + np ==> new[m] == pieces[m - i]) && (i + np <= m ==> new[m] == old_areas[m - np
        + 1]) by {}
    assert forall|m: int| 0 <= m < new.len() implies (#[trigger] new[m]).wf() by {
        if m < i {
            assert(old_areas[m].wf());
        } else if m < i + np {
            assert(pieces[m - i].wf());
        } else {
            assert(old_areas[m - np + 1].wf());
        }
    }
    assert forall|a: int, b: int| 0 <= a < new.len() && 0 <= b < new.len() && a != b implies (
    #[trigger] new[a].region()).disjoint(#[trigger] new[b].region()) by {
        let a_piece = i <= a < i + np;
        let b_piece = i <= b < i + np;
        let ao = if a < i {
            a
        } else {
            a - np + 1
        };
        let bo = if b < i {
            b
        } else {
            b - np + 1
        };
        if a_piece && b_piece {
            assert(pieces[a - i].region().disjoint(pieces[b - i].region()));
        } else if a_piece {
            assert(old_areas[bo].region().disjoint(old_areas[i].region()));
            assert(old_areas[i].region().start <= pieces[a - i].region().start);
            assert(pieces[a - i].wf());
        } else if b_piece {
            assert(old_areas[ao].region().disjoint(old_areas[i].region()));
            assert(old_areas[i].region().start <= pieces[b - i].region().start);
            assert(pieces[b - i].wf());
        } else {
            assert(old_areas[ao].region().disjoint(old_areas[bo].region()));
        }
    }
    assert(areas_wf(new));
    let target = pages_of(old_areas).remove(vpn);
    assert forall|v: int| pages_of(new).contains_key(v) == target.contains_key(v) by {
        if pages_of(new).contains_key(v) {
            let m = owner_of(new, v);
            assert(new[m].region().contains(v));
            if i <= m < i + np {
                assert(pieces[m - i].region().contains(v));
                assert(pieces[m - i].wf());
                assert(old_areas[i].region().contains(v));
            } else {
                let mo = if m < i {
                    m
                } else {
                    m - np + 1
                };
                assert(old_areas[mo].region().contains(v));
                assert(old_areas[mo].region().disjoint(old_areas[i].region()));
            }
        }
        if target.contains_key(v) {
            let j = owner_of(old_areas, v);
            assert(old_areas[j].region().contains(v));
            if j == i {
                let p = choose|p: int| 0 <= p < pieces.len() && #[trigger] pieces[p].region().contains(v);
                assert(new[i + p].region().contains(v));
            } else if j < i {
                assert(new[j].region().contains(v));
            } else {
                assert(new[j + np - 1].region().contains(v));
            }
        }
    }
    assert forall|v: int| pages_of(new).contains_key(v) implies pages_of(new)[v] == target[v] by {
        let m = owner_of(new, v);
        assert(new[m].region().contains(v));
        if i <= m < i + np {
            assert(pieces[m - i].region().contains(v));
            assert(pieces[m - i].page(v) == old_areas[i].page(v));
            assert(pieces[m - i].wf());
            lemma_owner(old_areas, i, v);
        } else {
            let mo = if m < i {
                m
            } else {
                m - np + 1
            };
            assert(old_areas[mo].region().contains(v));
            lemma_owner(old_areas, mo, v);
        }
    }
    assert(pages_of(new) =~= target);
    assert(regions_of(new) =~= regions_of(old_areas).subrange(0, i) + regions_of(pieces)
        + regions_of(old_areas).subrange(i + 1, n));
}

/// Replacing the bytes of one frame changes the contents of its page and
/// nothing else.
proof fn lemma_update_frame(old_areas: Seq<MapArea>, new_areas: Seq<MapArea>, i: int, k: int)
    requires
        areas_wf(old_areas),
        0 <= i < old_areas.len(),
        0 <= k < old_areas[i].frames.len(),
        new_areas.len() == old_areas.len(),
        forall|j: int| 0 <= j < old_areas.len() && j != i ==> new_areas[j] == old_areas[j],
        new_areas[i].start_vpn == old_areas[i].start_vpn,
        new_areas[i].perm == old_areas[i].perm,
        new_areas[i].frames.len() == old_areas[i].frames.len(),
        forall|x: int|
            0 <= x < old_areas[i].frames.len() && x != k ==> new_areas[i].frames[x]
                == old_areas[i].frames[x],
        new_areas[i].frames[k].wf(),
    ensures
        areas_wf(new_areas),
        regions_of(new_areas) == regions_of(old_areas),
        pages_of(new_areas) == pages_of(old_areas).insert(
            old_areas[i].start_vpn + k,
            PageView { perm: old_areas[i].perm, bytes: new_areas[i].frames[k].view() },
        ),
{
    let vpn = old_areas[i].start_vpn + k;
    assert forall|j: int| 0 <= j < new_areas.len() implies new_areas[j].region()
        == old_areas[j].region() && (#[trigger] new_areas[j]).wf() by {
        assert(old_areas[j].wf());
        if j == i {
            assert forall|x: int| 0 <= x < new_areas[i].frames.len() implies (
            #[trigger] new_areas[i].frames[x]).wf() by {
                if x != k {
                    assert(old_areas[i].frames[x].wf());
                }
            }
        }
    }
    assert forall|a: int, b: int|
        0 <= a < new_areas.len() && 0 <= b < new_areas.len() && a != b implies (
    #[trigger] new_areas[a].region()).disjoint(#[trigger] new_areas[b].region()) by {
        assert(old_areas[a].region().disjoint(old_areas[b].region()));
    }
    assert(areas_wf(new_areas));
    assert(regions_of(new_areas) =~= regions_of(old_areas));
    let target = pages_of(old_areas).insert(
        vpn,
        PageView { perm: old_areas[i].perm, bytes: new_areas[i].frames[k].view() },
    );
    assert(old_areas[i].region().contains(vpn));
    lemma_owner(old_areas, i, vpn);
    assert forall|v: int| pages_of(new_areas).contains_key(v) == target.contains_key(v) by {
        if pages_of(new_areas).contains_key(v) {
            let j = owner_of(new_areas, v);
            assert(old_areas[j].region().contains(v));
        }
        if pages_of(old_areas).contains_key(v) {
            let j = owner_of(old_areas, v);
            assert(new_areas[j].region().contains(v));
        }
    }
    assert forall|v: int| pages_of(new_areas).contains_key(v) implies pages_of(new_areas)[v]
        == target[v] by {
        let j = owner_of(new_areas, v);
        assert(new_areas[j].region().contains(v));
        assert(old_areas[j].region().contains(v));
        lemma_owner(old_areas, j, v);
    }
    assert(pages_of(new_areas) =~= target);
}

impl View for MemorySet {
    type V = AddressSpace;

    closed spec fn view(&self) -> AddressSpace {
        AddressSpace {
            pages: pages_of(self.areas@),
            regions: regions_of(self.areas@),
            heap_bottom: self.heap_bottom as int,
            brk: self.brk as int,
        }
    }
}

/// The rights of heap pages: read, write, user.
pub fn heap_permission() -> (p: MapPermission)
    ensures
        p == heap_perm(),
{
    MapPermission { bits: PERM_R | PERM_W | PERM_U }
}

impl MemorySet {
    /// The invariant of the representation.
    pub closed spec fn wf(&self) -> bool {
        &&& areas_wf(self.areas@)
        &&& self.heap_bottom <= self.brk <= MAXVA
        &&& self.heap_bottom % PAGE_SIZE == 0
    }

    /// A well-formed memory set stands for a well-formed address space.
    pub proof fn lemma_view_wf(&self)
        requires
            self.wf(),
        ensures
            self@.wf(),
    {
        let areas = self.areas@;
        let v = self@;
        assert forall|i: int| 0 <= i < v.regions.len() implies 0 <= (#[trigger] v.regions[i]).start
            < v.regions[i].end <= vpn_limit() by {
            assert(areas[i].wf());
        }
        assert forall|i: int, j: int|
            0 <= i < v.regions.len() && 0 <= j < v.regions.len() && i != j implies (
        #[trigger] v.regions[i]).disjoint(#[trigger] v.regions[j]) by {
            assert(areas[i].region().disjoint(areas[j].region()));
        }
        assert forall|vpn: int| #[trigger] v.mapped(vpn) <==> v.covered(vpn) by {
            if v.mapped(vpn) {
                let i = owner_of(areas, vpn);
                assert(v.regions[i].contains(vpn));
            }
            if v.covered(vpn) {
                let i = choose|i: int|
                    0 <= i < v.regions.len() && #[trigger] v.regions[i].contains(vpn);
                assert(areas[i].region().contains(vpn));
            }
        }
        assert forall|vpn: int| #[trigger] v.mapped(vpn) implies v.pages[vpn].perm
            == v.regions[v.region_of(vpn)].perm && v.pages[vpn].bytes.len() == PAGE_SIZE by {
            let i = owner_of(areas, vpn);
            assert(areas[i].region().contains(vpn));
            assert(v.regions[i].contains(vpn));
            let j = v.region_of(vpn);
            assert(v.regions[j].contains(vpn));
            assert(areas[j].region().contains(vpn));
            lemma_owner(areas, j, vpn);
            assert(areas[i].wf());
            assert(areas[i].frames[vpn - areas[i].start_vpn].wf());
        }
    }

    /// An address space with nothing mapped and an empty heap at address 0.
    pub fn new_bare() -> (ms: MemorySet)
        ensures
            ms.wf(),
            ms@ == AddressSpace::empty(0),
    {
        let ms = MemorySet { areas: Vec::new(), heap_bottom: 0, brk: 0 };
        assert(ms@.pages =~= Map::<int, PageView>::empty());
        assert(ms@.regions =~= Seq::<Region>::empty());
        ms
    }

    /// The index of the area that holds page `vpn`, if any.
    fn find_area(&self, vpn: usize) -> (r: Option<usize>)
        requires
            self.wf(),
        ensures
            match r {
                Some(i) => i < self.areas.len() && self.areas[i as int].region().contains(vpn as int)
                    && owner_of(self.areas@, vpn as int) == i && self@.region_of(vpn as int) == i,
                None => !covered_by(self.areas@, vpn as int),
            },
            r.is_some() == self@.mapped(vpn as int),
    {
        let mut i: usize = 0;
        while i < self.areas.len()
            invariant
                self.wf(),
                i <= self.areas.len(),
                forall|j: int| 0 <= j < i ==> !(#[trigger] self.areas[j].region()).contains(vpn as int),
            decreases self.areas.len() - i,
        {
            let area = &self.areas[i];
            if area.start_vpn <= vpn && vpn - area.start_vpn < area.frames.len() {
                proof {
                    lemma_owner(self.areas@, i as int, vpn as int);
                    self.lemma_view_wf();
                    let j = self@.region_of(vpn as int);
                    assert(self@.regions[i as int].contains(vpn as int));
                    assert(self@.regions[j].contains(vpn as int));
                    assert(self.areas[j].region().contains(vpn as int));
                    lemma_owner(self.areas@, j, vpn as int);
                }
                return Some(i);
            }
            i = i + 1;
        }
        None
    }

    /// The page-table lookup: the entry of page `vpn`, or `None` if the page
    /// is not mapped.
    pub fn translate(&self, vpn: usize) -> (r: Option<PageTableEntry>)
        requires
            self.wf(),
        ensures
            r == self@.translate(vpn as int),
    {
        match self.find_area(vpn) {
            Some(i) => {
                proof {
                    lemma_owner(self.areas@, i as int, vpn as int);
                }
                Some(PageTableEntry::for_perm(self.areas[i].perm))
            },
            None => None,
        }
    }

    /// Whether no page of `[start_vpn, end_vpn)` is mapped.
    pub fn range_is_free(&self, start_vpn: usize, end_vpn: usize) -> (free: bool)
        requires
            self.wf(),
        ensures
            free == self@.range_free(start_vpn as int, end_vpn as int),
    {
        if start_vpn >= end_vpn {
            return true;
        }
        let mut i: usize = 0;
        while i < self.areas.len()
            invariant
                self.wf(),
                start_vpn < end_vpn,
                i <= self.areas.len(),
                forall|j: int|
                    0 <= j < i ==> (#[trigger] self.areas[j].region()).end <= start_vpn
                        || end_vpn <= self.areas[j].region().start,
            decreases self.areas.len() - i,
        {
            let area = &self.areas[i];
            proof {
                assert(area.wf());
            }
            let area_end: usize = area.start_vpn + area.frames.len();
            if area.start_vpn < end_vpn && start_vpn < area_end {
                proof {
                    let v: int = if start_vpn >= area.start_vpn {
                        start_vpn as int
                    } else {
                        area.start_vpn as int
                    };
                    lemma_owner(self.areas@, i as int, v);
                    assert(self@.mapped(v));
                }
                return false;
            }
            i = i + 1;
        }
        proof {
            assert forall|vpn: int| start_vpn <= vpn < end_vpn implies !#[trigger] self@.mapped(
                vpn,
            ) by {
                if self@.mapped(vpn) {
                    let j = owner_of(self.areas@, vpn);
                    assert(self.areas[j].region().contains(vpn));
                }
            }
        }
        true
    }

    /// Maps the pages from the one that holds `start_va` up to the first
    /// page boundary at or after `end_va` as one new region with rights
    /// `perm`, each page zero-filled. Fails, changing nothing, if one of
    /// these pages is already mapped.
    pub fn insert_framed_area(&mut self, start_va: usize, end_va: usize, perm: MapPermission) -> (ok:
        bool)
        requires
            old(self).wf(),
        ensures
            final(self).wf(),
            ok == old(self)@.range_free(spec_page_floor(start_va as int), spec_page_ceil(end_va as int)),
            ok ==> final(self)@ == old(self)@.map_range(
                spec_page_floor(start_va as int),
                spec_page_ceil(end_va as int),
                perm,
            ),
            !ok ==> final(self)@ == old(self)@,
    {
        let start_vpn = page_floor(start_va);
        let end_vpn = page_ceil(end_va);
        self.insert_pages(start_vpn, end_vpn, perm)
    }

    /// Maps the pages `[start_vpn, end_vpn)` as one new zero-filled region
    /// with rights `perm`, unless one of them is already mapped.
    fn insert_pages(&mut self, start_vpn: usize, end_vpn: usize, perm: MapPermission) -> (ok: bool)
        requires
            old(self).wf(),
            end_vpn <= vpn_limit(),
        ensures
            final(self).wf(),
            ok == old(self)@.range_free(start_vpn as int, end_vpn as int),
            ok ==> final(self)@ == old(self)@.map_range(start_vpn as int, end_vpn as int, perm),
            !ok ==> final(self)@ == old(self)@,
    {
        if !self.range_is_free(start_vpn, end_vpn) {
            return false;
        }
        if start_vpn >= end_vpn {
            return true;
        }
        let count: usize = end_vpn - start_vpn;
        let mut frames: Vec<Frame> = Vec::new();
        while frames.len() < count
            invariant
                frames.len() <= count,
                forall|k: int| 0 <= k < frames.len() ==> (#[trigger] frames[k]).wf(),
                forall|k: int| 0 <= k < frames.len() ==> (#[trigger] frames[k]).view() == zero_page(),
            decreases count - frames.len(),
        {
            frames.push(Frame::zeroed());
        }
        let area = MapArea { start_vpn, perm, frames };
        proof {
            assert(area.wf());
            assert forall|i: int| 0 <= i < self.areas.len() implies (
            #[trigger] self.areas[i].region()).disjoint(area.region()) by {
                let r = self.areas[i].region();
                assert(self.areas[i].wf());
                if !r.disjoint(area.region()) {
                    let v: int = if start_vpn >= r.start {
                        start_vpn as int
                    } else {
                        r.start
                    };
                    lemma_owner(self.areas@, i, v);
                    assert(self@.mapped(v));
                }
            }
            lemma_push_area(self.areas@, area);
        }
        self.areas.push(area);
        proof {
            assert(final(self)@.pages =~= old(self)@.map_range(
                start_vpn as int,
                end_vpn as int,
                perm,
            ).pages);
        }
        true
    }

    /// Unmaps page `vpn`. Fails, changing nothing, if the page is not
    /// mapped.
    pub fn unmap_page(&mut self, vpn: usize) -> (ok: bool)
        requires
            old(self).wf(),
        ensures
            final(self).wf(),
            ok == old(self)@.mapped(vpn as int),
            ok ==> final(self)@ == old(self)@.unmap_page(vpn as int),
            !ok ==> final(self)@ == old(self)@,
    {
        let i = match self.find_area(vpn) {
            Some(i) => i,
            None => {
                return false;
            },
        };
        let ghost old_areas = self.areas@;
        let mut low = self.areas.remove(i);
        let ghost whole = low;
        proof {
            assert(whole == old_areas[i as int]);
            assert(whole.wf());
        }
        let k: usize = vpn - low.start_vpn;
        let high_frames = low.frames.split_off(k + 1);
        let _ = low.frames.pop();
        let high = MapArea { start_vpn: vpn + 1, perm: low.perm, frames: high_frames };
        let ghost mut pieces: Seq<MapArea> = Seq::empty();
        let mut at: usize = i;
        let has_low = low.frames.len() > 0;
        let has_high = high.frames.len() > 0;
        proof {
            if has_low {
                pieces = pieces.push(low);
            }
            if has_high {
                pieces = pieces.push(high);
            }
            assert(low.frames@ =~= whole.frames@.subrange(0, k as int));
            assert(high.frames@ =~= whole.frames@.subrange(k + 1, whole.frames.len() as int));
            assert forall|p: int| 0 <= p < pieces.len() implies (#[trigger] pieces[p]).wf() by {
                assert forall|x: int| 0 <= x < low.frames.len() implies (
                #[trigger] low.frames[x]).wf() by {
                    assert(whole.frames[x].wf());
                }
                assert forall|x: int| 0 <= x < high.frames.len() implies (
                #[trigger] high.frames[x]).wf() by {
                    assert(whole.frames[x + k + 1].wf());
                }
            }
            assert(regions_of(pieces) =~= whole.region().without(vpn as int));
            assert forall|v: int| whole.region().contains(v) && v != vpn implies exists|p: int|
                0 <= p < pieces.len() && #[trigger] pieces[p].region().contains(v) by {
                if v < vpn {
                    assert(pieces[0].region().contains(v));
                } else {
                    assert(pieces[pieces.len() - 1].region().contains(v));
                }
            }
            lemma_replace_area(old_areas, i as int, vpn as int, pieces);
        }
        if has_low {
            self.areas.insert(at, low);
            at = at + 1;
        }
        if has_high {
            self.areas.insert(at, high);
        }
        proof {
            assert(self.areas@ =~= old_areas.subrange(0, i as int) + pieces + old_areas.subrange(
                i + 1,
                old_areas.len() as int,
            ));
            assert(regions_of(old_areas)[i as int] == whole.region());
        }
        true
    }

    /// Unmaps the pages `[start_vpn, end_vpn)` one by one in ascending
    /// order. Stops and fails at the first page that is not mapped; the
    /// pages unmapped before it stay unmapped.
    pub fn remove_region(&mut self, start_vpn: usize, end_vpn: usize) -> (ok: bool)
        requires
            old(self).wf(),
        ensures
            final(self).wf(),
            (final(self)@, ok) == old(self)@.unmap_range(start_vpn as int, end_vpn as int),
    {
        let mut vpn: usize = start_vpn;
        while vpn < end_vpn
            invariant
                self.wf(),
                start_vpn <= vpn,
                old(self)@.unmap_range(start_vpn as int, end_vpn as int) == self@.unmap_range(
                    vpn as int,
                    end_vpn as int,
                ),
            decreases end_vpn - vpn,
        {
            if !self.unmap_page(vpn) {
                return false;
            }
            vpn = vpn + 1;
        }
        true
    }

    /// Unmaps every mapped page of `[start_vpn, end_vpn)`.
    fn clear_pages(&mut self, start_vpn: usize, end_vpn: usize)
        requires
            old(self).wf(),
        ensures
            final(self).wf(),
            final(self)@ == old(self)@.clear_range(start_vpn as int, end_vpn as int),
            final(self).heap_bottom == old(self).heap_bottom,
            final(self).brk == old(self).brk,
    {
        let mut vpn: usize = start_vpn;
        while vpn < end_vpn
            invariant
                self.wf(),
                start_vpn <= vpn,
                self.heap_bottom == old(self).heap_bottom,
                self.brk == old(self).brk,
                old(self)@.clear_range(start_vpn as int, end_vpn as int) == self@.clear_range(
                    vpn as int,
                    end_vpn as int,
                ),
            decreases end_vpn - vpn,
        {
            let _ = self.unmap_page(vpn);
            vpn = vpn + 1;
        }
    }

    /// Moves the program break by `delta` bytes and returns the break as it
    /// was before. Growth maps the pages that the heap newly reaches;
    /// shrinking unmaps the pages that it leaves. Fails, changing nothing,
    /// if the break would fall below the heap's start or rise above
    /// `MAXVA`, or if growth would reach a page that is already mapped.
    pub fn change_brk(&mut self, delta: i32) -> (r: Option<usize>)
        requires
            old(self).wf(),
        ensures
            final(self).wf(),
            r.is_some() == old(self)@.brk_change_valid(delta as int),
            r.is_some() ==> r == Some(old(self)@.brk as usize) && final(self)@ == old(
                self,
            )@.change_brk(delta as int),
            r.is_none() ==> final(self)@ == old(self)@,
    {
        let old_brk: usize = self.brk;
        let new_brk: usize = if delta >= 0 {
            let d: usize = delta as usize;
            if d > MAXVA - old_brk {
                return None;
            }
            old_brk + d
        } else {
            let d: usize = (-(delta as i64)) as usize;
            if d > old_brk - self.heap_bottom {
                return None;
            }
            old_brk - d
        };
        if delta >= 0 {
            let ok = self.insert_pages(page_ceil(old_brk), page_ceil(new_brk), heap_permission());
            if !ok {
                return None;
            }
        } else {
            self.clear_pages(page_ceil(new_brk), page_ceil(old_brk));
        }
        self.brk = new_brk;
        Some(old_brk)
    }

    /// Releases every backing page; nothing is mapped afterwards. Calling
    /// it again changes nothing more.
    pub fn recycle_data_pages(&mut self)
        requires
            old(self).wf(),
        ensures
            final(self).wf(),
            final(self)@ == old(self)@.recycle(),
    {
        self.areas.clear();
        proof {
            assert(self@.pages =~= Map::<int, PageView>::empty());
            assert(self@.regions =~= Seq::<Region>::empty());
        }
    }

    /// A new address space with the same regions, rights, contents and heap
    /// cursor, backed by pages of its own.
    pub fn duplicate(&self) -> (copy: MemorySet)
        requires
            self.wf(),
        ensures
            copy.wf(),
            copy@ == self@,
    {
        let mut areas: Vec<MapArea> = Vec::new();
        let mut i: usize = 0;
        while i < self.areas.len()
            invariant
                self.wf(),
                i <= self.areas.len(),
                areas.len() == i,
                forall|j: int|
                    0 <= j < i ==> (#[trigger] areas[j]).start_vpn == self.areas[j].start_vpn
                        && areas[j].perm == self.areas[j].perm && areas[j].frames.len()
                        == self.areas[j].frames.len(),
                forall|j: int, k: int|
                    0 <= j < i && 0 <= k < self.areas[j].frames.len() ==> (
                    #[trigger] areas[j].frames[k]).wf() && areas[j].frames[k].view()
                        == self.areas[j].frames[k].view(),
            decreases self.areas.len() - i,
        {
            let src = &self.areas[i];
            let mut frames: Vec<Frame> = Vec::new();
            let mut k: usize = 0;
            while k < src.frames.len()
                invariant
                    src.wf(),
                    k <= src.frames.len(),
                    frames.len() == k,
                    forall|x: int|
                        0 <= x < k ==> (#[trigger] frames[x]).wf() && frames[x].view()
                            == src.frames[x].view(),
                decreases src.frames.len() - k,
            {
                frames.push(src.frames[k].duplicate());
                k = k + 1;
            }
            areas.push(MapArea { start_vpn: src.start_vpn, perm: src.perm, frames });
            i = i + 1;
        }
        let copy = MemorySet { areas, heap_bottom: self.heap_bottom, brk: self.brk };
        proof {
            let a = self.areas@;
            let b = copy.areas@;
            assert forall|j: int| 0 <= j < b.len() implies b[j].region() == a[j].region() && (
            #[trigger] b[j]).wf() by {
                assert(a[j].wf());
            }
            assert forall|j: int, q: int|
                0 <= j < b.len() && 0 <= q < b.len() && j != q implies (
            #[trigger] b[j].region()).disjoint(#[trigger] b[q].region()) by {
                assert(a[j].region().disjoint(a[q].region()));
            }
            assert(areas_wf(b));
            assert(regions_of(b) =~= regions_of(a));
            assert forall|v: int| pages_of(b).contains_key(v) == pages_of(a).contains_key(v) by {
                if pages_of(b).contains_key(v) {
                    let j = owner_of(b, v);
                    assert(a[j].region().contains(v));
                }
                if pages_of(a).contains_key(v) {
                    let j = owner_of(a, v);
                    assert(b[j].region().contains(v));
                }
            }
            assert forall|v: int| pages_of(b).contains_key(v) implies pages_of(b)[v] == pages_of(
                a,
            )[v] by {
                let j = owner_of(b, v);
                assert(b[j].region().contains(v));
                assert(a[j].region().contains(v));
                lemma_owner(a, j, v);
                assert(a[j].wf());
            }
            assert(pages_of(b) =~= pages_of(a));
        }
        copy
    }

    /// Whether every page of `[start_vpn, end_vpn)` is mapped.
    pub fn range_is_mapped(&self, start_vpn: usize, end_vpn: usize) -> (all: bool)
        requires
            self.wf(),
        ensures
            all == self@.range_mapped(start_vpn as int, end_vpn as int),
    {
        let mut vpn: usize = start_vpn;
        while vpn < end_vpn
            invariant
                self.wf(),
                start_vpn <= vpn,
                self@.range_mapped(start_vpn as int, vpn as int),
            decreases end_vpn - vpn,
        {
            if self.find_area(vpn).is_none() {
                return false;
            }
            vpn = vpn + 1;
        }
        true
    }

    /// Whether every byte of the buffer of `len` bytes at `va` lies in a
    /// mapped page.
    pub fn buffer_is_mapped(&self, va: usize, len: usize) -> (all: bool)
        requires
            self.wf(),
        ensures
            all == self@.buffer_mapped(va as int, len as int),
            all && len > 0 ==> va + len - 1 <= usize::MAX,
    {
        if len == 0 {
            return true;
        }
        proof {
            self.lemma_view_wf();
        }
        match va.checked_add(len - 1) {
            None => {
                proof {
                    let v = spec_page_floor(va + len - 1);
                    assert(v >= vpn_limit());
                    assert(spec_page_floor(va as int) <= v < spec_page_ceil(va + len));
                    if self@.mapped(v) {
                        assert(self@.covered(v));
                    }
                }
                false
            },
            Some(last) => self.range_is_mapped(page_floor(va), page_floor(last) + 1),
        }
    }

    /// Copies `data` into the address space at the addresses from `va` on,
    /// page by page, so that the buffer may span pages that are not
    /// neighbours in physical memory. Fails, changing nothing, unless every
    /// byte of the destination lies in a mapped page.
    pub fn write_bytes(&mut self, va: usize, data: &Vec<u8>) -> (ok: bool)
        requires
            old(self).wf(),
        ensures
            final(self).wf(),
            ok == old(self)@.buffer_mapped(va as int, data.len() as int),
            ok ==> final(self)@ == old(self)@.write(va as int, data@),
            !ok ==> final(self)@ == old(self)@,
    {
        let len = data.len();
        if !self.buffer_is_mapped(va, len) {
            return false;
        }
        let mut done: usize = 0;
        proof {
            self.lemma_view_wf();
            let start = self@.write(va as int, data@.subrange(0, 0));
            assert forall|v: int| self@.pages.contains_key(v) implies #[trigger] self@.pages[v]
                == start.pages[v] by {
                assert(self@.pages[v].bytes =~= start.pages[v].bytes);
            }
            assert(self@.pages =~= start.pages);
        }
        while done < len
            invariant
                self.wf(),
                old(self).wf(),
                old(self)@.wf(),
                len == data.len(),
                done <= len,
                len > 0 ==> va + len - 1 <= usize::MAX,
                old(self)@.buffer_mapped(va as int, len as int),
                self@ == old(self)@.write(va as int, data@.subrange(0, done as int)),
            decreases len - done,
        {
            let a: usize = va + done;
            let vpn: usize = a / PAGE_SIZE;
            let off: usize = a % PAGE_SIZE;
            let room: usize = PAGE_SIZE - off;
            let count: usize = if len - done < room {
                len - done
            } else {
                room
            };
            proof {
                assert(old(self)@.mapped(vpn as int));
                assert(self@.mapped(vpn as int));
            }
            let i = self.find_area(vpn).unwrap();
            let ghost before = self.areas@;
            let ghost before_view = self@;
            let k: usize = vpn - self.areas[i].start_vpn;
            proof {
                assert(before[i as int].wf());
                assert(before[i as int].frames[k as int].wf());
                lemma_owner(before, i as int, vpn as int);
            }
            let area = &mut self.areas[i];
            let frame = &mut area.frames[k];
            frame.store(off, data, done, count);
            proof {
                lemma_update_frame(before, self.areas@, i as int, k as int);
                let next = old(self)@.write(va as int, data@.subrange(0, done + count));
                let prev = data@.subrange(0, done as int);
                let cur = data@.subrange(0, done + count);
                assert forall|v: int| self@.pages.contains_key(v) implies #[trigger] self@.pages[v]
                    == next.pages[v] by {
                    if v == vpn {
                        assert(self@.pages[v].bytes =~= next.pages[v].bytes);
                    } else {
                        assert(self@.pages[v] == before_view.pages[v]);
                        assert(before_view.pages[v].bytes =~= next.pages[v].bytes);
                    }
                }
                assert(self@.pages =~= next.pages);
            }
            done = done + count;
        }
        proof {
            assert(data@.subrange(0, len as int) =~= data@);
        }
        true
    }

    /// Copies the `len` bytes at the addresses from `va` on out of the
    /// address space. Yields `None` unless every byte of the source lies in
    /// a mapped page.
    pub fn read_bytes(&self, va: usize, len: usize) -> (r: Option<Vec<u8>>)
        requires
            self.wf(),
        ensures
            r.is_some() == self@.buffer_mapped(va as int, len as int),
            r.is_some() ==> r.unwrap()@ == self@.read(va as int, len as int),
    {
        if !self.buffer_is_mapped(va, len) {
            return None;
        }
        let mut out: Vec<u8> = Vec::new();
        let mut done: usize = 0;
        while done < len
            invariant
                self.wf(),
                done <= len,
                len > 0 ==> va + len - 1 <= usize::MAX,
                self@.buffer_mapped(va as int, len as int),
                out@ == self@.read(va as int, done as int),
            decreases len - done,
        {
            let a: usize = va + done;
            let vpn: usize = a / PAGE_SIZE;
            let off: usize = a % PAGE_SIZE;
            proof {
                assert(self@.mapped(vpn as int));
            }
            let i = self.find_area(vpn).unwrap();
            let area = &self.areas[i];
            proof {
                assert(area.wf());
                assert(area.frames[vpn - area.start_vpn].wf());
                lemma_owner(self.areas@, i as int, vpn as int);
            }
            let b = area.frames[vpn - area.start_vpn].load(off);
            out.push(b);
            done = done + 1;
            proof {
                assert(out@ =~= self@.read(va as int, done as int));
            }
        }
        Some(out)
    }

    /// The byte at address `a`, or `None` if `a` lies in no mapped page.
    fn load_byte(&self, a: usize) -> (r: Option<u8>)
        requires
            self.wf(),
        ensures
            r.is_some() == self@.mapped(spec_page_floor(a as int)),
            r.is_some() ==> r.unwrap() == self@.byte(a as int),
    {
        let vpn: usize = a / PAGE_SIZE;
        let off: usize = a % PAGE_SIZE;
        match self.find_area(vpn) {
            None => None,
            Some(i) => {
                let area = &self.areas[i];
                proof {
                    assert(area.wf());
                    assert(area.frames[vpn - area.start_vpn].wf());
                    lemma_owner(self.areas@, i as int, vpn as int);
                }
                Some(area.frames[vpn - area.start_vpn].load(off))
            },
        }
    }

    /// Copies the zero-terminated text at `va` out of the address space,
    /// without its terminating zero. Yields `None` if an unmapped page
    /// comes before a zero byte.
    pub fn read_text(&self, va: usize) -> (r: Option<Vec<u8>>)
        requires
            self.wf(),
        ensures
            r.is_some() == self@.has_text(va as int),
            r.is_some() ==> r.unwrap()@ == self@.text(va as int),
    {
        let mut out: Vec<u8> = Vec::new();
        let mut i: usize = 0;
        proof {
            self.lemma_view_wf();
        }
        loop
            invariant
                self.wf(),
                self@.wf(),
                va + i <= usize::MAX,
                out.len() == i,
                forall|j: int| 0 <= j < i ==> #[trigger] self@.text_byte(va as int, j),
                out@ == self@.read(va as int, i as int),
            decreases usize::MAX - i,
        {
            let a: usize = va + i;
            let b = match self.load_byte(a) {
                None => {
                    proof {
                        if self@.has_text(va as int) {
                            let n = choose|n: int| self@.is_text(va as int, n);
                            if n < i {
                                assert(self@.text_byte(va as int, n));
                            } else if n > i {
                                assert(self@.text_byte(va as int, i as int));
                            }
                        }
                    }
                    return None;
                },
                Some(b) => b,
            };
            if b == 0 {
                proof {
                    assert(self@.is_text(va as int, i as int));
                    let n = choose|n: int| self@.is_text(va as int, n);
                    lemma_text_unique(self@, va as int, n, i as int);
                }
                return Some(out);
            }
            out.push(b);
            if a == usize::MAX {
                proof {
                    assert(self@.text_byte(va as int, i as int));
                    if self@.has_text(va as int) {
                        let n = choose|n: int| self@.is_text(va as int, n);
                        if n <= i {
                            assert(self@.text_byte(va as int, n));
                        } else {
                            let v = spec_page_floor(va + i + 1);
                            assert(v >= vpn_limit());
                            if n == i + 1 {
                                assert(self@.mapped(v));
                            } else {
                                assert(self@.text_byte(va as int, i + 1));
                            }
                            assert(self@.covered(v));
                        }
                    }
                }
                return None;
            }
            i = i + 1;
            proof {
                assert(out@ =~= self@.read(va as int, i as int));
            }
        }
    }

    /// Puts an empty heap at `bottom`.
    pub fn set_heap(&mut self, bottom: usize)
        requires
            old(self).wf(),
            bottom <= MAXVA,
            bottom % PAGE_SIZE == 0,
        ensures
            final(self).wf(),
            final(self)@ == (AddressSpace {
                heap_bottom: bottom as int,
                brk: bottom as int,
                ..old(self)@
            }),
    {
        self.heap_bottom = bottom;
        self.brk = bottom;
    }

    /// Where the heap starts.
    pub fn heap_bottom(&self) -> (r: usize)
        ensures
            r == self@.heap_bottom,
    {
        self.heap_bottom
    }

    /// The program break.
    pub fn program_brk(&self) -> (r: usize)
        ensures
            r == self@.brk,
    {
        self.brk
    }
}

} // verus!
