//! The mathematical model of an address space: which pages are mapped,
//! with which rights and contents, how they are grouped into regions, and
//! where the program break stands.
use vstd::prelude::*;
use crate::config::{MAXVA, PAGE_SIZE, spec_page_ceil, spec_page_floor};
use crate::mm::flags::{MapPermission, PageTableEntry, PERM_R, PERM_U, PERM_W};

verus! {

/// One past the largest page number whose bytes all have an address.
pub open spec fn vpn_limit() -> int {
    usize::MAX as int / (PAGE_SIZE as int) + 1
}

/// A page filled with zero bytes.
pub open spec fn zero_page() -> Seq<u8> {
    Seq::new(PAGE_SIZE as nat, |i: int| 0u8)
}

/// The rights of heap pages: read, write, user.
pub open spec fn heap_perm() -> MapPermission {
    MapPermission { bits: PERM_R | PERM_W | PERM_U }
}

/// A mapped page: its access rights and its bytes.
pub struct PageView {
    pub perm: MapPermission,
    pub bytes: Seq<u8>,
}

/// A contiguous span of mapped pages `[start, end)` with common rights.
pub struct Region {
    pub start: int,
    pub end: int,
    pub perm: MapPermission,
}

impl Region {
    pub open spec fn contains(self, vpn: int) -> bool {
        self.start <= vpn < self.end
    }

    pub open spec fn disjoint(self, other: Region) -> bool {
        self.end <= other.start || other.end <= self.start
    }

    /// What is left of the region once page `vpn` is taken out of it: the
    /// part below `vpn` and the part above it, each only if it is not empty.
    pub open spec fn without(self, vpn: int) -> Seq<Region> {
        let low = if self.start < vpn {
            seq![Region { start: self.start, end: vpn, perm: self.perm }]
        } else {
            Seq::<Region>::empty()
        };
        let high = if vpn + 1 < self.end {
            seq![Region { start: vpn + 1, end: self.end, perm: self.perm }]
        } else {
            Seq::<Region>::empty()
        };
        low + high
    }
}

/// The state of one address space.
#[verifier::ext_equal]
pub struct AddressSpace {
    /// The mapped pages, by page number.
    pub pages: Map<int, PageView>,
    /// The mapped regions, in the order in which they were created.
    pub regions: Seq<Region>,
    /// Where the heap starts.
    pub heap_bottom: int,
    /// The program break: the first address above the heap.
    pub brk: int,
}

impl AddressSpace {
    /// The address space with nothing mapped and an empty heap at `heap_bottom`.
    pub open spec fn empty(heap_bottom: int) -> AddressSpace {
        AddressSpace {
            pages: Map::empty(),
            regions: Seq::empty(),
            heap_bottom: heap_bottom,
            brk: heap_bottom,
        }
    }

    pub open spec fn mapped(self, vpn: int) -> bool {
        self.pages.contains_key(vpn)
    }

    /// Whether some region holds page `vpn`.
    pub open spec fn covered(self, vpn: int) -> bool {
        exists|i: int| 0 <= i < self.regions.len() && #[trigger] self.regions[i].contains(vpn)
    }

    /// The index of a region that holds page `vpn`.
    pub open spec fn region_of(self, vpn: int) -> int {
        choose|i: int| 0 <= i < self.regions.len() && #[trigger] self.regions[i].contains(vpn)
    }

    /// Regions are not empty, lie below [`vpn_limit`] and do not overlap;
    /// a page is mapped exactly if a region holds it, and then has that
    /// region's rights and a full page of bytes; the heap starts on a page
    /// boundary and the break is between the heap's start and `MAXVA`.
    pub open spec fn wf(self) -> bool {
        &&& forall|i: int|
            0 <= i < self.regions.len() ==> 0 <= (#[trigger] self.regions[i]).start
                < self.regions[i].end <= vpn_limit()
        &&& forall|i: int, j: int|
            0 <= i < self.regions.len() && 0 <= j < self.regions.len() && i != j
                ==> (#[trigger] self.regions[i]).disjoint(#[trigger] self.regions[j])
        &&& forall|vpn: int| #[trigger] self.mapped(vpn) <==> self.covered(vpn)
        &&& forall|vpn: int|
            #[trigger] self.mapped(vpn) ==> self.pages[vpn].perm == self.regions[self.region_of(
                vpn,
            )].perm && self.pages[vpn].bytes.len() == PAGE_SIZE
        &&& 0 <= self.heap_bottom <= self.brk <= MAXVA
        &&& self.heap_bottom % (PAGE_SIZE as int) == 0
    }

    /// The page-table lookup: the entry of page `vpn` if it is mapped.
    pub open spec fn translate(self, vpn: int) -> Option<PageTableEntry> {
        if self.mapped(vpn) {
            Some(PageTableEntry::spec_for_perm(self.pages[vpn].perm))
        } else {
            None
        }
    }

    /// No page of `[start, end)` is mapped.
    pub open spec fn range_free(self, start: int, end: int) -> bool {
        forall|vpn: int| start <= vpn < end ==> !#[trigger] self.mapped(vpn)
    }

    /// Every page of `[start, end)` is mapped.
    pub open spec fn range_mapped(self, start: int, end: int) -> bool {
        forall|vpn: int| start <= vpn < end ==> #[trigger] self.mapped(vpn)
    }

    /// The space with the pages `[start, end)` mapped afresh as one new
    /// region with rights `perm`, each page filled with zeros.
    pub open spec fn map_range(self, start: int, end: int, perm: MapPermission) -> AddressSpace {
        if start < end {
            AddressSpace {
                pages: Map::new(
                    |vpn: int| self.mapped(vpn) || start <= vpn < end,
                    |vpn: int|
                        if start <= vpn < end {
                            PageView { perm: perm, bytes: zero_page() }
                        } else {
                            self.pages[vpn]
                        },
                ),
                regions: self.regions.push(Region { start: start, end: end, perm: perm }),
                ..self
            }
        } else {
            self
        }
    }

    /// The space with page `vpn` unmapped; the region that held it shrinks
    /// or splits in place.
    pub open spec fn unmap_page(self, vpn: int) -> AddressSpace {
        let i = self.region_of(vpn);
        AddressSpace {
            pages: self.pages.remove(vpn),
            regions: self.regions.subrange(0, i) + self.regions[i].without(vpn)
                + self.regions.subrange(i + 1, self.regions.len() as int),
            ..self
        }
    }

    /// Unmapping the pages `[start, end)` one by one in ascending order,
    /// stopping at the first that is not mapped. The result holds the space
    /// as it then is, and whether the whole range was unmapped.
    pub open spec fn unmap_range(self, start: int, end: int) -> (AddressSpace, bool)
        decreases end - start,
    {
        if start >= end {
            (self, true)
        } else if !self.mapped(start) {
            (self, false)
        } else {
            self.unmap_page(start).unmap_range(start + 1, end)
        }
    }

    /// The space with every mapped page of `[start, end)` unmapped.
    pub open spec fn clear_range(self, start: int, end: int) -> AddressSpace
        decreases end - start,
    {
        if start >= end {
            self
        } else if !self.mapped(start) {
            self.clear_range(start + 1, end)
        } else {
            self.unmap_page(start).clear_range(start + 1, end)
        }
    }

    /// Whether the break may move by `delta` bytes: it must stay between the
    /// heap's start and `MAXVA`, and the pages that growth newly reaches
    /// must be free.
    pub open spec fn brk_change_valid(self, delta: int) -> bool {
        &&& self.heap_bottom <= self.brk + delta <= MAXVA
        &&& delta >= 0 ==> self.range_free(
            spec_page_ceil(self.brk),
            spec_page_ceil(self.brk + delta),
        )
    }

    /// The space after the break moved by `delta` bytes: growth maps the
    /// pages that the heap newly reaches, shrinking unmaps those it leaves.
    pub open spec fn change_brk(self, delta: int) -> AddressSpace {
        let new_brk = self.brk + delta;
        let moved = if delta >= 0 {
            self.map_range(spec_page_ceil(self.brk), spec_page_ceil(new_brk), heap_perm())
        } else {
            self.clear_range(spec_page_ceil(new_brk), spec_page_ceil(self.brk))
        };
        AddressSpace { brk: new_brk, ..moved }
    }

    /// The space with nothing mapped any more; the heap cursor stays.
    pub open spec fn recycle(self) -> AddressSpace {
        AddressSpace { pages: Map::empty(), regions: Seq::empty(), ..self }
    }

    /// The byte at address `va`.
    pub open spec fn byte(self, va: int) -> u8 {
        self.pages[spec_page_floor(va)].bytes[va % (PAGE_SIZE as int)]
    }

    /// Whether every byte of the buffer `[va, va + len)` lies in a mapped
    /// page.
    pub open spec fn buffer_mapped(self, va: int, len: int) -> bool {
        len > 0 ==> self.range_mapped(spec_page_floor(va), spec_page_ceil(va + len))
    }

    /// The bytes of the buffer `[va, va + len)`.
    pub open spec fn read(self, va: int, len: int) -> Seq<u8> {
        Seq::new(len as nat, |i: int| self.byte(va + i))
    }

    /// Whether byte number `i` of the text at `va` lies in a mapped page and
    /// is not the terminating zero.
    pub open spec fn text_byte(self, va: int, i: int) -> bool {
        self.mapped(spec_page_floor(va + i)) && self.byte(va + i) != 0
    }

    /// Whether a zero-terminated text of `n` bytes stands at `va`: `n` bytes
    /// that are not zero, then a zero byte, all in mapped pages.
    pub open spec fn is_text(self, va: int, n: int) -> bool {
        &&& n >= 0
        &&& forall|i: int| 0 <= i < n ==> #[trigger] self.text_byte(va, i)
        &&& self.mapped(spec_page_floor(va + n))
        &&& self.byte(va + n) == 0
    }

    /// Whether a zero-terminated text stands at `va`.
    pub open spec fn has_text(self, va: int) -> bool {
        exists|n: int| self.is_text(va, n)
    }

    /// The zero-terminated text at `va`, without its terminating zero.
    pub open spec fn text(self, va: int) -> Seq<u8> {
        self.read(va, choose|n: int| self.is_text(va, n))
    }

    /// The space with `data` stored at the addresses from `va` on.
    pub open spec fn write(self, va: int, data: Seq<u8>) -> AddressSpace {
        AddressSpace {
            pages: Map::new(
                |vpn: int| self.mapped(vpn),
                |vpn: int|
                    PageView {
                        perm: self.pages[vpn].perm,
                        bytes: Seq::new(
                            self.pages[vpn].bytes.len(),
                            |off: int|
                                {
                                    let a = vpn * (PAGE_SIZE as int) + off;
                                    if va <= a < va + data.len() {
                                        data[a - va]
                                    } else {
                                        self.pages[vpn].bytes[off]
                                    }
                                },
                        ),
                    },
            ),
            ..self
        }
    }
}

/// A zero-terminated text has one length only.
pub proof fn lemma_text_unique(space: AddressSpace, va: int, n: int, m: int)
    requires
        space.is_text(va, n),
        space.is_text(va, m),
    ensures
        n == m,
{
    if n < m {
        assert(space.text_byte(va, n));
    }
    if m < n {
        assert(space.text_byte(va, m));
    }
}

} // verus!
