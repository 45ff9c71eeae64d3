//! The address region table of a task: the regions of virtual pages that are
//! mapped, kept in step with the page table.

use crate::error::{Error, SUCCESS};
use std::collections::HashMap;
use vstd::prelude::*;

verus! {

/// The size of a page in bytes.
pub const PAGE_SIZE: usize = 4096;

/// The number of the page that holds the address `addr`.
pub open spec fn page_floor(addr: int) -> int {
    addr / 4096
}

/// The number of the first page that starts at or behind the address `addr`.
pub open spec fn page_ceil(addr: int) -> int {
    (addr + 4095) / 4096
}

/// The page ranges `[a_start, a_end)` and `[b_start, b_end)` intersect: neither
/// ends where or before the other starts.
pub open spec fn ranges_overlap(a_start: int, a_end: int, b_start: int, b_end: int) -> bool {
    !(a_end <= b_start || b_end <= a_start)
}

/// What a task may do with the pages of a region.
#[derive(Clone, Copy, Debug, PartialEq, Eq, Structural)]
pub struct MapPermission {
    pub readable: bool,
    pub writable: bool,
    pub executable: bool,
    /// Whether code that runs in user mode may touch the pages.
    pub user: bool,
}

impl MapPermission {
    /// The permission bits of a mapping request are valid: at least one of
    /// read (1), write (2) and execute (4), and no other bit.
    pub open spec fn valid_prot(prot: usize) -> bool {
        1 <= prot <= 7
    }

    /// The permission that the bits `prot` of a mapping request ask for. Pages
    /// mapped on request are always open to user mode.
    pub open spec fn of_prot(prot: usize) -> MapPermission {
        MapPermission {
            readable: prot % 2 == 1,
            writable: (prot / 2) % 2 == 1,
            executable: (prot / 4) % 2 == 1,
            user: true,
        }
    }

    /// The flag bits of a page table entry with this permission: read is 2,
    /// write 4, execute 8 and user 16.
    pub open spec fn spec_bits(self) -> int {
        (if self.readable {
            2int
        } else {
            0int
        }) + (if self.writable {
            4int
        } else {
            0int
        }) + (if self.executable {
            8int
        } else {
            0int
        }) + (if self.user {
            16int
        } else {
            0int
        })
    }

    /// The permission for the bits `prot`, or nothing where they are not
    /// valid.
    pub fn from_prot(prot: usize) -> (permission: Option<MapPermission>)
        ensures
            permission == (if MapPermission::valid_prot(prot) {
                Some(MapPermission::of_prot(prot))
            } else {
                None
            }),
    {
        if prot == 0 || prot > 7 {
            return None;
        }
        Some(
            MapPermission {
                readable: prot % 2 == 1,
                writable: (prot / 2) % 2 == 1,
                executable: (prot / 4) % 2 == 1,
                user: true,
            },
        )
    }

    /// The flag bits of a page table entry with this permission.
    pub fn bits(&self) -> (bits: u8)
        ensures
            bits == self.spec_bits(),
    {
        let mut bits: u8 = 0;
        if self.readable {
            bits = bits + 2;
        }
        if self.writable {
            bits = bits + 4;
        }
        if self.executable {
            bits = bits + 8;
        }
        if self.user {
            bits = bits + 16;
        }
        bits
    }
}

/// A contiguous range of virtual pages with one permission: the pages from
/// `start` up to, not including, `end`.
#[derive(Clone, Copy, Debug, PartialEq, Eq, Structural)]
pub struct VirtualRegion {
    pub start: usize,
    pub end: usize,
    pub permission: MapPermission,
}

impl VirtualRegion {
    /// The page `vpn` belongs to the region.
    pub open spec fn contains(self, vpn: int) -> bool {
        self.start <= vpn < self.end
    }

    /// The region intersects the page range `[start, end)`.
    pub open spec fn overlaps(self, start: int, end: int) -> bool {
        ranges_overlap(self.start as int, self.end as int, start, end)
    }

    /// The region is exactly the page range `[start, end)`.
    pub open spec fn spans(self, start: int, end: int) -> bool {
        self.start == start && self.end == end
    }
}

/// Some region of `regions` intersects the page range `[start, end)`.
pub open spec fn any_overlap(regions: Seq<VirtualRegion>, start: int, end: int) -> bool {
    exists|i: int| 0 <= i < regions.len() && (#[trigger] regions[i]).overlaps(start, end)
}

/// The index of the last region of `regions` that is exactly the page range
/// `[start, end)`, or -1 if there is none.
pub open spec fn last_span(regions: Seq<VirtualRegion>, start: int, end: int) -> int
    decreases regions.len(),
{
    if regions.len() == 0 {
        -1
    } else if regions.last().spans(start, end) {
        regions.len() - 1
    } else {
        last_span(regions.drop_last(), start, end)
    }
}

/// `pages` with every page of `[start, end)` mapped with `permission`.
pub open spec fn with_pages(
    pages: Map<usize, MapPermission>,
    start: int,
    end: int,
    permission: MapPermission,
) -> Map<usize, MapPermission> {
    Map::new(
        |vpn: usize| pages.contains_key(vpn) || start <= vpn < end,
        |vpn: usize|
            if start <= vpn < end {
                permission
            } else {
                pages[vpn]
            },
    )
}

/// `pages` without the pages of `[start, end)`.
pub open spec fn without_pages(pages: Map<usize, MapPermission>, start: int, end: int) -> Map<
    usize,
    MapPermission,
> {
    Map::new(|vpn: usize| pages.contains_key(vpn) && !(start <= vpn < end), |vpn: usize| pages[vpn])
}

/// The address region table of a task as a mathematical value.
pub struct MemoryView {
    /// The mapped regions, in the order in which they were mapped.
    pub regions: Seq<VirtualRegion>,
    /// The page table: the permission of every mapped page.
    pub pages: Map<usize, MapPermission>,
}

impl MemoryView {
    /// A table without regions and a page table without pages.
    pub open spec fn empty() -> MemoryView {
        MemoryView { regions: Seq::empty(), pages: Map::empty() }
    }

    /// No two regions intersect, and the page table maps exactly the pages of
    /// the regions, each with the permission of its region.
    pub open spec fn wf(self) -> bool {
        &&& forall|i: int| 0 <= i < self.regions.len() ==> (#[trigger] self.regions[i]).start
            <= self.regions[i].end
        &&& forall|i: int, j: int|
            0 <= i < self.regions.len() && 0 <= j < self.regions.len() && i != j ==> !(
            #[trigger] self.regions[i]).overlaps(
                (#[trigger] self.regions[j]).start as int,
                self.regions[j].end as int,
            )
        &&& forall|vpn: usize| #[trigger]
            self.pages.contains_key(vpn) <==> exists|i: int|
                0 <= i < self.regions.len() && (#[trigger] self.regions[i]).contains(vpn as int)
        &&& forall|i: int, vpn: usize|
            0 <= i < self.regions.len() && (#[trigger] self.regions[i]).contains(vpn as int)
                ==> #[trigger] self.pages[vpn] == self.regions[i].permission
    }

    /// Why the bytes from `start` on, `len` of them, cannot be mapped with the
    /// permission bits `prot`, if they cannot: the address is not aligned to a
    /// page, the bits are not valid, the range ends behind the last address,
    /// or a page of it intersects a mapped region.
    pub open spec fn map_error(self, start: usize, len: usize, prot: usize) -> Option<Error> {
        if start % 4096 != 0 || !MapPermission::valid_prot(prot) || start + len > usize::MAX {
            Some(Error::InvalidArgument)
        } else if any_overlap(self.regions, page_floor(start as int), page_ceil(start + len)) {
            Some(Error::Overlap)
        } else {
            None
        }
    }

    /// The table after the bytes from `start` on, `len` of them, were mapped
    /// with the permission bits `prot`: a new region of the pages from the one
    /// of `start` to the last one that holds any of the bytes, each of them in
    /// the page table.
    pub open spec fn map(self, start: usize, len: usize, prot: usize) -> MemoryView {
        let first = page_floor(start as int);
        let end = page_ceil(start + len);
        let permission = MapPermission::of_prot(prot);
        MemoryView {
            regions: self.regions.push(
                VirtualRegion { start: first as usize, end: end as usize, permission },
            ),
            pages: with_pages(self.pages, first, end, permission),
        }
    }

    /// Why the bytes from `start` on, `len` of them, cannot be unmapped, if
    /// they cannot: the address is not aligned to a page, the range ends
    /// behind the last address, or no region is exactly their pages.
    pub open spec fn unmap_error(self, start: usize, len: usize) -> Option<Error> {
        if start % 4096 != 0 || start + len > usize::MAX {
            Some(Error::InvalidArgument)
        } else if last_span(self.regions, page_floor(start as int), page_ceil(start + len)) < 0 {
            Some(Error::NotFound)
        } else {
            None
        }
    }

    /// The table after the bytes from `start` on, `len` of them, were
    /// unmapped: without the last region that is exactly their pages, and
    /// without those pages in the page table.
    pub open spec fn unmap(self, start: usize, len: usize) -> MemoryView {
        let first = page_floor(start as int);
        let end = page_ceil(start + len);
        MemoryView {
            regions: self.regions.remove(last_span(self.regions, first, end)),
            pages: without_pages(self.pages, first, end),
        }
    }
}

/// The page table of a task: the permission of every mapped page.
pub struct PageTable {
    pub(crate) entries: HashMap<usize, MapPermission>,
}

impl View for PageTable {
    type V = Map<usize, MapPermission>;

    open(crate) spec fn view(&self) -> Map<usize, MapPermission> {
        self.entries@
    }
}

impl PageTable {
    /// A page table without pages.
    pub fn new() -> (table: Self)
        ensures
            table@ == Map::<usize, MapPermission>::empty(),
    {
        PageTable { entries: HashMap::new() }
    }

    /// The entries of the table.
    pub fn entries(&self) -> (entries: &HashMap<usize, MapPermission>)
        ensures
            entries@ == self@,
    {
        &self.entries
    }

    /// Maps the page `vpn` with `permission`.
    pub fn map(&mut self, vpn: usize, permission: MapPermission)
        ensures
            final(self)@ == old(self)@.insert(vpn, permission),
    {
        self.entries.insert(vpn, permission);
    }

    /// Takes the page `vpn` out of the table.
    pub fn unmap(&mut self, vpn: usize)
        ensures
            final(self)@ == old(self)@.remove(vpn),
    {
        self.entries.remove(&vpn);
    }

    /// The permission with which the page `vpn` is mapped, if it is.
    pub fn translate(&self, vpn: usize) -> (permission: Option<MapPermission>)
        ensures
            permission == (if self@.contains_key(vpn) {
                Some(self@[vpn])
            } else {
                None
            }),
    {
        match self.entries.get(&vpn) {
            Some(permission) => Some(*permission),
            None => None,
        }
    }
}

/// What pins `last_span` down: the region at it is the range, and no later
/// one is.
pub proof fn lemma_last_span(regions: Seq<VirtualRegion>, start: int, end: int)
    ensures
        -1 <= last_span(regions, start, end) < regions.len(),
        last_span(regions, start, end) >= 0 ==> regions[last_span(regions, start, end)].spans(
            start,
            end,
        ),
        forall|k: int|
            last_span(regions, start, end) < k < regions.len() ==> !(#[trigger] regions[k]).spans(
                start,
                end,
            ),
    decreases regions.len(),
{
    if regions.len() > 0 && !regions.last().spans(start, end) {
        let front = regions.drop_last();
        lemma_last_span(front, start, end);
        assert forall|k: int| last_span(regions, start, end) < k < regions.len() implies !(
        #[trigger] regions[k]).spans(start, end) by {
            if k < regions.len() - 1 {
                assert(front[k] == regions[k]);
            }
        }
        if last_span(regions, start, end) >= 0 {
            assert(front[last_span(front, start, end)] == regions[last_span(regions, start, end)]);
        }
    }
}

/// An index of which this holds is `last_span`.
pub proof fn lemma_last_span_is(regions: Seq<VirtualRegion>, start: int, end: int, at: int)
    requires
        -1 <= at < regions.len(),
        at >= 0 ==> regions[at].spans(start, end),
        forall|k: int| at < k < regions.len() ==> !(#[trigger] regions[k]).spans(start, end),
    ensures
        last_span(regions, start, end) == at,
{
    lemma_last_span(regions, start, end);
    let found = last_span(regions, start, end);
    if found < at {
        assert(!regions[at].spans(start, end));
    } else if at < found {
        assert(!regions[found].spans(start, end));
    }
}

/// A well-formed table is well formed after a range was mapped that
/// intersects none of its regions.
pub proof fn lemma_map_keeps_wf(table: MemoryView, start: usize, len: usize, prot: usize)
    requires
        table.wf(),
        table.map_error(start, len, prot) is None,
    ensures
        table.map(start, len, prot).wf(),
{
    let next = table.map(start, len, prot);
    let first = page_floor(start as int);
    let end = page_ceil(start + len);
    let n = table.regions.len() as int;
    let fresh = next.regions[n];
    assert(fresh.start == first && fresh.end == end);
    assert forall|i: int| 0 <= i < n implies next.regions[i] == table.regions[i] && !(
    #[trigger] table.regions[i]).overlaps(first, end) by {}
    assert forall|i: int, j: int|
        0 <= i < next.regions.len() && 0 <= j < next.regions.len() && i != j implies !(
    #[trigger] next.regions[i]).overlaps(
        (#[trigger] next.regions[j]).start as int,
        next.regions[j].end as int,
    ) by {
        if i < n && j < n {
            assert(!table.regions[i].overlaps(
                table.regions[j].start as int,
                table.regions[j].end as int,
            ));
        } else if i < n {
            assert(!table.regions[i].overlaps(first, end));
        } else {
            assert(!table.regions[j].overlaps(first, end));
        }
    }
    assert forall|vpn: usize| #[trigger]
        next.pages.contains_key(vpn) <==> exists|i: int|
            0 <= i < next.regions.len() && (#[trigger] next.regions[i]).contains(vpn as int) by {
        if next.pages.contains_key(vpn) {
            if first <= vpn < end {
                assert(next.regions[n].contains(vpn as int));
            } else {
                assert(table.pages.contains_key(vpn));
                let i = choose|i: int|
                    0 <= i < table.regions.len() && (#[trigger] table.regions[i]).contains(
                        vpn as int,
                    );
                assert(next.regions[i].contains(vpn as int));
            }
        }
        if exists|i: int|
            0 <= i < next.regions.len() && (#[trigger] next.regions[i]).contains(vpn as int) {
            let i = choose|i: int|
                0 <= i < next.regions.len() && (#[trigger] next.regions[i]).contains(vpn as int);
            if i < n {
                assert(table.regions[i].contains(vpn as int));
                assert(table.pages.contains_key(vpn));
            }
        }
    }
    assert forall|i: int, vpn: usize|
        0 <= i < next.regions.len() && (#[trigger] next.regions[i]).contains(
            vpn as int,
        ) implies #[trigger] next.pages[vpn] == next.regions[i].permission by {
        if i < n {
            assert(table.regions[i].contains(vpn as int));
            assert(!table.regions[i].overlaps(first, end));
            assert(table.pages[vpn] == table.regions[i].permission);
        }
    }
}

/// A well-formed table is well formed after a region was unmapped.
pub proof fn lemma_unmap_keeps_wf(table: MemoryView, start: usize, len: usize)
    requires
        table.wf(),
        table.unmap_error(start, len) is None,
    ensures
        table.unmap(start, len).wf(),
{
    let next = table.unmap(start, len);
    let first = page_floor(start as int);
    let end = page_ceil(start + len);
    let at = last_span(table.regions, first, end);
    lemma_last_span(table.regions, first, end);
    let shift = |i: int|
        if i < at {
            i
        } else {
            i + 1
        };
    assert forall|i: int| 0 <= i < next.regions.len() implies #[trigger] next.regions[i]
        == table.regions[shift(i)] by {}
    assert forall|i: int, j: int|
        0 <= i < next.regions.len() && 0 <= j < next.regions.len() && i != j implies !(
    #[trigger] next.regions[i]).overlaps(
        (#[trigger] next.regions[j]).start as int,
        next.regions[j].end as int,
    ) by {
        assert(!table.regions[shift(i)].overlaps(
            table.regions[shift(j)].start as int,
            table.regions[shift(j)].end as int,
        ));
    }
    assert forall|vpn: usize| #[trigger]
        next.pages.contains_key(vpn) <==> exists|i: int|
            0 <= i < next.regions.len() && (#[trigger] next.regions[i]).contains(vpn as int) by {
        if next.pages.contains_key(vpn) {
            assert(table.pages.contains_key(vpn));
            let i = choose|i: int|
                0 <= i < table.regions.len() && (#[trigger] table.regions[i]).contains(vpn as int);
            assert(i != at);
            let k = if i < at {
                i
            } else {
                i - 1
            };
            assert(next.regions[k] == table.regions[shift(k)]);
            assert(next.regions[k].contains(vpn as int));
        }
        if exists|i: int|
            0 <= i < next.regions.len() && (#[trigger] next.regions[i]).contains(vpn as int) {
            let i = choose|i: int|
                0 <= i < next.regions.len() && (#[trigger] next.regions[i]).contains(vpn as int);
            assert(next.regions[i] == table.regions[shift(i)]);
            assert(table.regions[shift(i)].contains(vpn as int));
            assert(table.pages.contains_key(vpn));
            assert(!table.regions[shift(i)].overlaps(
                table.regions[at].start as int,
                table.regions[at].end as int,
            ));
        }
    }
    assert forall|i: int, vpn: usize|
        0 <= i < next.regions.len() && (#[trigger] next.regions[i]).contains(
            vpn as int,
        ) implies #[trigger] next.pages[vpn] == next.regions[i].permission by {
        assert(next.regions[i] == table.regions[shift(i)]);
        assert(table.regions[shift(i)].contains(vpn as int));
        assert(table.pages[vpn] == table.regions[shift(i)].permission);
        assert(!table.regions[shift(i)].overlaps(
            table.regions[at].start as int,
            table.regions[at].end as int,
        ));
    }
}

/// A range that shares a page with a mapped region cannot be mapped: the
/// request is refused as overlapping, whatever else it asks for, provided its
/// arguments are valid.
pub proof fn lemma_shared_page_refused(
    table: MemoryView,
    start: usize,
    len: usize,
    prot: usize,
    i: int,
    vpn: int,
)
    requires
        start % 4096 == 0,
        MapPermission::valid_prot(prot),
        start + len <= usize::MAX,
        0 <= i < table.regions.len(),
        table.regions[i].contains(vpn),
        page_floor(start as int) <= vpn < page_ceil(start + len),
    ensures
        table.map_error(start, len, prot) == Some(Error::Overlap),
{
    assert(table.regions[i].overlaps(page_floor(start as int), page_ceil(start + len)));
}

/// A range of pages that lies inside a mapped region without being all of it,
/// or holds all of a mapped region and more, cannot be unmapped: no region is
/// exactly that range. Both the range and the region have at least one page.
pub proof fn lemma_partial_range_not_found(table: MemoryView, start: usize, len: usize, i: int)
    requires
        table.wf(),
        start % 4096 == 0,
        start + len <= usize::MAX,
        0 <= i < table.regions.len(),
        table.regions[i].start < table.regions[i].end,
        page_floor(start as int) < page_ceil(start + len),
        !table.regions[i].spans(page_floor(start as int), page_ceil(start + len)),
        (table.regions[i].start <= page_floor(start as int) && page_ceil(start + len)
            <= table.regions[i].end) || (page_floor(start as int) <= table.regions[i].start
            && table.regions[i].end <= page_ceil(start + len)),
    ensures
        table.unmap_error(start, len) == Some(Error::NotFound),
{
    let first = page_floor(start as int);
    let end = page_ceil(start + len);
    let at = last_span(table.regions, first, end);
    lemma_last_span(table.regions, first, end);
    if at >= 0 {
        assert(!table.regions[i].overlaps(
            table.regions[at].start as int,
            table.regions[at].end as int,
        ));
    }
}

/// The address region table of a task. It is made by
/// [`AddressRegionTable::new`] and changed by the functions of this library
/// only, which keep it well formed.
pub struct AddressRegionTable {
    /// The mapped regions, in the order in which they were mapped.
    pub(crate) regions: Vec<VirtualRegion>,
    pub(crate) page_table: PageTable,
}

impl View for AddressRegionTable {
    type V = MemoryView;

    open(crate) spec fn view(&self) -> MemoryView {
        MemoryView { regions: self.regions@, pages: self.page_table@ }
    }
}

impl AddressRegionTable {
    /// The table is well formed when its view is.
    pub open spec fn wf(&self) -> bool {
        self@.wf()
    }

    /// A table without regions.
    pub fn new() -> (table: Self)
        ensures
            table.wf(),
            table@ == MemoryView::empty(),
    {
        AddressRegionTable { regions: Vec::new(), page_table: PageTable::new() }
    }

    /// The mapped regions, in the order in which they were mapped.
    pub fn regions(&self) -> (regions: &Vec<VirtualRegion>)
        ensures
            regions@ == self@.regions,
    {
        &self.regions
    }

    /// The page table.
    pub fn page_table(&self) -> (pages: &PageTable)
        ensures
            pages@ == self@.pages,
    {
        &self.page_table
    }

    /// Maps the bytes from `start` on, `len` of them, with the permission bits
    /// `prot`. Only `start` has to be aligned to a page: the range is
    /// lengthened to the end of its last page.
    ///
    /// On success the table has a new region and the page table has each page
    /// of it. On failure neither has changed.
    pub fn map(&mut self, start: usize, len: usize, prot: usize) -> (mapped: Result<(), Error>)
        requires
            old(self).wf(),
        ensures
            final(self).wf(),
            match mapped {
                Ok(()) => {
                    &&& old(self)@.map_error(start, len, prot) is None
                    &&& final(self)@ == old(self)@.map(start, len, prot)
                },
                Err(error) => {
                    &&& old(self)@.map_error(start, len, prot) == Some(error)
                    &&& final(self)@ == old(self)@
                },
            },
    {
        if start % PAGE_SIZE != 0 {
            return Err(Error::InvalidArgument);
        }
        let permission = match MapPermission::from_prot(prot) {
            Some(permission) => permission,
            None => {
                return Err(Error::InvalidArgument);
            },
        };
        if len > usize::MAX - start {
            return Err(Error::InvalidArgument);
        }
        let last = start + len;
        let first = start / PAGE_SIZE;
        let end = last / PAGE_SIZE + (if last % PAGE_SIZE != 0 {
            1
        } else {
            0
        });
        assert(first == page_floor(start as int));
        assert(end == page_ceil(last as int));
        let mut i: usize = 0;
        while i < self.regions.len()
            invariant
                i <= self.regions.len(),
                *self == *old(self),
                self.wf(),
                first == page_floor(start as int),
                end == page_ceil(start + len),
                start % 4096 == 0,
                MapPermission::valid_prot(prot),
                start + len <= usize::MAX,
                forall|k: int|
                    0 <= k < i ==> !(#[trigger] self.regions[k]).overlaps(first as int, end as int),
            decreases self.regions.len() - i,
        {
            let region = self.regions[i];
            if !(region.end <= first || end <= region.start) {
                assert(self.regions[i as int].overlaps(first as int, end as int));
                return Err(Error::Overlap);
            }
            i += 1;
        }
        self.regions.push(VirtualRegion { start: first, end, permission });
        let mut vpn = first;
        while vpn < end
            invariant
                first <= vpn <= end,
                self.regions@ == old(self).regions@.push(
                    VirtualRegion { start: first, end, permission },
                ),
                self.page_table@ =~= with_pages(
                    old(self)@.pages,
                    first as int,
                    vpn as int,
                    permission,
                ),
            decreases end - vpn,
        {
            self.page_table.map(vpn, permission);
            vpn += 1;
        }
        proof {
            let goal = old(self)@.map(start, len, prot);
            assert(self@.regions =~= goal.regions);
            assert(self@.pages =~= goal.pages);
            lemma_map_keeps_wf(old(self)@, start, len, prot);
        }
        Ok(())
    }

    /// Unmaps the bytes from `start` on, `len` of them. The pages of the range
    /// have to be exactly those of one region: a part of a region is never
    /// unmapped.
    ///
    /// On success the table is without that region and the page table without
    /// its pages. On failure neither has changed.
    pub fn unmap(&mut self, start: usize, len: usize) -> (unmapped: Result<(), Error>)
        requires
            old(self).wf(),
        ensures
            final(self).wf(),
            match unmapped {
                Ok(()) => {
                    &&& old(self)@.unmap_error(start, len) is None
                    &&& final(self)@ == old(self)@.unmap(start, len)
                },
                Err(error) => {
                    &&& old(self)@.unmap_error(start, len) == Some(error)
                    &&& final(self)@ == old(self)@
                },
            },
    {
        if start % PAGE_SIZE != 0 {
            return Err(Error::InvalidArgument);
        }
        if len > usize::MAX - start {
            return Err(Error::InvalidArgument);
        }
        let last = start + len;
        let first = start / PAGE_SIZE;
        let end = last / PAGE_SIZE + (if last % PAGE_SIZE != 0 {
            1
        } else {
            0
        });
        assert(first == page_floor(start as int));
        assert(end == page_ceil(last as int));
        let mut at: usize = self.regions.len();
        while at > 0 && !(self.regions[at - 1].start == first && self.regions[at - 1].end == end)
            invariant
                at <= self.regions.len(),
                forall|k: int|
                    at <= k < self.regions.len() ==> !(#[trigger] self.regions[k]).spans(
                        first as int,
                        end as int,
                    ),
            decreases at,
        {
            at -= 1;
        }
        proof {
            lemma_last_span_is(self.regions@, first as int, end as int, at - 1);
        }
        if at == 0 {
            return Err(Error::NotFound);
        }
        let mut vpn = first;
        while vpn < end
            invariant
                first <= vpn <= end,
                self.regions == old(self).regions,
                self.page_table@ =~= without_pages(old(self)@.pages, first as int, vpn as int),
            decreases end - vpn,
        {
            self.page_table.unmap(vpn);
            vpn += 1;
        }
        self.regions.remove(at - 1);
        proof {
            let goal = old(self)@.unmap(start, len);
            assert(self@.regions =~= goal.regions);
            assert(self@.pages =~= goal.pages);
            lemma_unmap_keeps_wf(old(self)@, start, len);
        }
        Ok(())
    }
}

/// Maps the bytes from `start` on, `len` of them, into the address space of a
/// task, with the permission bits `prot` (read 1, write 2, execute 4). Returns
/// 0, and -1 where [`AddressRegionTable::map`] refuses.
pub fn sys_mmap(table: &mut AddressRegionTable, start: usize, len: usize, prot: usize) -> (code:
    isize)
    requires
        old(table).wf(),
    ensures
        final(table).wf(),
        code == (if old(table)@.map_error(start, len, prot) is None {
            0int
        } else {
            -1int
        }),
        final(table)@ == (if code == 0 {
            old(table)@.map(start, len, prot)
        } else {
            old(table)@
        }),
{
    match table.map(start, len, prot) {
        Ok(()) => SUCCESS,
        Err(error) => error.code(),
    }
}

/// Unmaps the bytes from `start` on, `len` of them, from the address space of
/// a task. Returns 0, and -1 where [`AddressRegionTable::unmap`] refuses.
pub fn sys_munmap(table: &mut AddressRegionTable, start: usize, len: usize) -> (code: isize)
    requires
        old(table).wf(),
    ensures
        final(table).wf(),
        code == (if old(table)@.unmap_error(start, len) is None {
            0int
        } else {
            -1int
        }),
        final(table)@ == (if code == 0 {
            old(table)@.unmap(start, len)
        } else {
            old(table)@
        }),
{
    match table.unmap(start, len) {
        Ok(()) => SUCCESS,
        Err(error) => error.code(),
    }
}

} // verus!
