//! What a sequence of mapping and unmapping calls leaves behind.

use crate::error::Error;
use crate::memory::{
    lemma_last_span, lemma_map_keeps_wf, lemma_unmap_keeps_wf, last_span, page_ceil, page_floor,
    ranges_overlap, MapPermission, MemoryView, VirtualRegion,
};
use vstd::prelude::*;

verus! {

/// One call on the address region table.
pub enum MemoryCall {
    /// Map `len` bytes from `start` on with the permission bits `prot`.
    Mmap { start: usize, len: usize, prot: usize },
    /// Unmap `len` bytes from `start` on.
    Munmap { start: usize, len: usize },
}

impl MemoryCall {
    /// The first byte of the call.
    pub open spec fn start(self) -> usize {
        match self {
            MemoryCall::Mmap { start, .. } => start,
            MemoryCall::Munmap { start, .. } => start,
        }
    }

    /// The number of bytes of the call.
    pub open spec fn len(self) -> usize {
        match self {
            MemoryCall::Mmap { len, .. } => len,
            MemoryCall::Munmap { len, .. } => len,
        }
    }

    /// The first page of the call.
    pub open spec fn first_page(self) -> int {
        page_floor(self.start() as int)
    }

    /// The page behind the last page of the call.
    pub open spec fn end_page(self) -> int {
        page_ceil(self.start() + self.len())
    }

    /// The call starts at a page boundary and ends at or before the last
    /// address.
    pub open spec fn aligned(self) -> bool {
        self.start() % 4096 == 0 && self.start() + self.len() <= usize::MAX
    }

    /// The two calls name the same range of pages.
    pub open spec fn same_pages(self, other: MemoryCall) -> bool {
        self.first_page() == other.first_page() && self.end_page() == other.end_page()
    }

    /// The region that a mapping call maps.
    pub open spec fn region(self) -> VirtualRegion
        recommends
            self is Mmap,
    {
        VirtualRegion {
            start: self.first_page() as usize,
            end: self.end_page() as usize,
            permission: MapPermission::of_prot(self->prot),
        }
    }
}

impl MemoryView {
    /// Why the call is refused, if it is.
    pub open spec fn call_error(self, call: MemoryCall) -> Option<Error> {
        match call {
            MemoryCall::Mmap { start, len, prot } => self.map_error(start, len, prot),
            MemoryCall::Munmap { start, len } => self.unmap_error(start, len),
        }
    }

    /// The table after the call. A call that is refused changes nothing.
    pub open spec fn call(self, call: MemoryCall) -> MemoryView {
        if self.call_error(call) is Some {
            self
        } else {
            match call {
                MemoryCall::Mmap { start, len, prot } => self.map(start, len, prot),
                MemoryCall::Munmap { start, len } => self.unmap(start, len),
            }
        }
    }
}

/// The table after the first `n` calls of `calls`, made one after the other on
/// an empty table.
pub open spec fn replay(calls: Seq<MemoryCall>, n: nat) -> MemoryView
    decreases n,
{
    if n == 0 {
        MemoryView::empty()
    } else {
        replay(calls, (n - 1) as nat).call(calls[n - 1])
    }
}

/// Call `m` succeeds on the table that the calls before it have left.
pub open spec fn accepted(calls: Seq<MemoryCall>, m: int) -> bool {
    replay(calls, m as nat).call_error(calls[m]) is None
}

/// Call `k` is a mapping call, and none of the calls behind it and before call
/// `n` unmaps its pages: what it mapped is still mapped when call `n` is made.
pub open spec fn mapped_until(calls: Seq<MemoryCall>, k: int, n: int) -> bool {
    &&& 0 <= k < n
    &&& calls[k] is Mmap
    &&& forall|j: int|
        k < j < n ==> !((#[trigger] calls[j]) is Munmap && calls[j].same_pages(calls[k]))
}

/// The calls are made on ranges that are aligned and do not intersect: a
/// mapping call has valid arguments and at least one page, and none of its
/// pages is still mapped when it is made; an unmapping call names the pages
/// that one earlier call mapped and that are still mapped.
pub open spec fn orderly(calls: Seq<MemoryCall>) -> bool {
    forall|n: int|
        0 <= n < calls.len() ==> (#[trigger] calls[n]).aligned() && match calls[n] {
            MemoryCall::Mmap { prot, .. } => {
                &&& MapPermission::valid_prot(prot)
                &&& calls[n].first_page() < calls[n].end_page()
                &&& forall|k: int| #[trigger]
                    mapped_until(calls, k, n) ==> !ranges_overlap(
                        calls[k].first_page(),
                        calls[k].end_page(),
                        calls[n].first_page(),
                        calls[n].end_page(),
                    )
            },
            MemoryCall::Munmap { .. } => exists|k: int| #[trigger]
                mapped_until(calls, k, n) && calls[k].same_pages(calls[n]),
        }
}

/// Region `i` of `table` was mapped by one of the first `n` calls and not
/// unmapped again by a later one of them.
pub open spec fn has_source(table: MemoryView, calls: Seq<MemoryCall>, n: int, i: int) -> bool {
    exists|k: int| #[trigger] mapped_until(calls, k, n) && calls[k].region() == table.regions[i]
}

/// `table` holds the region `region`.
pub open spec fn has_region(table: MemoryView, region: VirtualRegion) -> bool {
    exists|i: int| 0 <= i < table.regions.len() && #[trigger] table.regions[i] == region
}

/// The regions of `table` are what the first `n` calls have mapped and not
/// unmapped again.
pub open spec fn holds_mapped(table: MemoryView, calls: Seq<MemoryCall>, n: int) -> bool {
    &&& forall|i: int| 0 <= i < table.regions.len() ==> #[trigger] has_source(table, calls, n, i)
    &&& forall|k: int| #[trigger]
        mapped_until(calls, k, n) ==> has_region(table, calls[k].region())
}

/// A call of an orderly sequence that maps succeeds on a table that holds what
/// the calls before it have left mapped, and the table holds that and the new
/// region afterwards.
proof fn lemma_replay_map(calls: Seq<MemoryCall>, m: int, before: MemoryView)
    requires
        orderly(calls),
        0 <= m < calls.len(),
        calls[m] is Mmap,
        holds_mapped(before, calls, m),
    ensures
        before.call_error(calls[m]) is None,
        holds_mapped(before.call(calls[m]), calls, m + 1),
{
    let call = calls[m];
    let after = before.call(call);
    assert(call.aligned());
    assert forall|i: int| 0 <= i < before.regions.len() implies !(
    #[trigger] before.regions[i]).overlaps(call.first_page(), call.end_page()) by {
        assert(has_source(before, calls, m, i));
        let k = choose|k: int| #[trigger]
            mapped_until(calls, k, m) && calls[k].region() == before.regions[i];
        assert(calls[k].aligned());
        assert(!ranges_overlap(
            calls[k].first_page(),
            calls[k].end_page(),
            call.first_page(),
            call.end_page(),
        ));
    }
    assert(before.call_error(call) is None);
    let n = before.regions.len() as int;
    assert(after.regions =~= before.regions.push(call.region()));
    assert forall|i: int| 0 <= i < after.regions.len() implies #[trigger] has_source(
        after,
        calls,
        m + 1,
        i,
    ) by {
        if i < n {
            assert(has_source(before, calls, m, i));
            let k = choose|k: int| #[trigger]
                mapped_until(calls, k, m) && calls[k].region() == before.regions[i];
            assert(mapped_until(calls, k, m + 1));
        } else {
            assert(mapped_until(calls, m, m + 1));
        }
    }
    assert forall|k: int| #[trigger] mapped_until(calls, k, m + 1) implies has_region(
        after,
        calls[k].region(),
    ) by {
        if k < m {
            assert(mapped_until(calls, k, m));
            let i = choose|i: int|
                0 <= i < before.regions.len() && #[trigger] before.regions[i] == calls[k].region();
            assert(after.regions[i] == calls[k].region());
        } else {
            assert(after.regions[n] == calls[k].region());
        }
    }
}

/// Only one region of a table that holds what orderly calls have left mapped
/// is a given range of pages: regions have at least one page and do not
/// intersect.
proof fn lemma_one_region_per_range(
    calls: Seq<MemoryCall>,
    m: int,
    before: MemoryView,
    i: int,
    j: int,
)
    requires
        orderly(calls),
        0 <= m <= calls.len(),
        before.wf(),
        holds_mapped(before, calls, m),
        0 <= i < before.regions.len(),
        0 <= j < before.regions.len(),
        before.regions[i].start == before.regions[j].start,
        before.regions[i].end == before.regions[j].end,
    ensures
        i == j,
{
    assert(has_source(before, calls, m, i));
    let k = choose|k: int| #[trigger]
        mapped_until(calls, k, m) && calls[k].region() == before.regions[i];
    assert(calls[k].aligned());
    assert(calls[k].first_page() < calls[k].end_page());
    if i != j {
        assert(!before.regions[i].overlaps(
            before.regions[j].start as int,
            before.regions[j].end as int,
        ));
    }
}

/// A call of an orderly sequence that unmaps succeeds on a table that holds
/// what the calls before it have left mapped, and the table holds that
/// without the unmapped region afterwards.
proof fn lemma_replay_unmap(calls: Seq<MemoryCall>, m: int, before: MemoryView)
    requires
        orderly(calls),
        0 <= m < calls.len(),
        calls[m] is Munmap,
        before.wf(),
        holds_mapped(before, calls, m),
    ensures
        before.call_error(calls[m]) is None,
        holds_mapped(before.call(calls[m]), calls, m + 1),
{
    let call = calls[m];
    let first = call.first_page();
    let end = call.end_page();
    assert(call.aligned());
    let source = choose|k: int| #[trigger] mapped_until(calls, k, m) && calls[k].same_pages(call);
    assert(has_region(before, calls[source].region()));
    let held = choose|i: int|
        0 <= i < before.regions.len() && #[trigger] before.regions[i] == calls[source].region();
    assert(calls[source].aligned());
    assert(before.regions[held].spans(first, end));
    lemma_last_span(before.regions, first, end);
    let at = last_span(before.regions, first, end);
    if at < held {
        assert(!before.regions[held].spans(first, end));
    }
    assert(before.call_error(call) is None);
    let after = before.call(call);
    assert(after.regions =~= before.regions.remove(at));
    assert forall|i: int| 0 <= i < after.regions.len() implies #[trigger] has_source(
        after,
        calls,
        m + 1,
        i,
    ) by {
        let old_i = if i < at {
            i
        } else {
            i + 1
        };
        assert(after.regions[i] == before.regions[old_i]);
        assert(has_source(before, calls, m, old_i));
        let k = choose|k: int| #[trigger]
            mapped_until(calls, k, m) && calls[k].region() == before.regions[old_i];
        assert(calls[k].aligned());
        if calls[k].same_pages(call) {
            lemma_one_region_per_range(calls, m, before, old_i, at);
        }
        assert(mapped_until(calls, k, m + 1));
    }
    assert forall|k: int| #[trigger] mapped_until(calls, k, m + 1) implies has_region(
        after,
        calls[k].region(),
    ) by {
        assert(mapped_until(calls, k, m));
        assert(!calls[m].same_pages(calls[k]));
        assert(calls[k].aligned());
        let i = choose|i: int|
            0 <= i < before.regions.len() && #[trigger] before.regions[i] == calls[k].region();
        assert(i != at);
        let new_i = if i < at {
            i
        } else {
            i - 1
        };
        assert(after.regions[new_i] == before.regions[i]);
    }
}

/// Replaying an orderly sequence of calls: every call succeeds, and the table
/// holds exactly the regions that were mapped and not unmapped again.
proof fn lemma_replay_step(calls: Seq<MemoryCall>, n: nat)
    requires
        orderly(calls),
        n <= calls.len(),
    ensures
        replay(calls, n).wf(),
        holds_mapped(replay(calls, n), calls, n as int),
        forall|m: int| 0 <= m < n ==> #[trigger] accepted(calls, m),
    decreases n,
{
    if n > 0 {
        let m = (n - 1) as nat;
        lemma_replay_step(calls, m);
        let before = replay(calls, m);
        match calls[m as int] {
            MemoryCall::Mmap { start, len, prot } => {
                lemma_replay_map(calls, m as int, before);
                lemma_map_keeps_wf(before, start, len, prot);
            },
            MemoryCall::Munmap { start, len } => {
                lemma_replay_unmap(calls, m as int, before);
                lemma_unmap_keeps_wf(before, start, len);
            },
        }
    }
}

/// After an orderly sequence of calls was replayed on an empty table:
/// every call has succeeded; the table holds a region for each mapping whose
/// pages were not unmapped again, and no other region; a page is in the page
/// table if and only if such a mapping holds it, and then with the permission
/// that the mapping asked for.
pub proof fn lemma_replay_keeps_what_is_mapped(calls: Seq<MemoryCall>)
    requires
        orderly(calls),
    ensures
        forall|m: int| 0 <= m < calls.len() ==> #[trigger] accepted(calls, m),
        replay(calls, calls.len()).wf(),
        holds_mapped(replay(calls, calls.len()), calls, calls.len() as int),
        forall|vpn: usize| #[trigger]
            replay(calls, calls.len()).pages.contains_key(vpn) <==> exists|k: int| #[trigger]
                mapped_until(calls, k, calls.len() as int) && calls[k].region().contains(
                    vpn as int,
                ),
        forall|k: int, vpn: usize|
            mapped_until(calls, k, calls.len() as int) && calls[k].region().contains(vpn as int)
                ==> #[trigger] replay(calls, calls.len()).pages[vpn] == (
            #[trigger] calls[k]).region().permission,
{
    let n = calls.len();
    let table = replay(calls, n);
    lemma_replay_step(calls, n);
    assert forall|vpn: usize| #[trigger]
        table.pages.contains_key(vpn) <==> exists|k: int| #[trigger]
            mapped_until(calls, k, n as int) && calls[k].region().contains(vpn as int) by {
        if table.pages.contains_key(vpn) {
            let i = choose|i: int|
                0 <= i < table.regions.len() && (#[trigger] table.regions[i]).contains(vpn as int);
            assert(has_source(table, calls, n as int, i));
            let k = choose|k: int| #[trigger]
                mapped_until(calls, k, n as int) && calls[k].region() == table.regions[i];
            assert(calls[k].region().contains(vpn as int));
        }
        if exists|k: int| #[trigger]
            mapped_until(calls, k, n as int) && calls[k].region().contains(vpn as int) {
            let k = choose|k: int| #[trigger]
                mapped_until(calls, k, n as int) && calls[k].region().contains(vpn as int);
            let i = choose|i: int|
                0 <= i < table.regions.len() && #[trigger] table.regions[i] == calls[k].region();
            assert(table.regions[i].contains(vpn as int));
        }
    }
    assert forall|k: int, vpn: usize|
        mapped_until(calls, k, n as int) && calls[k].region().contains(
            vpn as int,
        ) implies #[trigger] table.pages[vpn] == (#[trigger] calls[k]).region().permission by {
        let i = choose|i: int|
            0 <= i < table.regions.len() && #[trigger] table.regions[i] == calls[k].region();
        assert(table.regions[i].contains(vpn as int));
    }
}

} // verus!
