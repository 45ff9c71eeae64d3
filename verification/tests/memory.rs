use kernel_core::error::Error;
use kernel_core::memory::{
    sys_mmap, sys_munmap, AddressRegionTable, MapPermission, PageTable, VirtualRegion, PAGE_SIZE,
};

fn permission(readable: bool, writable: bool, executable: bool) -> MapPermission {
    MapPermission { readable, writable, executable, user: true }
}

fn ranges(table: &AddressRegionTable) -> Vec<(usize, usize)> {
    table.regions().iter().map(|r| (r.start, r.end)).collect()
}

#[test]
fn a_new_table_is_empty() {
    let table = AddressRegionTable::new();
    assert!(table.regions().is_empty());
    assert!(table.page_table().entries().is_empty());
}

#[test]
fn map_inserts_a_region_and_maps_each_of_its_pages() {
    let mut table = AddressRegionTable::new();
    assert_eq!(table.map(0x10000, 3 * PAGE_SIZE, 3), Ok(()));
    assert_eq!(*table.regions(),
        vec![VirtualRegion { start: 0x10, end: 0x13, permission: permission(true, true, false) }]
    );
    assert_eq!(table.page_table().entries().len(), 3);
    for vpn in 0x10..0x13 {
        assert_eq!(table.page_table().translate(vpn), Some(permission(true, true, false)));
    }
    assert_eq!(table.page_table().translate(0x0f), None);
    assert_eq!(table.page_table().translate(0x13), None);
}

#[test]
fn a_length_that_is_no_whole_number_of_pages_is_rounded_up() {
    let mut table = AddressRegionTable::new();
    assert_eq!(table.map(0x2000, 1, 1), Ok(()));
    assert_eq!(ranges(&table), vec![(2, 3)]);
    assert_eq!(table.map(0x4000, PAGE_SIZE + 1, 1), Ok(()));
    assert_eq!(ranges(&table), vec![(2, 3), (4, 6)]);
    assert_eq!(table.page_table().translate(5), Some(permission(true, false, false)));
    // The rounded range is what has to be named to unmap.
    assert_eq!(table.unmap(0x4000, PAGE_SIZE), Err(Error::NotFound));
    assert_eq!(table.unmap(0x4000, PAGE_SIZE + 7), Ok(()));
    assert_eq!(ranges(&table), vec![(2, 3)]);
}

#[test]
fn a_start_that_is_not_aligned_is_refused() {
    let mut table = AddressRegionTable::new();
    assert_eq!(table.map(0x1001, PAGE_SIZE, 3), Err(Error::InvalidArgument));
    assert_eq!(table.map(1, 1, 1), Err(Error::InvalidArgument));
    assert_eq!(table.unmap(0x1001, PAGE_SIZE), Err(Error::InvalidArgument));
    assert!(table.regions().is_empty());
    assert!(table.page_table().entries().is_empty());
}

#[test]
fn permission_bits_must_name_read_write_or_execute_and_nothing_else() {
    let mut table = AddressRegionTable::new();
    assert_eq!(table.map(0x1000, PAGE_SIZE, 0), Err(Error::InvalidArgument));
    assert_eq!(table.map(0x1000, PAGE_SIZE, 8), Err(Error::InvalidArgument));
    assert_eq!(table.map(0x1000, PAGE_SIZE, 0x13), Err(Error::InvalidArgument));
    assert_eq!(table.map(0x1000, PAGE_SIZE, usize::MAX), Err(Error::InvalidArgument));
    assert!(table.regions().is_empty());
    for prot in 1..=7usize {
        assert_eq!(table.map(prot * 0x10000, PAGE_SIZE, prot), Ok(()));
        let expected = permission(prot & 1 != 0, prot & 2 != 0, prot & 4 != 0);
        assert_eq!(table.page_table().translate(prot * 0x10), Some(expected));
    }
}

#[test]
fn permission_bits_of_page_table_entries() {
    assert_eq!(MapPermission::from_prot(0), None);
    assert_eq!(MapPermission::from_prot(8), None);
    assert_eq!(MapPermission::from_prot(1).unwrap().bits(), 0b10010);
    assert_eq!(MapPermission::from_prot(2).unwrap().bits(), 0b10100);
    assert_eq!(MapPermission::from_prot(4).unwrap().bits(), 0b11000);
    assert_eq!(MapPermission::from_prot(7).unwrap().bits(), 0b11110);
    assert_eq!(
        MapPermission { readable: false, writable: false, executable: false, user: false }.bits(),
        0
    );
    for prot in 1..=7usize {
        let bits = MapPermission::from_prot(prot).unwrap().bits();
        assert_eq!(bits, ((prot as u8) << 1) | (1 << 4));
    }
}

#[test]
fn a_range_that_ends_behind_the_last_address_is_refused() {
    let mut table = AddressRegionTable::new();
    let start = usize::MAX - PAGE_SIZE + 1;
    assert_eq!(table.map(start, PAGE_SIZE, 1), Err(Error::InvalidArgument));
    assert_eq!(table.unmap(start, PAGE_SIZE), Err(Error::InvalidArgument));
    assert_eq!(table.map(start, PAGE_SIZE - 1, 1), Ok(()));
    assert_eq!(ranges(&table), vec![(start / PAGE_SIZE, start / PAGE_SIZE + 1)]);
}

#[test]
fn map_on_a_range_that_overlaps_a_region_fails_and_changes_nothing() {
    let mut table = AddressRegionTable::new();
    assert_eq!(table.map(0x10000, 4 * PAGE_SIZE, 3), Ok(()));
    let regions = table.regions().clone();
    let pages = table.page_table().entries().clone();
    // One page in common at either end, a range inside, a range around, the same range.
    let overlapping = [
        (0x0f000, 2 * PAGE_SIZE),
        (0x13000, 2 * PAGE_SIZE),
        (0x11000, PAGE_SIZE),
        (0x0f000, 6 * PAGE_SIZE),
        (0x10000, 4 * PAGE_SIZE),
        (0x13000, 1),
    ];
    for (start, len) in overlapping {
        assert_eq!(table.map(start, len, 1), Err(Error::Overlap));
        assert_eq!(*table.regions(), regions);
        assert_eq!(*table.page_table().entries(), pages);
    }
}

#[test]
fn ranges_that_touch_do_not_overlap() {
    let mut table = AddressRegionTable::new();
    assert_eq!(table.map(0x10000, 2 * PAGE_SIZE, 1), Ok(()));
    assert_eq!(table.map(0x12000, PAGE_SIZE, 2), Ok(()));
    assert_eq!(table.map(0x0f000, PAGE_SIZE, 4), Ok(()));
    assert_eq!(ranges(&table), vec![(0x10, 0x12), (0x12, 0x13), (0x0f, 0x10)]);
    assert_eq!(table.page_table().translate(0x0f), Some(permission(false, false, true)));
    assert_eq!(table.page_table().translate(0x11), Some(permission(true, false, false)));
    assert_eq!(table.page_table().translate(0x12), Some(permission(false, true, false)));
}

#[test]
fn unmap_removes_the_region_and_its_pages() {
    let mut table = AddressRegionTable::new();
    assert_eq!(table.map(0x10000, 2 * PAGE_SIZE, 1), Ok(()));
    assert_eq!(table.map(0x20000, 3 * PAGE_SIZE, 2), Ok(()));
    assert_eq!(table.unmap(0x10000, 2 * PAGE_SIZE), Ok(()));
    assert_eq!(ranges(&table), vec![(0x20, 0x23)]);
    assert_eq!(table.page_table().translate(0x10), None);
    assert_eq!(table.page_table().translate(0x11), None);
    assert_eq!(table.page_table().translate(0x21), Some(permission(false, true, false)));
    assert_eq!(table.page_table().entries().len(), 3);
    // What was unmapped can be mapped again.
    assert_eq!(table.map(0x10000, PAGE_SIZE, 4), Ok(()));
    assert_eq!(ranges(&table), vec![(0x20, 0x23), (0x10, 0x11)]);
}

#[test]
fn unmap_of_a_part_of_a_region_or_of_more_than_a_region_fails_and_changes_nothing() {
    let mut table = AddressRegionTable::new();
    assert_eq!(table.map(0x10000, 4 * PAGE_SIZE, 3), Ok(()));
    let regions = table.regions().clone();
    let pages = table.page_table().entries().clone();
    let partial = [
        (0x10000, 2 * PAGE_SIZE),
        (0x12000, 2 * PAGE_SIZE),
        (0x11000, PAGE_SIZE),
        (0x10000, 5 * PAGE_SIZE),
        (0x0f000, 5 * PAGE_SIZE),
        (0x0f000, 6 * PAGE_SIZE),
        (0x30000, PAGE_SIZE),
    ];
    for (start, len) in partial {
        assert_eq!(table.unmap(start, len), Err(Error::NotFound));
        assert_eq!(*table.regions(), regions);
        assert_eq!(*table.page_table().entries(), pages);
    }
    assert_eq!(table.unmap(0x10000, 4 * PAGE_SIZE), Ok(()));
    assert!(table.regions().is_empty());
    assert!(table.page_table().entries().is_empty());
}

#[test]
fn unmap_on_an_empty_table_finds_nothing() {
    let mut table = AddressRegionTable::new();
    assert_eq!(table.unmap(0x1000, PAGE_SIZE), Err(Error::NotFound));
    assert_eq!(table.unmap(0, 0), Err(Error::NotFound));
}

#[test]
fn a_range_without_bytes_maps_a_region_without_pages() {
    let mut table = AddressRegionTable::new();
    assert_eq!(table.map(0x5000, 0, 1), Ok(()));
    assert_eq!(ranges(&table), vec![(5, 5)]);
    assert!(table.page_table().entries().is_empty());
    // Inside a region even a range without pages is in the way.
    assert_eq!(table.map(0x10000, 4 * PAGE_SIZE, 1), Ok(()));
    assert_eq!(table.map(0x11000, 0, 1), Err(Error::Overlap));
    assert_eq!(table.map(0x10000, 0, 2), Ok(()));
    // Of two regions with the same range the later one is unmapped.
    assert_eq!(table.map(0x5000, 0, 4), Ok(()));
    assert_eq!(table.unmap(0x5000, 0), Ok(()));
    assert_eq!(*table.regions(),
        vec![
            VirtualRegion { start: 5, end: 5, permission: permission(true, false, false) },
            VirtualRegion { start: 0x10, end: 0x14, permission: permission(true, false, false) },
            VirtualRegion { start: 0x10, end: 0x10, permission: permission(false, true, false) },
        ]
    );
}

#[test]
fn after_a_replay_the_table_holds_what_is_still_mapped() {
    let mut table = AddressRegionTable::new();
    let page = PAGE_SIZE;
    assert_eq!(table.map(0, 2 * page, 1), Ok(()));
    assert_eq!(table.map(4 * page, page, 3), Ok(()));
    assert_eq!(table.map(8 * page, 3 * page, 5), Ok(()));
    assert_eq!(table.unmap(4 * page, page), Ok(()));
    assert_eq!(table.map(2 * page, 4 * page, 7), Ok(()));
    assert_eq!(table.unmap(0, 2 * page), Ok(()));
    assert_eq!(table.map(0, page, 2), Ok(()));
    assert_eq!(ranges(&table), vec![(8, 11), (2, 6), (0, 1)]);
    let expected = [
        Some(permission(false, true, false)),
        None,
        Some(permission(true, true, true)),
        Some(permission(true, true, true)),
        Some(permission(true, true, true)),
        Some(permission(true, true, true)),
        None,
        None,
        Some(permission(true, false, true)),
        Some(permission(true, false, true)),
        Some(permission(true, false, true)),
        None,
    ];
    for (vpn, want) in expected.iter().enumerate() {
        assert_eq!(table.page_table().translate(vpn), *want);
    }
    assert_eq!(table.page_table().entries().len(), 8);
}

#[test]
fn sys_mmap_and_sys_munmap_report_codes() {
    let mut table = AddressRegionTable::new();
    assert_eq!(sys_mmap(&mut table, 0x10000, PAGE_SIZE, 3), 0);
    assert_eq!(sys_mmap(&mut table, 0x10000, PAGE_SIZE, 3), -1);
    assert_eq!(sys_mmap(&mut table, 0x10001, PAGE_SIZE, 3), -1);
    assert_eq!(sys_mmap(&mut table, 0x20000, PAGE_SIZE, 0), -1);
    assert_eq!(sys_mmap(&mut table, 0x20000, PAGE_SIZE, 8), -1);
    assert_eq!(ranges(&table), vec![(0x10, 0x11)]);
    assert_eq!(sys_munmap(&mut table, 0x20000, PAGE_SIZE), -1);
    assert_eq!(sys_munmap(&mut table, 0x10001, PAGE_SIZE), -1);
    assert_eq!(sys_munmap(&mut table, 0x10000, 2 * PAGE_SIZE), -1);
    assert_eq!(ranges(&table), vec![(0x10, 0x11)]);
    assert_eq!(sys_munmap(&mut table, 0x10000, PAGE_SIZE), 0);
    assert!(table.regions().is_empty());
    assert!(table.page_table().entries().is_empty());
}

#[test]
fn the_page_table_maps_remaps_and_unmaps_single_pages() {
    let mut pages = PageTable::new();
    assert_eq!(pages.translate(7), None);
    pages.map(7, permission(true, false, false));
    assert_eq!(pages.translate(7), Some(permission(true, false, false)));
    pages.map(7, permission(false, true, false));
    assert_eq!(pages.translate(7), Some(permission(false, true, false)));
    pages.unmap(8);
    assert_eq!(pages.translate(7), Some(permission(false, true, false)));
    pages.unmap(7);
    assert_eq!(pages.translate(7), None);
}

#[test]
fn a_long_run_of_calls_keeps_regions_and_page_table_in_step() {
    // A small address space of sixteen pages, kept a second time by hand.
    const PAGES: usize = 16;
    let mut table = AddressRegionTable::new();
    let mut pages: [Option<usize>; PAGES] = [None; PAGES];
    let mut mapped: Vec<(usize, usize, usize)> = Vec::new();
    let mut seed: u64 = 0x2545_f491_4f6c_dd1d;
    let mut next = |bound: usize| {
        seed ^= seed << 13;
        seed ^= seed >> 7;
        seed ^= seed << 17;
        (seed % bound as u64) as usize
    };
    for _ in 0..4000 {
        let first = next(PAGES);
        let count = 1 + next(4);
        let end = (first + count).min(PAGES);
        let prot = 1 + next(7);
        // Now and then the length stops short of the end of the last page.
        let len = (end - first) * PAGE_SIZE - next(2) * next(PAGE_SIZE);
        if next(2) == 0 {
            let free = pages[first..end].iter().all(|p| p.is_none());
            let got = table.map(first * PAGE_SIZE, len, prot);
            if free {
                assert_eq!(got, Ok(()));
                pages[first..end].iter_mut().for_each(|p| *p = Some(prot));
                mapped.push((first, end, prot));
            } else {
                assert_eq!(got, Err(Error::Overlap));
            }
        } else {
            let at = mapped.iter().rposition(|&(f, e, _)| f == first && e == end);
            let got = table.unmap(first * PAGE_SIZE, len);
            match at {
                Some(at) => {
                    assert_eq!(got, Ok(()));
                    pages[first..end].iter_mut().for_each(|p| *p = None);
                    mapped.remove(at);
                }
                None => assert_eq!(got, Err(Error::NotFound)),
            }
        }
        let regions: Vec<(usize, usize, usize)> = table
            .regions()
            .iter()
            .map(|r| (r.start, r.end, (r.permission.bits() as usize & 0xf) >> 1))
            .collect();
        assert_eq!(regions, mapped);
        for (vpn, prot) in pages.iter().enumerate() {
            let expected = prot.map(|p| permission(p & 1 != 0, p & 2 != 0, p & 4 != 0));
            assert_eq!(table.page_table().translate(vpn), expected);
        }
        let count = pages.iter().filter(|p| p.is_some()).count();
        assert_eq!(table.page_table().entries().len(), count);
    }
    assert!(!mapped.is_empty());
}
