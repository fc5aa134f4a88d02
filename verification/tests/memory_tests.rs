use kernel::memory::{map_fits_address_space, map_is_valid, EfiMemoryDescriptor, MemoryRegion, MemoryType, PageAllocator, PAGE_SIZE};

fn desc(m_type: MemoryType, p_addr: usize, num_pages: usize) -> EfiMemoryDescriptor {
    EfiMemoryDescriptor { m_type, p_addr, v_addr: 0, num_pages, attribute: 0 }
}

fn sample_map() -> Vec<EfiMemoryDescriptor> {
    vec![
        desc(MemoryType::ConventionalMemory, 0, 10),
        desc(MemoryType::ConventionalMemory, 0x1000, 4),
        desc(MemoryType::ConventionalMemory, 0x5000, 2),
        desc(MemoryType::LoaderData, 0x7000, 1),
        desc(MemoryType::BootServicesData, 0x8000, 8),
        desc(MemoryType::ConventionalMemory, 0x10000, 3),
    ]
}

#[test]
fn region_size_is_end_minus_start() {
    let r = MemoryRegion::new(0x1000, 0x5000);
    assert_eq!(r.start, 0x1000);
    assert_eq!(r.end, 0x5000);
    assert_eq!(r.size(), 0x4000);
    assert_eq!(MemoryRegion::new(7, 7).size(), 0);
}

#[test]
fn init_merges_touching_regions_and_keeps_back_first_page() {
    let alloc = PageAllocator::init(&sample_map());
    assert_eq!(alloc.region_count(), 2);
    assert_eq!(alloc.last_region(), MemoryRegion::new(0x10000, 0x13000));
}

#[test]
fn init_of_map_without_free_memory_has_no_region() {
    let map = vec![
        desc(MemoryType::LoaderCode, 0x1000, 4),
        desc(MemoryType::ConventionalMemory, 0, 16),
    ];
    let alloc = PageAllocator::init(&map);
    assert_eq!(alloc.region_count(), 0);
    let alloc = PageAllocator::init(&[]);
    assert_eq!(alloc.region_count(), 0);
}

#[test]
fn init_single_descriptor_starts_after_its_first_page() {
    let map = vec![desc(MemoryType::ConventionalMemory, 0x20000, 5)];
    let alloc = PageAllocator::init(&map);
    assert_eq!(alloc.region_count(), 1);
    assert_eq!(alloc.last_region(), MemoryRegion::new(0x21000, 0x25000));
}

#[test]
fn init_does_not_merge_regions_with_a_gap() {
    let map = vec![
        desc(MemoryType::ConventionalMemory, 0x20000, 2),
        desc(MemoryType::ConventionalMemory, 0x30000, 2),
        desc(MemoryType::ConventionalMemory, 0x32000, 1),
    ];
    let alloc = PageAllocator::init(&map);
    assert_eq!(alloc.region_count(), 2);
    assert_eq!(alloc.last_region(), MemoryRegion::new(0x30000, 0x33000));
}

#[test]
fn pages_are_taken_from_the_end_of_the_last_region() {
    let mut alloc = PageAllocator::init(&sample_map());
    assert_eq!(alloc.allocate_page(), 0x12000);
    assert_eq!(alloc.allocate_page(), 0x11000);
    assert_eq!(alloc.region_count(), 2);
    assert_eq!(alloc.allocate_page(), 0x10000);
    // The last region is now empty and dropped.
    assert_eq!(alloc.region_count(), 1);
    assert_eq!(alloc.last_region(), MemoryRegion::new(0x2000, 0x7000));
    assert_eq!(alloc.allocate_page(), 0x6000);
    assert_eq!(alloc.last_region(), MemoryRegion::new(0x2000, 0x6000));
}

#[test]
fn allocated_pages_are_distinct_and_aligned() {
    let mut alloc = PageAllocator::init(&sample_map());
    let mut seen: Vec<usize> = Vec::new();
    for _ in 0..8 {
        let p = alloc.allocate_page();
        assert_eq!(p % PAGE_SIZE, 0);
        assert!(!seen.contains(&p));
        seen.push(p);
    }
    assert_eq!(alloc.region_count(), 0);
}

#[test]
fn map_validity() {
    assert!(map_is_valid(&sample_map()));
    assert!(map_is_valid(&[]));
    let overlap = vec![
        desc(MemoryType::ConventionalMemory, 0x1000, 4),
        desc(MemoryType::ConventionalMemory, 0x3000, 4),
    ];
    assert!(!map_is_valid(&overlap));
    let empty = vec![desc(MemoryType::ConventionalMemory, 0x1000, 0)];
    assert!(!map_is_valid(&empty));
    let past_end = vec![desc(MemoryType::ConventionalMemory, usize::MAX - 0xfff, 1)];
    assert!(!map_is_valid(&past_end));
    // Overlap with memory that is not free does not matter.
    let reserved = vec![
        desc(MemoryType::ConventionalMemory, 0x1000, 4),
        desc(MemoryType::ReservedMemoryType, 0x2000, 4),
    ];
    assert!(map_is_valid(&reserved));
}

#[test]
fn memory_type_codes() {
    assert_eq!(MemoryType::from_code(7), Some(MemoryType::ConventionalMemory));
    assert_eq!(MemoryType::from_code(0), Some(MemoryType::ReservedMemoryType));
    assert_eq!(MemoryType::from_code(16), Some(MemoryType::MaxMemoryType));
    assert_eq!(MemoryType::from_code(17), None);
}

#[test]
fn one_page_map_leaves_an_empty_region() {
    // The only free page holds the region list, so the region is empty; an
    // allocation from it steps below its start.
    let map = vec![desc(MemoryType::ConventionalMemory, 0x40000, 1)];
    let mut alloc = PageAllocator::init(&map);
    assert_eq!(alloc.region_count(), 1);
    assert_eq!(alloc.last_region(), MemoryRegion::new(0x41000, 0x41000));
    assert_eq!(alloc.allocate_page(), 0x40000);
    assert_eq!(alloc.last_region(), MemoryRegion::new(0x41000, 0x40000));
}

#[test]
fn overlapping_and_empty_descriptors_are_read_as_given() {
    let map = vec![
        desc(MemoryType::ConventionalMemory, 0x10000, 0),
        desc(MemoryType::ConventionalMemory, 0x20000, 4),
        desc(MemoryType::ConventionalMemory, 0x22000, 4),
        desc(MemoryType::ConventionalMemory, 0x30000, 0),
    ];
    assert!(map_fits_address_space(&map));
    assert!(!map_is_valid(&map));
    let alloc = PageAllocator::init(&map);
    // The first region starts a page in and so ends before it starts; the
    // overlapping descriptor and the empty one each add a region.
    assert_eq!(alloc.region_count(), 4);
    assert_eq!(alloc.last_region(), MemoryRegion::new(0x30000, 0x30000));
}

#[test]
fn address_space_bounds() {
    assert!(map_fits_address_space(&sample_map()));
    let past_end = vec![desc(MemoryType::ConventionalMemory, usize::MAX - 0xfff, 1)];
    assert!(!map_fits_address_space(&past_end));
    let first_page = vec![desc(MemoryType::ConventionalMemory, usize::MAX - 0xff, 0)];
    assert!(!map_fits_address_space(&first_page));
    let later = vec![
        desc(MemoryType::ConventionalMemory, 0x1000, 1),
        desc(MemoryType::ConventionalMemory, usize::MAX - 0xff, 0),
    ];
    assert!(map_fits_address_space(&later));
    let reserved = vec![desc(MemoryType::LoaderData, usize::MAX - 0xfff, 1)];
    assert!(map_fits_address_space(&reserved));
}
