//! Physical memory: the memory map the firmware hands over, and the kernel's
//! page allocator built from it.
//!
//! The allocator keeps the free memory as a list of regions. It is built from
//! the conventional memory of the map, merging regions that touch; the first
//! page of the first conventional region is kept back, since it holds the
//! list itself. Pages are taken from the end of the last region.

use vstd::prelude::*;

verus! {

/// The size of a page.
pub const PAGE_SIZE: usize = 4096;

/// The type of a memory map descriptor.
#[derive(PartialEq, Eq, Clone, Copy, Debug, Structural)]
pub enum MemoryType {
    ReservedMemoryType,
    LoaderCode,
    LoaderData,
    BootServicesCode,
    BootServicesData,
    RuntimeServicesCode,
    RuntimeServicesData,
    ConventionalMemory,
    UnusableMemory,
    ACPIReclaimMemory,
    ACPIMemoryNVS,
    MemoryMappedIO,
    MemoryMappedIOPortSpace,
    PalCode,
    PersistentMemory,
    UnacceptedMemoryType,
    MaxMemoryType,
}

/// The memory type a firmware code stands for: 0 to 16, in the order of
/// the variants.
pub open spec fn memory_type_of(code: u32) -> Option<MemoryType> {
    if code == 0 {
        Some(MemoryType::ReservedMemoryType)
    } else if code == 1 {
        Some(MemoryType::LoaderCode)
    } else if code == 2 {
        Some(MemoryType::LoaderData)
    } else if code == 3 {
        Some(MemoryType::BootServicesCode)
    } else if code == 4 {
        Some(MemoryType::BootServicesData)
    } else if code == 5 {
        Some(MemoryType::RuntimeServicesCode)
    } else if code == 6 {
        Some(MemoryType::RuntimeServicesData)
    } else if code == 7 {
        Some(MemoryType::ConventionalMemory)
    } else if code == 8 {
        Some(MemoryType::UnusableMemory)
    } else if code == 9 {
        Some(MemoryType::ACPIReclaimMemory)
    } else if code == 10 {
        Some(MemoryType::ACPIMemoryNVS)
    } else if code == 11 {
        Some(MemoryType::MemoryMappedIO)
    } else if code == 12 {
        Some(MemoryType::MemoryMappedIOPortSpace)
    } else if code == 13 {
        Some(MemoryType::PalCode)
    } else if code == 14 {
        Some(MemoryType::PersistentMemory)
    } else if code == 15 {
        Some(MemoryType::UnacceptedMemoryType)
    } else if code == 16 {
        Some(MemoryType::MaxMemoryType)
    } else {
        None
    }
}

impl MemoryType {
    /// The memory type of a firmware code, if the code is one.
    pub fn from_code(code: u32) -> (r: Option<MemoryType>)
        ensures
            r == memory_type_of(code),
    {
        match code {
            0 => Some(MemoryType::ReservedMemoryType),
            1 => Some(MemoryType::LoaderCode),
            2 => Some(MemoryType::LoaderData),
            3 => Some(MemoryType::BootServicesCode),
            4 => Some(MemoryType::BootServicesData),
            5 => Some(MemoryType::RuntimeServicesCode),
            6 => Some(MemoryType::RuntimeServicesData),
            7 => Some(MemoryType::ConventionalMemory),
            8 => Some(MemoryType::UnusableMemory),
            9 => Some(MemoryType::ACPIReclaimMemory),
            10 => Some(MemoryType::ACPIMemoryNVS),
            11 => Some(MemoryType::MemoryMappedIO),
            12 => Some(MemoryType::MemoryMappedIOPortSpace),
            13 => Some(MemoryType::PalCode),
            14 => Some(MemoryType::PersistentMemory),
            15 => Some(MemoryType::UnacceptedMemoryType),
            16 => Some(MemoryType::MaxMemoryType),
            _ => None,
        }
    }
}

/// A descriptor of the firmware's memory map.
#[derive(PartialEq, Eq, Clone, Copy, Debug, Structural)]
pub struct EfiMemoryDescriptor {
    pub m_type: MemoryType,
    pub p_addr: usize,
    pub v_addr: usize,
    pub num_pages: usize,
    pub attribute: u64,
}

/// A range `[start, end)` of physical addresses.
#[derive(PartialEq, Eq, Clone, Copy, Debug, Structural)]
pub struct MemoryRegion {
    pub start: usize,
    pub end: usize,
}

impl MemoryRegion {
    /// The region `[start, end)`.
    pub fn new(start: usize, end: usize) -> (r: MemoryRegion)
        ensures
            r.start == start,
            r.end == end,
    {
        MemoryRegion { start, end }
    }

    /// The size of the region in bytes.
    pub fn size(&self) -> (r: usize)
        requires
            self.start <= self.end,
        ensures
            r == self.end - self.start,
    {
        self.end - self.start
    }
}

/// Whether the allocator takes memory from a descriptor: conventional memory
/// that does not start at address 0.
pub open spec fn is_free_descriptor(d: EfiMemoryDescriptor) -> bool {
    d.m_type == MemoryType::ConventionalMemory && d.p_addr != 0
}

/// The end address of the memory a descriptor covers.
pub open spec fn descriptor_end(d: EfiMemoryDescriptor) -> int {
    d.p_addr + d.num_pages * 4096
}

/// The addresses in some region of `rs`.
pub open spec fn region_bytes(rs: Seq<MemoryRegion>) -> Set<int> {
    Set::new(|x: int| exists|k: int| 0 <= k < rs.len() && (#[trigger] rs[k]).start <= x < rs[k].end)
}

/// The addresses in some free descriptor of `ds`.
pub open spec fn free_descriptor_bytes(ds: Seq<EfiMemoryDescriptor>) -> Set<int> {
    Set::new(
        |x: int|
            exists|j: int|
                0 <= j < ds.len() && is_free_descriptor(ds[j]) && ds[j].p_addr <= x
                    < descriptor_end(ds[j]),
    )
}

/// The start address of the first free descriptor of `ds`, if any.
pub open spec fn first_free_address(ds: Seq<EfiMemoryDescriptor>) -> Option<usize>
    decreases ds.len(),
{
    if ds.len() == 0 {
        None
    } else {
        match first_free_address(ds.drop_last()) {
            Some(p) => Some(p),
            None => if is_free_descriptor(ds.last()) {
                Some(ds.last().p_addr)
            } else {
                None
            },
        }
    }
}

/// The addresses of the page that starts at `p`, if any.
pub open spec fn page_bytes(p: Option<usize>) -> Set<int> {
    match p {
        Some(a) => Set::new(|x: int| a <= x < a + 4096),
        None => Set::empty(),
    }
}

/// The free regions the allocator builds from the descriptors `ds`, read in
/// order: the first free descriptor gives a region that starts one page in
/// (its first page holds the list of regions); a later free descriptor that
/// starts where the last region ends extends that region, and one that does
/// not adds a region of its own.
pub open spec fn spec_regions(ds: Seq<EfiMemoryDescriptor>) -> Seq<MemoryRegion>
    decreases ds.len(),
{
    if ds.len() == 0 {
        Seq::empty()
    } else {
        let rs = spec_regions(ds.drop_last());
        let d = ds.last();
        if !is_free_descriptor(d) {
            rs
        } else if rs.len() == 0 {
            seq![MemoryRegion { start: (d.p_addr + 4096) as usize, end: descriptor_end(d) as usize }]
        } else if rs.last().end == d.p_addr {
            rs.update(
                rs.len() - 1,
                MemoryRegion { start: rs.last().start, end: descriptor_end(d) as usize },
            )
        } else {
            rs.push(MemoryRegion { start: d.p_addr, end: descriptor_end(d) as usize })
        }
    }
}

/// Whether building the allocator from `ds` stays within the address space:
/// every free descriptor ends within it, and so does the first page of the
/// first free descriptor.
pub open spec fn map_fits(ds: Seq<EfiMemoryDescriptor>) -> bool {
    &&& forall|j: int|
        0 <= j < ds.len() && is_free_descriptor(#[trigger] ds[j]) ==> descriptor_end(ds[j])
            <= usize::MAX
    &&& first_free_address(ds) matches Some(p) ==> p + 4096 <= usize::MAX
}

/// Whether building the allocator from `map` stays within the address
/// space: what building it needs.
pub fn map_fits_address_space(map: &[EfiMemoryDescriptor]) -> (r: bool)
    ensures
        r == map_fits(map@),
{
    let mut i: usize = 0;
    let mut first_seen = false;
    while i < map.len()
        invariant
            i <= map@.len(),
            forall|j: int|
                0 <= j < i && is_free_descriptor(#[trigger] map@[j]) ==> descriptor_end(map@[j])
                    <= usize::MAX,
            first_seen <==> first_free_address(map@.take(i as int)) is Some,
            first_free_address(map@.take(i as int)) matches Some(p) ==> p + 4096 <= usize::MAX,
        decreases map@.len() - i,
    {
        let d = map[i];
        proof {
            assert(map@.take(i + 1).drop_last() =~= map@.take(i as int));
            assert(map@.take(i + 1).last() == d);
        }
        if d.m_type == MemoryType::ConventionalMemory && d.p_addr != 0 {
            assert(is_free_descriptor(map@[i as int]));
            if d.num_pages > (usize::MAX - d.p_addr) / PAGE_SIZE {
                proof {
                    assert(d.num_pages * 4096 > usize::MAX - d.p_addr) by (nonlinear_arith)
                        requires
                            d.num_pages > (usize::MAX - d.p_addr) / 4096,
                            d.p_addr <= usize::MAX,
                    ;
                }
                return false;
            }
            if !first_seen {
                if d.p_addr > usize::MAX - PAGE_SIZE {
                    proof {
                        lemma_first_free_prefix(map@, i as int);
                    }
                    return false;
                }
                first_seen = true;
            }
        }
        i = i + 1;
    }
    proof {
        assert(map@.take(map@.len() as int) =~= map@);
    }
    true
}

/// The first free address of a map is that of its first `i` descriptors when
/// they hold one, and otherwise that of descriptor `i` when it is free.
proof fn lemma_first_free_prefix(ds: Seq<EfiMemoryDescriptor>, i: int)
    requires
        0 <= i < ds.len(),
        first_free_address(ds.take(i)) is None,
        is_free_descriptor(ds[i]),
    ensures
        first_free_address(ds) == Some(ds[i].p_addr),
    decreases ds.len(),
{
    if i < ds.len() - 1 {
        assert(ds.drop_last().take(i) =~= ds.take(i));
        assert(ds.drop_last()[i] == ds[i]);
        lemma_first_free_prefix(ds.drop_last(), i);
    } else {
        assert(ds.drop_last() =~= ds.take(i));
    }
}

/// Whether the free descriptors of `ds` cover at least one page each, end
/// within the address space, and do not overlap.
pub open spec fn free_descriptors_valid(ds: Seq<EfiMemoryDescriptor>) -> bool {
    &&& forall|j: int|
        0 <= j < ds.len() && is_free_descriptor(#[trigger] ds[j]) ==> ds[j].num_pages >= 1
            && descriptor_end(ds[j]) <= usize::MAX
    &&& forall|j: int, k: int|
        0 <= j < k < ds.len() && is_free_descriptor(#[trigger] ds[j]) && is_free_descriptor(
            #[trigger] ds[k],
        ) ==> descriptor_end(ds[j]) <= ds[k].p_addr || descriptor_end(ds[k]) <= ds[j].p_addr
}

/// Whether the free descriptors of `map` cover at least one page each, end
/// within the address space, and do not overlap: what building the allocator
/// from the map needs.
pub fn map_is_valid(map: &[EfiMemoryDescriptor]) -> (r: bool)
    ensures
        r == free_descriptors_valid(map@),
{
    let mut j: usize = 0;
    while j < map.len()
        invariant
            j <= map@.len(),
            forall|a: int|
                0 <= a < j && is_free_descriptor(#[trigger] map@[a]) ==> map@[a].num_pages >= 1
                    && descriptor_end(map@[a]) <= usize::MAX,
            forall|a: int, b: int|
                0 <= a < b < map@.len() && a < j && is_free_descriptor(#[trigger] map@[a])
                    && is_free_descriptor(#[trigger] map@[b]) ==> descriptor_end(map@[a])
                    <= map@[b].p_addr || descriptor_end(map@[b]) <= map@[a].p_addr,
        decreases map@.len() - j,
    {
        let d = map[j];
        if d.m_type == MemoryType::ConventionalMemory && d.p_addr != 0 {
            assert(is_free_descriptor(map@[j as int]));
            if d.num_pages < 1 || d.num_pages > (usize::MAX - d.p_addr) / PAGE_SIZE {
                return false;
            }
            proof {
                assert(d.num_pages * 4096 <= usize::MAX - d.p_addr) by (nonlinear_arith)
                    requires
                        d.num_pages <= (usize::MAX - d.p_addr) / 4096,
                        d.p_addr <= usize::MAX,
                ;
            }
            let end = d.p_addr + d.num_pages * PAGE_SIZE;
            let mut k: usize = j + 1;
            while k < map.len()
                invariant
                    j < k <= map@.len(),
                    d == map@[j as int],
                    is_free_descriptor(d),
                    end == descriptor_end(d),
                    forall|b: int|
                        j < b < k && is_free_descriptor(#[trigger] map@[b]) ==> end <= map@[b].p_addr
                            || descriptor_end(map@[b]) <= d.p_addr,
                decreases map@.len() - k,
            {
                let e = map[k];
                if e.m_type == MemoryType::ConventionalMemory && e.p_addr != 0 {
                    assert(is_free_descriptor(map@[k as int]));
                    if end > e.p_addr {
                        // The other descriptor must end before this one starts.
                        if e.num_pages > (usize::MAX - e.p_addr) / PAGE_SIZE {
                            proof {
                                assert(e.num_pages * 4096 > usize::MAX - e.p_addr) by (nonlinear_arith)
                                    requires
                                        e.num_pages > (usize::MAX - e.p_addr) / 4096,
                                        e.p_addr <= usize::MAX,
                                ;
                                assert(descriptor_end(map@[k as int]) > usize::MAX);
                            }
                            return false;
                        }
                        proof {
                            assert(e.num_pages * 4096 <= usize::MAX - e.p_addr) by (nonlinear_arith)
                                requires
                                    e.num_pages <= (usize::MAX - e.p_addr) / 4096,
                                    e.p_addr <= usize::MAX,
                            ;
                        }
                        if e.p_addr + e.num_pages * PAGE_SIZE > d.p_addr {
                            return false;
                        }
                    }
                }
                k = k + 1;
            }
        }
        j = j + 1;
    }
    true
}

/// Whether address `x` lies in region `r`.
pub open spec fn in_region(r: MemoryRegion, x: int) -> bool {
    r.start <= x < r.end
}

/// Whether no address lies in two regions of `rs`.
pub open spec fn regions_disjoint(rs: Seq<MemoryRegion>) -> bool {
    forall|j: int, k: int, x: int|
        0 <= j < rs.len() && 0 <= k < rs.len() && j != k && #[trigger] in_region(rs[j], x)
            ==> !#[trigger] in_region(rs[k], x)
}

/// The kernel's page allocator.
pub struct PageAllocator {
    regions: Vec<MemoryRegion>,
}

impl PageAllocator {
    /// The free regions, in the order they were added.
    pub closed spec fn view(&self) -> Seq<MemoryRegion> {
        self.regions@
    }

    /// The free memory.
    pub open spec fn free_bytes(&self) -> Set<int> {
        region_bytes(self@)
    }

    /// Builds the allocator from the firmware's memory map: its regions are
    /// those `spec_regions` gives, in that order.
    ///
    /// When the free descriptors cover at least a page each and do not
    /// overlap, the free memory is then the memory of the free descriptors,
    /// but for the first page of the first of them, and no address lies in
    /// two regions.
    pub fn init(map: &[EfiMemoryDescriptor]) -> (r: PageAllocator)
        requires
            map_fits(map@),
        ensures
            r@ == spec_regions(map@),
            r@.len() == 0 <==> first_free_address(map@) is None,
            free_descriptors_valid(map@) ==> {
                &&& r.free_bytes() == free_descriptor_bytes(map@).difference(
                    page_bytes(first_free_address(map@)),
                )
                &&& forall|k: int| 0 <= k < r@.len() ==> (#[trigger] r@[k]).start <= r@[k].end
                &&& regions_disjoint(r@)
            },
    {
        let mut regions: Vec<MemoryRegion> = Vec::new();
        let ghost mut starts: Seq<int> = Seq::empty();
        let ghost valid = free_descriptors_valid(map@);
        let mut i: usize = 0;
        while i < map.len()
            invariant
                i <= map@.len(),
                map_fits(map@),
                valid == free_descriptors_valid(map@),
                regions@ == spec_regions(map@.take(i as int)),
                regions@.len() == 0 <==> first_free_address(map@.take(i as int)) is None,
                first_free_address(map@.take(i as int)) matches Some(p) ==> regions@[0].start == p + 4096,
                regions@.len() > 0 ==> exists|j: int|
                    0 <= j < i && is_free_descriptor(map@[j]) && #[trigger] descriptor_end(map@[j])
                        == regions@.last().end,
                valid ==> forall|k: int| 0 <= k < regions@.len() ==> (#[trigger] regions@[k]).start <= regions@[k].end,
                valid ==> region_bytes(regions@) == free_descriptor_bytes(map@.take(i as int)).difference(
                    page_bytes(first_free_address(map@.take(i as int))),
                ),
                valid ==> regions_covered(map@, regions@, starts, i as int),
            decreases map@.len() - i,
        {
            let d = map[i];
            let ghost before = map@.take(i as int);
            let ghost after = map@.take(i + 1);
            proof {
                assert(after =~= before.push(d));
                assert(after.drop_last() =~= before);
            }
            if d.m_type != MemoryType::ConventionalMemory || d.p_addr == 0 {
                proof {
                    assert(!is_free_descriptor(d));
                    assert(first_free_address(after) == first_free_address(before));
                    self::lemma_bytes_skip(before, d);
                    if valid {
                        lemma_covered_skip(map@, regions@, starts, i as int);
                    }
                }
                i = i + 1;
                continue;
            }
            proof {
                assert(is_free_descriptor(map@[i as int]));
                assert(descriptor_end(map@[i as int]) <= usize::MAX);
            }
            let region_end = d.p_addr + d.num_pages * PAGE_SIZE;
            let ghost old_regions = regions@;
            if regions.len() == 0 {
                proof {
                    assert(first_free_address(after) == Some(d.p_addr));
                    lemma_first_free_prefix(map@, i as int);
                }
                regions.push(MemoryRegion::new(d.p_addr + PAGE_SIZE, region_end));
                proof {
                    assert(regions@ =~= spec_regions(after));
                    assert(descriptor_end(map@[i as int]) == regions@.last().end);
                    if valid {
                        assert(map@[i as int].num_pages >= 1);
                        self::lemma_bytes_first(before, d, regions@);
                        lemma_covered_first(map@, regions@, i as int);
                    }
                    starts = seq![i as int];
                }
                i = i + 1;
                continue;
            }
            let k = regions.len() - 1;
            let last = regions[k];
            proof {
                assert(first_free_address(after) == first_free_address(before));
                if valid {
                    self::lemma_new_descriptor_clear_of_first_page(map@, i as int);
                }
            }
            if last.end == d.p_addr {
                regions.set(k, MemoryRegion::new(last.start, region_end));
                proof {
                    assert(regions@ =~= spec_regions(after));
                    assert(descriptor_end(map@[i as int]) == regions@.last().end);
                    if valid {
                        self::lemma_bytes_merge(before, d, old_regions, regions@, first_free_address(before));
                        lemma_covered_merge(map@, old_regions, regions@, starts, i as int);
                    }
                }
            } else {
                regions.push(MemoryRegion::new(d.p_addr, region_end));
                proof {
                    assert(regions@ =~= spec_regions(after));
                    assert(descriptor_end(map@[i as int]) == regions@.last().end);
                    if valid {
                        self::lemma_bytes_push(before, d, old_regions, regions@, first_free_address(before));
                        lemma_covered_push(map@, old_regions, regions@, starts, i as int);
                    }
                    starts = starts.push(i as int);
                }
            }
            i = i + 1;
        }
        proof {
            assert(map@.take(map@.len() as int) =~= map@);
            if valid {
                lemma_covered_disjoint(map@, regions@, starts);
            }
        }
        PageAllocator { regions }
    }

    /// The number of free regions.
    pub fn region_count(&self) -> (r: usize)
        ensures
            r == self@.len(),
    {
        self.regions.len()
    }

    /// The last free region, where pages are taken from.
    pub fn last_region(&self) -> (r: MemoryRegion)
        requires
            self@.len() > 0,
        ensures
            r == self@.last(),
    {
        self.regions[self.regions.len() - 1]
    }

    /// Takes the last page of the last free region and returns its address.
    /// A region that becomes empty is dropped.
    pub fn allocate_page(&mut self) -> (r: usize)
        requires
            old(self)@.len() > 0,
            old(self)@.last().end >= PAGE_SIZE,
        ensures
            r == old(self)@.last().end - PAGE_SIZE,
            ({
                let last = MemoryRegion { start: old(self)@.last().start, end: r };
                let rest = old(self)@.drop_last();
                if r == old(self)@.last().start {
                    final(self)@ == rest
                } else {
                    final(self)@ == rest.push(last)
                }
            }),
    {
        let k = self.regions.len() - 1;
        let last = self.regions[k];
        let end = last.end - PAGE_SIZE;
        if end == last.start {
            self.regions.pop();
        } else {
            self.regions.set(k, MemoryRegion::new(last.start, end));
        }
        proof {
            assert(self@ =~= (if end == last.start {
                old(self)@.drop_last()
            } else {
                old(self)@.drop_last().push(MemoryRegion { start: last.start, end })
            }));
        }
        end
    }
}

/// A page handed out by the allocator was free and is free no more: when the
/// regions do not overlap and the last one holds at least a page, the
/// allocation removes exactly that page from the free memory, the regions
/// still do not overlap, and a page-aligned allocator hands out a
/// page-aligned address.
pub proof fn lemma_allocate_removes_page(
    before: Seq<MemoryRegion>,
    after: Seq<MemoryRegion>,
    r: usize,
)
    requires
        before.len() > 0,
        regions_disjoint(before),
        forall|k: int| 0 <= k < before.len() ==> (#[trigger] before[k]).start <= before[k].end,
        before.last().end - before.last().start >= 4096,
        r == before.last().end - 4096,
        ({
            let last = MemoryRegion { start: before.last().start, end: r };
            let rest = before.drop_last();
            if r == before.last().start {
                after == rest
            } else {
                after == rest.push(last)
            }
        }),
    ensures
        region_bytes(after) == region_bytes(before).difference(Set::new(|x: int| r <= x < r + 4096)),
        Set::new(|x: int| r <= x < r + 4096).subset_of(region_bytes(before)),
        regions_disjoint(after),
        before.last().end % 4096 == 0 ==> r % 4096 == 0,
{
    let page = Set::new(|x: int| r <= x < r + 4096);
    let n = before.len() - 1;
    assert forall|x: int| page.contains(x) implies region_bytes(before).contains(x) by {
        assert(before[n].start <= x < before[n].end);
    }
    assert forall|x: int| region_bytes(after).contains(x) <==> region_bytes(before).difference(
        page,
    ).contains(x) by {
        if region_bytes(after).contains(x) {
            let k = choose|k: int| 0 <= k < after.len() && (#[trigger] after[k]).start <= x < after[k].end;
            assert(before[k].start <= x < before[k].end);
            if k < n && page.contains(x) {
                assert(in_region(before[k], x));
                assert(in_region(before[n], x));
            }
        }
        if region_bytes(before).difference(page).contains(x) {
            let k = choose|k: int| 0 <= k < before.len() && (#[trigger] before[k]).start <= x < before[k].end;
            if k < n {
                assert(after[k] == before[k]);
            } else {
                assert(x < r);
                assert(after[k].start <= x < after[k].end);
            }
        }
    }
    assert(region_bytes(after) =~= region_bytes(before).difference(page));
    assert forall|j: int, k: int, x: int|
        0 <= j < after.len() && 0 <= k < after.len() && j != k && #[trigger] in_region(after[j], x)
            implies !#[trigger] in_region(after[k], x) by {
        assert(in_region(before[j], x));
        if in_region(after[k], x) {
            assert(in_region(before[k], x));
        }
    }
}

/// Whether address `x` lies in descriptor `d`.
spec fn in_descriptor(d: EfiMemoryDescriptor, x: int) -> bool {
    d.p_addr <= x < descriptor_end(d)
}

/// Whether address `x` lies in a free descriptor of `ds` whose index is in
/// `[lo, hi)`.
spec fn covered_by(ds: Seq<EfiMemoryDescriptor>, lo: int, hi: int, x: int) -> bool {
    exists|j: int|
        lo <= j < hi && 0 <= j < ds.len() && is_free_descriptor(ds[j]) && #[trigger] in_descriptor(
            ds[j],
            x,
        )
}

/// The index of the first descriptor after those of region `k`, when the
/// regions start at the descriptors `starts` and `i` descriptors were read.
spec fn next_start(starts: Seq<int>, k: int, i: int) -> int {
    if k + 1 < starts.len() {
        starts[k + 1]
    } else {
        i
    }
}

/// Whether each region `k` of `rs` lies in the free descriptors read from
/// index `starts[k]` up to the start of the next region, the starts rising.
spec fn regions_covered(ds: Seq<EfiMemoryDescriptor>, rs: Seq<MemoryRegion>, starts: Seq<int>, i: int) -> bool {
    &&& starts.len() == rs.len()
    &&& i <= ds.len()
    &&& forall|k: int| 0 <= k < starts.len() ==> 0 <= #[trigger] starts[k] < i
    &&& forall|k: int, l: int| 0 <= k < l < starts.len() ==> #[trigger] starts[k] < #[trigger] starts[l]
    &&& forall|k: int, x: int|
        0 <= k < rs.len() && #[trigger] in_region(rs[k], x) ==> covered_by(
            ds,
            starts[k],
            next_start(starts, k, i),
            x,
        )
}

/// A covered address stays covered by a wider range of descriptors.
proof fn lemma_cover_widen(ds: Seq<EfiMemoryDescriptor>, lo: int, hi: int, hi2: int, x: int)
    requires
        covered_by(ds, lo, hi, x),
        hi <= hi2,
    ensures
        covered_by(ds, lo, hi2, x),
{
    let j = choose|j: int|
        lo <= j < hi && 0 <= j < ds.len() && is_free_descriptor(ds[j]) && #[trigger] in_descriptor(ds[j], x);
    assert(in_descriptor(ds[j], x));
}

/// Reading a descriptor that adds no region keeps the regions covered.
proof fn lemma_covered_skip(ds: Seq<EfiMemoryDescriptor>, rs: Seq<MemoryRegion>, starts: Seq<int>, i: int)
    requires
        regions_covered(ds, rs, starts, i),
        0 <= i < ds.len(),
    ensures
        regions_covered(ds, rs, starts, i + 1),
{
    assert forall|k: int, x: int| 0 <= k < rs.len() && #[trigger] in_region(rs[k], x) implies covered_by(
        ds,
        starts[k],
        next_start(starts, k, i + 1),
        x,
    ) by {
        lemma_cover_widen(ds, starts[k], next_start(starts, k, i), next_start(starts, k, i + 1), x);
    }
}

/// The first region lies in the descriptor it comes from.
proof fn lemma_covered_first(ds: Seq<EfiMemoryDescriptor>, rs: Seq<MemoryRegion>, i: int)
    requires
        0 <= i < ds.len(),
        is_free_descriptor(ds[i]),
        rs.len() == 1,
        rs[0].start >= ds[i].p_addr,
        rs[0].end == descriptor_end(ds[i]),
    ensures
        regions_covered(ds, rs, seq![i], i + 1),
{
    let starts = seq![i];
    assert forall|k: int, x: int| 0 <= k < rs.len() && #[trigger] in_region(rs[k], x) implies covered_by(
        ds,
        starts[k],
        next_start(starts, k, i + 1),
        x,
    ) by {
        assert(in_descriptor(ds[i], x));
    }
}

/// Extending the last region over the next descriptor keeps the regions
/// covered.
proof fn lemma_covered_merge(
    ds: Seq<EfiMemoryDescriptor>,
    rs: Seq<MemoryRegion>,
    rs2: Seq<MemoryRegion>,
    starts: Seq<int>,
    i: int,
)
    requires
        regions_covered(ds, rs, starts, i),
        0 <= i < ds.len(),
        is_free_descriptor(ds[i]),
        rs.len() > 0,
        rs.last().end == ds[i].p_addr,
        rs2.len() == rs.len(),
        rs2.last().start == rs.last().start,
        rs2.last().end == descriptor_end(ds[i]),
        forall|k: int| 0 <= k < rs.len() - 1 ==> rs2[k] == rs[k],
    ensures
        regions_covered(ds, rs2, starts, i + 1),
{
    let n = rs.len() - 1;
    assert forall|k: int, x: int| 0 <= k < rs2.len() && #[trigger] in_region(rs2[k], x) implies covered_by(
        ds,
        starts[k],
        next_start(starts, k, i + 1),
        x,
    ) by {
        if k < n {
            assert(in_region(rs[k], x));
            lemma_cover_widen(ds, starts[k], next_start(starts, k, i), next_start(starts, k, i + 1), x);
        } else if x < rs.last().end {
            assert(in_region(rs[n], x));
            lemma_cover_widen(ds, starts[k], i, i + 1, x);
        } else {
            assert(in_descriptor(ds[i], x));
            assert(starts[k] < i);
        }
    }
}

/// Adding a region for the next descriptor keeps the regions covered.
proof fn lemma_covered_push(
    ds: Seq<EfiMemoryDescriptor>,
    rs: Seq<MemoryRegion>,
    rs2: Seq<MemoryRegion>,
    starts: Seq<int>,
    i: int,
)
    requires
        regions_covered(ds, rs, starts, i),
        0 <= i < ds.len(),
        is_free_descriptor(ds[i]),
        rs2.len() == rs.len() + 1,
        rs2.last().start == ds[i].p_addr,
        rs2.last().end == descriptor_end(ds[i]),
        forall|k: int| 0 <= k < rs.len() ==> rs2[k] == rs[k],
    ensures
        regions_covered(ds, rs2, starts.push(i), i + 1),
{
    let s2 = starts.push(i);
    assert forall|k: int, x: int| 0 <= k < rs2.len() && #[trigger] in_region(rs2[k], x) implies covered_by(
        ds,
        s2[k],
        next_start(s2, k, i + 1),
        x,
    ) by {
        if k < rs.len() {
            assert(in_region(rs[k], x));
            assert(s2[k] == starts[k]);
            assert(next_start(s2, k, i + 1) == next_start(starts, k, i));
        } else {
            assert(rs2[k] == rs2.last());
            assert(s2[k] == i);
            assert(in_descriptor(ds[i], x));
        }
    }
    assert forall|k: int, l: int| 0 <= k < l < s2.len() implies #[trigger] s2[k] < #[trigger] s2[l] by {
        if l < starts.len() {
            assert(s2[k] == starts[k] && s2[l] == starts[l]);
        } else {
            assert(s2[k] == starts[k]);
        }
    }
}

/// Regions that lie in distinct groups of pairwise disjoint free
/// descriptors share no address.
proof fn lemma_covered_disjoint(ds: Seq<EfiMemoryDescriptor>, rs: Seq<MemoryRegion>, starts: Seq<int>)
    requires
        free_descriptors_valid(ds),
        regions_covered(ds, rs, starts, ds.len() as int),
    ensures
        regions_disjoint(rs),
{
    let n = ds.len() as int;
    assert forall|j: int, k: int, x: int|
        0 <= j < rs.len() && 0 <= k < rs.len() && j != k && #[trigger] in_region(rs[j], x)
            implies !#[trigger] in_region(rs[k], x) by {
        if in_region(rs[k], x) {
            let (lo, hi) = if j < k { (j, k) } else { (k, j) };
            assert(in_region(rs[lo], x) && in_region(rs[hi], x));
            let a = choose|a: int|
                starts[lo] <= a < next_start(starts, lo, n) && 0 <= a < ds.len() && is_free_descriptor(ds[a])
                    && #[trigger] in_descriptor(ds[a], x);
            let b = choose|b: int|
                starts[hi] <= b < next_start(starts, hi, n) && 0 <= b < ds.len() && is_free_descriptor(ds[b])
                    && #[trigger] in_descriptor(ds[b], x);
            if lo + 1 < hi {
                assert(starts[lo + 1] < starts[hi]);
            }
            assert(a < b);
            assert(is_free_descriptor(ds[a]) && is_free_descriptor(ds[b]));
            assert(descriptor_end(ds[a]) <= ds[b].p_addr || descriptor_end(ds[b]) <= ds[a].p_addr);
        }
    }
}

/// Skipping a descriptor that is not free leaves the free memory as it is.
proof fn lemma_bytes_skip(before: Seq<EfiMemoryDescriptor>, d: EfiMemoryDescriptor)
    requires
        !is_free_descriptor(d),
    ensures
        free_descriptor_bytes(before.push(d)) == free_descriptor_bytes(before),
        first_free_address(before.push(d)) == first_free_address(before),
{
    let after = before.push(d);
    assert(after.drop_last() =~= before);
    assert forall|x: int| free_descriptor_bytes(after).contains(x) <==> free_descriptor_bytes(
        before,
    ).contains(x) by {
        if free_descriptor_bytes(after).contains(x) {
            let j = choose|j: int|
                0 <= j < after.len() && is_free_descriptor(after[j]) && after[j].p_addr <= x
                    < descriptor_end(after[j]);
            assert(before[j] == after[j]);
        }
        if free_descriptor_bytes(before).contains(x) {
            let j = choose|j: int|
                0 <= j < before.len() && is_free_descriptor(before[j]) && before[j].p_addr <= x
                    < descriptor_end(before[j]);
            assert(after[j] == before[j]);
        }
    }
    assert(free_descriptor_bytes(after) =~= free_descriptor_bytes(before));
}

/// The first free descriptor gives the first region, without its first page.
proof fn lemma_bytes_first(
    before: Seq<EfiMemoryDescriptor>,
    d: EfiMemoryDescriptor,
    regions: Seq<MemoryRegion>,
)
    requires
        is_free_descriptor(d),
        d.num_pages >= 1,
        first_free_address(before) is None,
        regions.len() == 1,
        regions[0].start == d.p_addr + 4096,
        regions[0].end == descriptor_end(d),
    ensures
        region_bytes(regions) == free_descriptor_bytes(before.push(d)).difference(
            page_bytes(Some(d.p_addr)),
        ),
{
    let after = before.push(d);
    lemma_no_free_descriptor(before);
    assert forall|x: int| region_bytes(regions).contains(x) <==> free_descriptor_bytes(
        after,
    ).difference(page_bytes(Some(d.p_addr))).contains(x) by {
        if region_bytes(regions).contains(x) {
            assert(after[before.len() as int] == d);
        }
        if free_descriptor_bytes(after).contains(x) {
            let j = choose|j: int|
                0 <= j < after.len() && is_free_descriptor(after[j]) && after[j].p_addr <= x
                    < descriptor_end(after[j]);
            if j < before.len() {
                assert(after[j] == before[j]);
            }
            assert(regions[0].start <= x < regions[0].end ==> region_bytes(regions).contains(x));
        }
    }
    assert(region_bytes(regions) =~= free_descriptor_bytes(after).difference(page_bytes(Some(d.p_addr))));
}

/// A sequence without a first free address has no free descriptor.
proof fn lemma_no_free_descriptor(ds: Seq<EfiMemoryDescriptor>)
    requires
        first_free_address(ds) is None,
    ensures
        forall|j: int| 0 <= j < ds.len() ==> !is_free_descriptor(#[trigger] ds[j]),
    decreases ds.len(),
{
    if ds.len() > 0 {
        lemma_no_free_descriptor(ds.drop_last());
        assert forall|j: int| 0 <= j < ds.len() implies !is_free_descriptor(#[trigger] ds[j]) by {
            if j < ds.len() - 1 {
                assert(ds[j] == ds.drop_last()[j]);
            }
        }
    }
}

/// The first free address belongs to a free descriptor with at least one
/// page.
proof fn lemma_first_free_address(ds: Seq<EfiMemoryDescriptor>)
    requires
        first_free_address(ds) is Some,
    ensures
        exists|j: int|
            0 <= j < ds.len() && is_free_descriptor(#[trigger] ds[j]) && ds[j].p_addr
                == first_free_address(ds)->0,
    decreases ds.len(),
{
    if first_free_address(ds.drop_last()) is Some {
        lemma_first_free_address(ds.drop_last());
        let j = choose|j: int|
            0 <= j < ds.drop_last().len() && is_free_descriptor(#[trigger] ds.drop_last()[j])
                && ds.drop_last()[j].p_addr == first_free_address(ds.drop_last())->0;
        assert(ds[j] == ds.drop_last()[j]);
    } else {
        assert(is_free_descriptor(ds[ds.len() - 1]));
    }
}

/// A later free descriptor does not meet the page kept back.
proof fn lemma_new_descriptor_clear_of_first_page(map: Seq<EfiMemoryDescriptor>, i: int)
    requires
        0 <= i < map.len(),
        free_descriptors_valid(map),
        is_free_descriptor(map[i]),
        first_free_address(map.take(i)) is Some,
    ensures
        ({
            let a = first_free_address(map.take(i))->0;
            descriptor_end(map[i]) <= a || a + 4096 <= map[i].p_addr
        }),
{
    let before = map.take(i);
    lemma_first_free_address(before);
    let j = choose|j: int|
        0 <= j < before.len() && is_free_descriptor(#[trigger] before[j]) && before[j].p_addr
            == first_free_address(before)->0;
    assert(before[j] == map[j]);
    assert(is_free_descriptor(map[j]) && is_free_descriptor(map[i]));
    assert(map[j].num_pages >= 1);
}

/// A descriptor that continues the last region extends it.
proof fn lemma_bytes_merge(
    before: Seq<EfiMemoryDescriptor>,
    d: EfiMemoryDescriptor,
    old_regions: Seq<MemoryRegion>,
    regions: Seq<MemoryRegion>,
    first: Option<usize>,
)
    requires
        is_free_descriptor(d),
        descriptor_end(d) <= usize::MAX,
        first is Some,
        first_free_address(before) == first,
        descriptor_end(d) <= first->0 || first->0 + 4096 <= d.p_addr,
        old_regions.len() > 0,
        old_regions.last().end == d.p_addr,
        old_regions.last().start <= old_regions.last().end,
        regions == old_regions.update(old_regions.len() - 1, MemoryRegion { start: old_regions.last().start, end: descriptor_end(d) as usize }),
        region_bytes(old_regions) == free_descriptor_bytes(before).difference(page_bytes(first)),
    ensures
        region_bytes(regions) == free_descriptor_bytes(before.push(d)).difference(page_bytes(first)),
{
    let after = before.push(d);
    let n = old_regions.len() - 1;
    let page = page_bytes(first);
    assert forall|x: int| region_bytes(regions).contains(x) <==> free_descriptor_bytes(after).difference(page).contains(x) by {
        if region_bytes(regions).contains(x) {
            let k = choose|k: int| 0 <= k < regions.len() && (#[trigger] regions[k]).start <= x < regions[k].end;
            if k != n || x < d.p_addr {
                assert(old_regions[k].start <= x < old_regions[k].end);
                assert(region_bytes(old_regions).contains(x));
                let j = choose|j: int|
                    0 <= j < before.len() && is_free_descriptor(before[j]) && before[j].p_addr <= x
                        < descriptor_end(before[j]);
                assert(after[j] == before[j]);
            } else {
                assert(after[before.len() as int] == d);
            }
        }
        if free_descriptor_bytes(after).difference(page).contains(x) {
            let j = choose|j: int|
                0 <= j < after.len() && is_free_descriptor(after[j]) && after[j].p_addr <= x
                    < descriptor_end(after[j]);
            if j < before.len() {
                assert(after[j] == before[j]);
                assert(free_descriptor_bytes(before).contains(x));
                assert(free_descriptor_bytes(before).difference(page).contains(x));
                assert(region_bytes(old_regions).contains(x));
                let k = choose|k: int| 0 <= k < old_regions.len() && (#[trigger] old_regions[k]).start <= x < old_regions[k].end;
                if k == n {
                    assert(regions[n].start <= x < regions[n].end);
                } else {
                    assert(regions[k] == old_regions[k]);
                }
            } else {
                assert(regions[n].start <= x < regions[n].end);
            }
        }
    }
    assert(region_bytes(regions) =~= free_descriptor_bytes(after).difference(page));
}

/// A descriptor that does not continue the last region becomes a new region.
proof fn lemma_bytes_push(
    before: Seq<EfiMemoryDescriptor>,
    d: EfiMemoryDescriptor,
    old_regions: Seq<MemoryRegion>,
    regions: Seq<MemoryRegion>,
    first: Option<usize>,
)
    requires
        is_free_descriptor(d),
        descriptor_end(d) <= usize::MAX,
        first is Some,
        first_free_address(before) == first,
        descriptor_end(d) <= first->0 || first->0 + 4096 <= d.p_addr,
        regions == old_regions.push(MemoryRegion { start: d.p_addr, end: descriptor_end(d) as usize }),
        region_bytes(old_regions) == free_descriptor_bytes(before).difference(page_bytes(first)),
    ensures
        region_bytes(regions) == free_descriptor_bytes(before.push(d)).difference(page_bytes(first)),
{
    let after = before.push(d);
    let n = old_regions.len() as int;
    let page = page_bytes(first);
    assert forall|x: int| region_bytes(regions).contains(x) <==> free_descriptor_bytes(after).difference(page).contains(x) by {
        if region_bytes(regions).contains(x) {
            let k = choose|k: int| 0 <= k < regions.len() && (#[trigger] regions[k]).start <= x < regions[k].end;
            if k < n {
                assert(old_regions[k].start <= x < old_regions[k].end);
                assert(region_bytes(old_regions).contains(x));
                let j = choose|j: int|
                    0 <= j < before.len() && is_free_descriptor(before[j]) && before[j].p_addr <= x
                        < descriptor_end(before[j]);
                assert(after[j] == before[j]);
            } else {
                assert(after[before.len() as int] == d);
            }
        }
        if free_descriptor_bytes(after).difference(page).contains(x) {
            let j = choose|j: int|
                0 <= j < after.len() && is_free_descriptor(after[j]) && after[j].p_addr <= x
                    < descriptor_end(after[j]);
            if j < before.len() {
                assert(after[j] == before[j]);
                assert(free_descriptor_bytes(before).contains(x));
                assert(free_descriptor_bytes(before).difference(page).contains(x));
                assert(region_bytes(old_regions).contains(x));
                let k = choose|k: int| 0 <= k < old_regions.len() && (#[trigger] old_regions[k]).start <= x < old_regions[k].end;
                assert(regions[k] == old_regions[k]);
            } else {
                assert(regions[n].start <= x < regions[n].end);
            }
        }
    }
    assert(region_bytes(regions) =~= free_descriptor_bytes(after).difference(page));
}

} // verus!
