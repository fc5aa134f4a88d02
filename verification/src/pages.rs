//! Four-level x86-64 page tables: their entries, and the mapping of 4 KiB
//! pages into a set of tables.
//!
//! The tables are held in a [`PageTableMemory`], which knows the tables by
//! the physical address of the frame each one lives in. Mapping a page walks
//! the tables from the root; where a table is missing the caller is asked
//! for a fresh frame, which becomes an empty table; where an entry leads to a
//! frame whose table is not known yet, the caller is asked for its contents.

use vstd::prelude::*;
use x86_64::PhysAddr;
use x86_64::structures::paging::{PhysFrame, Size4KiB};

verus! {

/// The bits of an entry that hold the physical address of a frame.
pub const ADDRESS_MASK: u64 = 0x000ffffffffff000;

/// The number of entries of a table.
pub const TABLE_ENTRIES: usize = 512;

/// The attributes of a page table entry.
#[derive(PartialEq, Eq, Clone, Copy, Debug, Structural)]
pub enum PageTableBits {
    Present,
    Write,
    UserAccessible,
    WriteThrough,
    CacheDisable,
    Accessed,
    Dirty,
    AttributeTable,
    Global,
    Address,
    ProtectionKey,
    ExecuteDisable,
}

/// The bits an attribute stands for.
pub open spec fn spec_bits(b: PageTableBits) -> u64 {
    match b {
        PageTableBits::Present => 1,
        PageTableBits::Write => 2,
        PageTableBits::UserAccessible => 4,
        PageTableBits::WriteThrough => 8,
        PageTableBits::CacheDisable => 16,
        PageTableBits::Accessed => 32,
        PageTableBits::Dirty => 64,
        PageTableBits::AttributeTable => 128,
        PageTableBits::Global => 256,
        PageTableBits::Address => 0x000ffffffffff000,
        PageTableBits::ProtectionKey => 0x7800000000000000,
        PageTableBits::ExecuteDisable => 0x8000000000000000,
    }
}

impl PageTableBits {
    /// The bits the attribute stands for.
    pub fn bits(&self) -> (r: u64)
        ensures
            r == spec_bits(*self),
    {
        match self {
            PageTableBits::Present => 1,
            PageTableBits::Write => 2,
            PageTableBits::UserAccessible => 4,
            PageTableBits::WriteThrough => 8,
            PageTableBits::CacheDisable => 16,
            PageTableBits::Accessed => 32,
            PageTableBits::Dirty => 64,
            PageTableBits::AttributeTable => 128,
            PageTableBits::Global => 256,
            PageTableBits::Address => 0x000ffffffffff000,
            PageTableBits::ProtectionKey => 0x7800000000000000,
            PageTableBits::ExecuteDisable => 0x8000000000000000,
        }
    }
}

/// Whether the raw entry `e` is present.
pub open spec fn entry_present(e: u64) -> bool {
    e & 1u64 != 0
}

/// The frame address that the raw entry `e` holds.
pub open spec fn entry_address(e: u64) -> u64 {
    e & 0x000ffffffffff000u64
}

/// The raw entry that `PageTableEntry::new` builds for `address`.
pub open spec fn spec_new_entry(address: u64) -> u64 {
    (address & 0x000ffffffffff000u64) | 1u64
}

/// The entry that leads to a lower table at `frame`: present, writable and
/// user accessible.
pub open spec fn spec_table_entry(frame: u64) -> u64 {
    spec_new_entry(frame) | 2u64 | 4u64
}

/// The entry that maps the 4 KiB page holding `physical_address`: present,
/// writable and user accessible.
pub open spec fn spec_leaf_entry(physical_address: u64) -> u64 {
    spec_new_entry(physical_address & !0xfffu64) | 1u64 | 2u64 | 4u64
}

/// Every page table holds 512 entries.
pub proof fn lemma_table_len(t: &PageTable)
    ensures
        t@.len() == 512,
{
}

/// An entry of a page table.
#[derive(PartialEq, Eq, Clone, Copy, Debug, Structural)]
pub struct PageTableEntry {
    pub entry: u64,
}

impl PageTableEntry {
    /// A present entry holding the frame address of `address` (its bits
    /// outside the address field are dropped).
    pub fn new(address: u64) -> (r: Self)
        ensures
            r.entry == spec_new_entry(address),
            entry_present(r.entry),
            entry_address(r.entry) == address & ADDRESS_MASK,
    {
        proof {
            lemma_new_entry(address);
        }
        PageTableEntry { entry: (address & PageTableBits::Address.bits()) | PageTableBits::Present.bits() }
    }

    /// The entry with the bits of `attr` set as well.
    pub fn with(&self, attr: PageTableBits) -> (r: Self)
        ensures
            r.entry == self.entry | spec_bits(attr),
    {
        PageTableEntry { entry: self.entry | attr.bits() }
    }

    /// Whether the entry is present.
    pub fn is_present(&self) -> (r: bool)
        ensures
            r == entry_present(self.entry),
    {
        self.entry & PageTableBits::Present.bits() != 0
    }

    /// The frame address the entry holds.
    pub fn address(&self) -> (r: u64)
        ensures
            r == entry_address(self.entry),
    {
        self.entry & PageTableBits::Address.bits()
    }
}

/// Setting attributes other than the address field keeps an entry's frame
/// address, and setting the present bit makes it present.
pub proof fn lemma_with_keeps_address(e: u64, attr: PageTableBits)
    requires
        attr != PageTableBits::Address,
    ensures
        entry_address(e | spec_bits(attr)) == entry_address(e),
        entry_present(e) ==> entry_present(e | spec_bits(attr)),
        attr == PageTableBits::Present ==> entry_present(e | spec_bits(attr)),
{
    lemma_flag_bits(e);
}

proof fn lemma_flag_bits(e: u64)
    by (bit_vector)
    ensures
        (e | 1u64) & 0x000ffffffffff000u64 == e & 0x000ffffffffff000u64,
        (e | 2u64) & 0x000ffffffffff000u64 == e & 0x000ffffffffff000u64,
        (e | 4u64) & 0x000ffffffffff000u64 == e & 0x000ffffffffff000u64,
        (e | 8u64) & 0x000ffffffffff000u64 == e & 0x000ffffffffff000u64,
        (e | 16u64) & 0x000ffffffffff000u64 == e & 0x000ffffffffff000u64,
        (e | 32u64) & 0x000ffffffffff000u64 == e & 0x000ffffffffff000u64,
        (e | 64u64) & 0x000ffffffffff000u64 == e & 0x000ffffffffff000u64,
        (e | 128u64) & 0x000ffffffffff000u64 == e & 0x000ffffffffff000u64,
        (e | 256u64) & 0x000ffffffffff000u64 == e & 0x000ffffffffff000u64,
        (e | 0x7800000000000000u64) & 0x000ffffffffff000u64 == e & 0x000ffffffffff000u64,
        (e | 0x8000000000000000u64) & 0x000ffffffffff000u64 == e & 0x000ffffffffff000u64,
        (e | 1u64) & 1u64 != 0,
        e & 1u64 != 0 ==> (e | 2u64) & 1u64 != 0,
        e & 1u64 != 0 ==> (e | 4u64) & 1u64 != 0,
        e & 1u64 != 0 ==> (e | 8u64) & 1u64 != 0,
        e & 1u64 != 0 ==> (e | 16u64) & 1u64 != 0,
        e & 1u64 != 0 ==> (e | 32u64) & 1u64 != 0,
        e & 1u64 != 0 ==> (e | 64u64) & 1u64 != 0,
        e & 1u64 != 0 ==> (e | 128u64) & 1u64 != 0,
        e & 1u64 != 0 ==> (e | 256u64) & 1u64 != 0,
        e & 1u64 != 0 ==> (e | 0x7800000000000000u64) & 1u64 != 0,
        e & 1u64 != 0 ==> (e | 0x8000000000000000u64) & 1u64 != 0,
{
}

proof fn lemma_new_entry(address: u64)
    by (bit_vector)
    ensures
        ((address & 0x000ffffffffff000u64) | 1u64) & 1u64 != 0,
        ((address & 0x000ffffffffff000u64) | 1u64) & 0x000ffffffffff000u64 == address
            & 0x000ffffffffff000u64,
{
}

/// The table entry and the leaf entry are present and hold the frame
/// address of their argument.
pub proof fn lemma_built_entries(frame: u64, physical_address: u64)
    ensures
        entry_present(spec_table_entry(frame)),
        entry_address(spec_table_entry(frame)) == frame & ADDRESS_MASK,
        entry_present(spec_leaf_entry(physical_address)),
        entry_address(spec_leaf_entry(physical_address)) == physical_address & ADDRESS_MASK,
{
    lemma_built_entries_bits(frame, physical_address);
}

proof fn lemma_built_entries_bits(frame: u64, pa: u64)
    by (bit_vector)
    ensures
        (((frame & 0x000ffffffffff000u64) | 1u64) | 2u64 | 4u64) & 1u64 != 0,
        (((frame & 0x000ffffffffff000u64) | 1u64) | 2u64 | 4u64) & 0x000ffffffffff000u64 == frame
            & 0x000ffffffffff000u64,
        ((((pa & !0xfffu64) & 0x000ffffffffff000u64) | 1u64) | 1u64 | 2u64 | 4u64) & 1u64 != 0,
        ((((pa & !0xfffu64) & 0x000ffffffffff000u64) | 1u64) | 1u64 | 2u64 | 4u64)
            & 0x000ffffffffff000u64 == pa & 0x000ffffffffff000u64,
{
}

/// A page table: 512 entries.
#[derive(Clone, Copy)]
pub struct PageTable {
    entries: [PageTableEntry; 512],
}

/// The raw words of a table's entries.
pub open spec fn raw_entries(t: [PageTableEntry; 512]) -> Seq<u64> {
    t@.map_values(|e: PageTableEntry| e.entry)
}

impl PageTable {
    /// The raw words of the entries.
    pub closed spec fn view(&self) -> Seq<u64> {
        raw_entries(self.entries)
    }

    /// A table whose entries are all zero (not present).
    pub fn zeroed() -> (r: Self)
        ensures
            r@ == Seq::new(512, |i: int| 0u64),
    {
        let t = PageTable { entries: [PageTableEntry { entry: 0 }; 512] };
        assert(t@ =~= Seq::new(512, |i: int| 0u64));
        t
    }

    /// The table with the given entries.
    pub fn from_entries(entries: [PageTableEntry; 512]) -> (r: Self)
        ensures
            r@ == raw_entries(entries),
    {
        PageTable { entries }
    }

    /// The table's entries.
    pub fn entries(&self) -> (r: [PageTableEntry; 512])
        ensures
            raw_entries(r) == self@,
    {
        self.entries
    }

    /// Replaces entry `index`.
    pub fn set_entry(&mut self, index: usize, entry: PageTableEntry)
        requires
            index < 512,
        ensures
            final(self)@ == old(self)@.update(index as int, entry.entry),
            final(self)@.len() == 512,
            final(self)@[index as int] == entry.entry,
            forall|j: int| 0 <= j < 512 && j != index ==> #[trigger] final(self)@[j] == old(self)@[j],
    {
        proof {
            lemma_table_len(&*self);
        }
        self.entries[index] = entry;
        assert(self@ =~= old(self)@.update(index as int, entry.entry));
    }

    /// Entry `index`.
    pub fn entry(&self, index: usize) -> (r: &PageTableEntry)
        requires
            index < 512,
        ensures
            r.entry == self@[index as int],
            self@.len() == 512,
    {
        &self.entries[index]
    }
}

/// The amount a virtual address is shifted by to give its index at a level
/// (0 for the last level of tables, 3 for the root).
pub open spec fn level_shift(level: nat) -> u64 {
    if level == 0 {
        12
    } else if level == 1 {
        21
    } else if level == 2 {
        30
    } else {
        39
    }
}

/// The index of the entry that translates `va` in a table of level `level`.
pub open spec fn table_index(va: u64, level: nat) -> int {
    ((va >> level_shift(level)) & 0x1ffu64) as int
}

/// The indices of `va` in the tables of levels 3 (the root) to 0.
pub fn table_indices(virtual_address: u64) -> (r: [usize; 4])
    ensures
        r[0] == table_index(virtual_address, 3),
        r[1] == table_index(virtual_address, 2),
        r[2] == table_index(virtual_address, 1),
        r[3] == table_index(virtual_address, 0),
        forall|i: int| 0 <= i < 4 ==> r[i] < 512,
{
    proof {
        lemma_index_bound(virtual_address);
    }
    let l4_index = ((virtual_address >> 39) & 0x1FF) as usize;
    let l3_index = ((virtual_address >> 30) & 0x1FF) as usize;
    let l2_index = ((virtual_address >> 21) & 0x1FF) as usize;
    let l1_index = ((virtual_address >> 12) & 0x1FF) as usize;
    [l4_index, l3_index, l2_index, l1_index]
}

proof fn lemma_index_bound(va: u64)
    by (bit_vector)
    ensures
        (va >> 39u64) & 0x1ffu64 < 512,
        (va >> 30u64) & 0x1ffu64 < 512,
        (va >> 21u64) & 0x1ffu64 < 512,
        (va >> 12u64) & 0x1ffu64 < 512,
{
}

/// Whether every table of `m` has 512 entries.
pub open spec fn tables_wf(m: Map<u64, Seq<u64>>) -> bool {
    forall|a: u64| #[trigger] m.contains_key(a) ==> m[a].len() == 512
}

/// The frame of the leaf page that the tables `m` map `va` to, walking from
/// the table at `t` of level `level`.
pub open spec fn walk(m: Map<u64, Seq<u64>>, t: u64, va: u64, level: nat) -> Option<u64>
    decreases level,
{
    if !m.contains_key(t) {
        None
    } else {
        let e = m[t][table_index(va, level)];
        if !entry_present(e) {
            None
        } else if level == 0 {
            Some(entry_address(e))
        } else {
            walk(m, entry_address(e), va, (level - 1) as nat)
        }
    }
}

/// The frame that the tables `m` with root `root` map the page of `va` to.
pub open spec fn translate(m: Map<u64, Seq<u64>>, root: u64, va: u64) -> Option<u64> {
    walk(m, root, va, 3)
}

/// Where a walk for mapping a page ends.
#[derive(PartialEq, Eq, Clone, Copy, Debug, Structural)]
pub enum WalkEnd {
    /// The last-level table that holds the page's entry.
    Leaf(u64),
    /// The entry `index` of the table at `parent` is not present: a table is
    /// missing below it.
    Missing(u64, usize),
    /// An entry leads to the frame at this address, whose table is not known.
    Unknown(u64),
}

/// Where the walk for mapping `va` ends, from the table at `t` of level
/// `level`.
pub open spec fn walk_end(m: Map<u64, Seq<u64>>, t: u64, va: u64, level: nat) -> WalkEnd
    decreases level,
{
    if level == 0 {
        WalkEnd::Leaf(t)
    } else {
        let e = m[t][table_index(va, level)];
        if !entry_present(e) {
            WalkEnd::Missing(t, table_index(va, level) as usize)
        } else if !m.contains_key(entry_address(e)) {
            WalkEnd::Unknown(entry_address(e))
        } else {
            walk_end(m, entry_address(e), va, (level - 1) as nat)
        }
    }
}

/// Whether the walk for `va` from the table at `t` of level `level` reads
/// the entry `index` of the table at `frame` before the last level.
pub open spec fn walk_reads(
    m: Map<u64, Seq<u64>>,
    t: u64,
    va: u64,
    level: nat,
    frame: u64,
    index: int,
) -> bool
    decreases level,
{
    if level == 0 || !m.contains_key(t) {
        false
    } else {
        (t == frame && table_index(va, level) == index) || {
            let e = m[t][table_index(va, level)];
            entry_present(e) && walk_reads(m, entry_address(e), va, (level - 1) as nat, frame, index)
        }
    }
}

/// What mapping a page gave.
#[derive(PartialEq, Eq, Clone, Copy, Debug, Structural)]
pub enum MapResult {
    /// The page is mapped.
    Mapped,
    /// The entry `index` of the table at `parent` is not present: a fresh
    /// frame must be installed there as a new table, then the mapping tried
    /// again.
    NeedTable { parent: u64, index: usize },
    /// An entry leads to the frame at `frame`, whose table must be added to
    /// the memory before the mapping is tried again.
    UnknownTable { frame: u64 },
}

/// The page tables, each known by the physical address of its frame.
pub struct PageTableMemory {
    frames: Vec<u64>,
    tables: Vec<PageTable>,
}

impl PageTableMemory {
    /// The tables, by frame address.
    pub closed spec fn view(&self) -> Map<u64, Seq<u64>> {
        Map::new(
            |a: u64| self.frames@.contains(a),
            |a: u64| self.tables@[self.frames@.index_of(a)]@,
        )
    }

    /// The internal invariant: one table per frame, no frame twice.
    pub closed spec fn wf(&self) -> bool {
        &&& self.frames@.len() == self.tables@.len()
        &&& self.frames@.no_duplicates()
        &&& forall|i: int| 0 <= i < self.tables@.len() ==> (#[trigger] self.tables@[i])@.len() == 512
    }

    /// The tables of the new address space: the root at `root_frame` holds
    /// a copy of `current_root`, the root of the current address space, whose
    /// last entry is replaced by an entry leading to the root itself.
    pub fn init_paging(root_frame: u64, current_root: [PageTableEntry; 512]) -> (r: Self)
        ensures
            r.wf(),
            r@.dom() == set![root_frame],
            r@[root_frame] == raw_entries(current_root).update(511, spec_table_entry(root_frame)),
    {
        let mut root = PageTable::from_entries(current_root);
        let e = PageTableEntry::new(root_frame).with(PageTableBits::Write).with(
            PageTableBits::UserAccessible,
        );
        root.set_entry(511, e);
        let mut frames: Vec<u64> = Vec::new();
        let mut tables: Vec<PageTable> = Vec::new();
        frames.push(root_frame);
        tables.push(root);
        let r = PageTableMemory { frames, tables };
        proof {
            assert(r.frames@ =~= seq![root_frame]);
            assert(r.frames@.index_of(root_frame) == 0) by {
                assert(r.frames@[0] == root_frame);
            }
            assert(r@.dom() =~= set![root_frame]);
        }
        r
    }

    /// The position of the table at `frame`, if it is known.
    fn find(&self, frame: u64) -> (r: Option<usize>)
        requires
            self.wf(),
        ensures
            r matches Some(i) ==> i < self.frames@.len() && self.frames@[i as int] == frame
                && self.frames@.index_of(frame) == i,
            r is None <==> !self@.contains_key(frame),
    {
        let mut i: usize = 0;
        while i < self.frames.len()
            invariant
                self.wf(),
                i <= self.frames@.len(),
                forall|j: int| 0 <= j < i ==> self.frames@[j] != frame,
            decreases self.frames@.len() - i,
        {
            if self.frames[i] == frame {
                proof {
                    self.frames@.index_of_first_ensures(frame);
                    assert(self.frames@.contains(frame));
                    lemma_index_of_unique(self.frames@, frame, i as int);
                }
                return Some(i);
            }
            i = i + 1;
        }
        proof {
            assert(!self.frames@.contains(frame));
        }
        None
    }

    /// Whether a table is known at `frame`.
    pub fn contains(&self, frame: u64) -> (r: bool)
        requires
            self.wf(),
        ensures
            r == self@.contains_key(frame),
    {
        self.find(frame).is_some()
    }

    /// The table at `frame`, which must be known.
    pub fn table(&self, frame: u64) -> (r: PageTable)
        requires
            self.wf(),
            self@.contains_key(frame),
        ensures
            r@ == self@[frame],
    {
        let i = self.find(frame).unwrap();
        self.tables[i]
    }

    /// Adds the table at `frame`, which must not be known yet.
    pub fn insert_table(&mut self, frame: u64, table: PageTable)
        requires
            old(self).wf(),
            !old(self)@.contains_key(frame),
        ensures
            final(self).wf(),
            final(self)@ == old(self)@.insert(frame, table@),
    {
        proof {
            assert(table@.len() == 512);
        }
        let ghost old_frames = self.frames@;
        let ghost old_tables = self.tables@;
        self.frames.push(frame);
        self.tables.push(table);
        proof {
            assert forall|a: u64| old_frames.contains(a) implies self.frames@.index_of(a)
                == old_frames.index_of(a) by {
                old_frames.index_of_first_ensures(a);
                let k = old_frames.index_of(a);
                assert(self.frames@[k] == a);
                lemma_index_of_unique(self.frames@, a, k);
            }
            assert(self.frames@.index_of(frame) == old_frames.len()) by {
                assert(self.frames@[old_frames.len() as int] == frame);
                lemma_index_of_unique(self.frames@, frame, old_frames.len() as int);
            }
            assert forall|k: int| 0 <= k < old_tables.len() implies self.tables@[k] == old_tables[k] by {}
            assert(self.tables@[old_tables.len() as int] == table);
            assert forall|a: u64| #[trigger] self@.contains_key(a) <==> old(self)@.insert(frame, table@).contains_key(a) by {
                if a == frame {
                    assert(self.frames@[old_frames.len() as int] == frame);
                } else if old_frames.contains(a) {
                    let k = old_frames.index_of(a);
                    old_frames.index_of_first_ensures(a);
                    assert(self.frames@[k] == a);
                } else if self.frames@.contains(a) {
                    let k = choose|k: int| 0 <= k < self.frames@.len() && self.frames@[k] == a;
                    if k < old_frames.len() {
                        assert(old_frames[k] == a);
                    }
                }
            }
            assert forall|a: u64| #[trigger] self@.contains_key(a) implies self@[a] == old(self)@.insert(frame, table@)[a] by {
                if a != frame {
                    old_frames.index_of_first_ensures(a);
                }
            }
            assert(self@ =~= old(self)@.insert(frame, table@));
        }
    }

    /// Replaces entry `index` of the known table at `frame`.
    fn set_table_entry(&mut self, frame: u64, index: usize, entry: PageTableEntry)
        requires
            old(self).wf(),
            old(self)@.contains_key(frame),
            index < 512,
        ensures
            final(self).wf(),
            final(self)@ == old(self)@.insert(
                frame,
                old(self)@[frame].update(index as int, entry.entry),
            ),
    {
        let i = self.find(frame).unwrap();
        let mut t = self.tables[i];
        t.set_entry(index, entry);
        self.tables.set(i, t);
        proof {
            assert(self@ =~= old(self)@.insert(
                frame,
                old(self)@[frame].update(index as int, entry.entry),
            ));
        }
    }

    /// Installs the fresh frame `frame` as an empty table below the entry
    /// `index` of the table at `parent`: the entry then leads to it, present,
    /// writable and user accessible.
    pub fn install_table(&mut self, parent: u64, index: usize, frame: u64)
        requires
            old(self).wf(),
            old(self)@.contains_key(parent),
            !old(self)@.contains_key(frame),
            index < 512,
        ensures
            final(self).wf(),
            final(self)@ == old(self)@.insert(frame, Seq::new(512, |i: int| 0u64)).insert(
                parent,
                old(self)@[parent].update(index as int, spec_table_entry(frame)),
            ),
    {
        let t = PageTable::zeroed();
        self.insert_table(frame, t);
        let e = PageTableEntry::new(frame).with(PageTableBits::Write).with(
            PageTableBits::UserAccessible,
        );
        self.set_table_entry(parent, index, e);
    }

    /// One step of the walk for `va`: the entry of the table at `t` for
    /// level `level`.
    fn step(&self, t: u64, va: u64, level: usize) -> (r: WalkEnd)
        requires
            self.wf(),
            self@.contains_key(t),
            1 <= level <= 3,
        ensures
            ({
                let e = self@[t][table_index(va, level as nat)];
                if !entry_present(e) {
                    r == WalkEnd::Missing(t, table_index(va, level as nat) as usize)
                } else if !self@.contains_key(entry_address(e)) {
                    r == WalkEnd::Unknown(entry_address(e))
                } else {
                    r == WalkEnd::Leaf(entry_address(e))
                }
            }),
    {
        let idx = table_indices(va);
        let index = idx[3 - level];
        let table = self.table(t);
        let e = *table.entry(index);
        if !e.is_present() {
            return WalkEnd::Missing(t, index);
        }
        let next = e.address();
        if !self.contains(next) {
            return WalkEnd::Unknown(next);
        }
        WalkEnd::Leaf(next)
    }

    /// Maps the 4 KiB page of `virtual_address` to the page of
    /// `physical_address` in the tables with root `root`.
    ///
    /// The walk from the root either reaches the last-level table, whose
    /// entry for the page is then set to a present, writable, user
    /// accessible entry for the physical page; or it stops at a missing
    /// table, or at a table that is not known, and says so, leaving the
    /// tables as they are.
    pub fn map_page(&mut self, root: u64, physical_address: u64, virtual_address: u64) -> (r:
        MapResult)
        requires
            old(self).wf(),
            old(self)@.contains_key(root),
        ensures
            final(self).wf(),
            match walk_end(old(self)@, root, virtual_address, 3) {
                WalkEnd::Leaf(l1) => r == MapResult::Mapped && final(self)@ == old(self)@.insert(
                    l1,
                    old(self)@[l1].update(
                        table_index(virtual_address, 0),
                        spec_leaf_entry(physical_address),
                    ),
                ),
                WalkEnd::Missing(p, i) => r == MapResult::NeedTable { parent: p, index: i }
                    && final(self)@ == old(self)@,
                WalkEnd::Unknown(a) => r == MapResult::UnknownTable { frame: a } && final(self)@
                    == old(self)@,
            },
    {
        let va = virtual_address;
        let ghost m = self@;
        let l3 = match self.step(root, va, 3) {
            WalkEnd::Leaf(n) => n,
            WalkEnd::Missing(p, i) => {
                return MapResult::NeedTable { parent: p, index: i };
            },
            WalkEnd::Unknown(a) => {
                return MapResult::UnknownTable { frame: a };
            },
        };
        assert(walk_end(m, root, va, 3) == walk_end(m, l3, va, 2));
        let l2 = match self.step(l3, va, 2) {
            WalkEnd::Leaf(n) => n,
            WalkEnd::Missing(p, i) => {
                return MapResult::NeedTable { parent: p, index: i };
            },
            WalkEnd::Unknown(a) => {
                return MapResult::UnknownTable { frame: a };
            },
        };
        assert(walk_end(m, l3, va, 2) == walk_end(m, l2, va, 1));
        let l1 = match self.step(l2, va, 1) {
            WalkEnd::Leaf(n) => n,
            WalkEnd::Missing(p, i) => {
                return MapResult::NeedTable { parent: p, index: i };
            },
            WalkEnd::Unknown(a) => {
                return MapResult::UnknownTable { frame: a };
            },
        };
        assert(walk_end(m, l2, va, 1) == walk_end(m, l1, va, 0));
        assert(walk_end(m, root, va, 3) == WalkEnd::Leaf(l1));
        let idx = table_indices(va);
        let leaf = PageTableEntry::new(physical_address & !0xFFF).with(PageTableBits::Present).with(
            PageTableBits::Write,
        ).with(PageTableBits::UserAccessible);
        self.set_table_entry(l1, idx[3], leaf);
        MapResult::Mapped
    }
}

/// After a page is mapped, translating its virtual address gives the frame
/// of the physical page, unless the walk to the last-level table itself
/// reads the entry that was set (a table reached through itself).
pub proof fn lemma_map_then_translate(
    m: Map<u64, Seq<u64>>,
    root: u64,
    physical_address: u64,
    virtual_address: u64,
)
    requires
        tables_wf(m),
        m.contains_key(root),
        walk_end(m, root, virtual_address, 3) is Leaf,
        !walk_reads(
            m,
            root,
            virtual_address,
            3,
            walk_end(m, root, virtual_address, 3)->Leaf_0,
            table_index(virtual_address, 0),
        ),
    ensures
        ({
            let l1 = walk_end(m, root, virtual_address, 3)->Leaf_0;
            let after = m.insert(
                l1,
                m[l1].update(table_index(virtual_address, 0), spec_leaf_entry(physical_address)),
            );
            translate(after, root, virtual_address) == Some(physical_address & ADDRESS_MASK)
        }),
{
    let l1 = walk_end(m, root, virtual_address, 3)->Leaf_0;
    lemma_built_entries(0, physical_address);
    lemma_map_walk(m, root, virtual_address, 3, l1, physical_address);
}

proof fn lemma_map_walk(m: Map<u64, Seq<u64>>, t: u64, va: u64, level: nat, l1: u64, pa: u64)
    requires
        tables_wf(m),
        m.contains_key(t),
        level <= 3,
        walk_end(m, t, va, level) == WalkEnd::Leaf(l1),
        !walk_reads(m, t, va, level, l1, table_index(va, 0)),
        entry_present(spec_leaf_entry(pa)),
        entry_address(spec_leaf_entry(pa)) == pa & ADDRESS_MASK,
    ensures
        walk(m.insert(l1, m[l1].update(table_index(va, 0), spec_leaf_entry(pa))), t, va, level)
            == Some(pa & ADDRESS_MASK),
    decreases level,
{
    let after = m.insert(l1, m[l1].update(table_index(va, 0), spec_leaf_entry(pa)));
    lemma_index_range(va);
    if level == 0 {
        assert(t == l1);
        assert(after[t][table_index(va, 0)] == spec_leaf_entry(pa));
    } else {
        let e = m[t][table_index(va, level)];
        assert(after[t][table_index(va, level)] == e);
        lemma_map_walk(m, entry_address(e), va, (level - 1) as nat, l1, pa);
    }
}

proof fn lemma_index_range(va: u64)
    ensures
        forall|level: nat| 0 <= #[trigger] table_index(va, level) < 512,
{
    assert forall|level: nat| 0 <= #[trigger] table_index(va, level) < 512 by {
        let s = level_shift(level);
        lemma_mask_bound(va, s);
    }
}

proof fn lemma_mask_bound(va: u64, s: u64)
    by (bit_vector)
    ensures
        (va >> s) & 0x1ffu64 < 512,
{
}

/// Installing a fresh table below an entry that was not present keeps every
/// translation that existed before.
pub proof fn lemma_install_keeps_translations(
    m: Map<u64, Seq<u64>>,
    parent: u64,
    index: int,
    frame: u64,
    root: u64,
    va: u64,
)
    requires
        tables_wf(m),
        m.contains_key(parent),
        0 <= index < 512,
        !entry_present(m[parent][index]),
        !m.contains_key(frame),
        translate(m, root, va) is Some,
    ensures
        translate(
            m.insert(frame, Seq::new(512, |i: int| 0u64)).insert(
                parent,
                m[parent].update(index, spec_table_entry(frame)),
            ),
            root,
            va,
        ) == translate(m, root, va),
{
    lemma_install_walk(m, parent, index, frame, root, va, 3);
}

proof fn lemma_install_walk(
    m: Map<u64, Seq<u64>>,
    parent: u64,
    index: int,
    frame: u64,
    t: u64,
    va: u64,
    level: nat,
)
    requires
        tables_wf(m),
        m.contains_key(parent),
        0 <= index < 512,
        !entry_present(m[parent][index]),
        !m.contains_key(frame),
        walk(m, t, va, level) is Some,
    ensures
        walk(
            m.insert(frame, Seq::new(512, |i: int| 0u64)).insert(
                parent,
                m[parent].update(index, spec_table_entry(frame)),
            ),
            t,
            va,
            level,
        ) == walk(m, t, va, level),
    decreases level,
{
    let after = m.insert(frame, Seq::new(512, |i: int| 0u64)).insert(
        parent,
        m[parent].update(index, spec_table_entry(frame)),
    );
    lemma_index_range(va);
    let e = m[t][table_index(va, level)];
    assert(t != frame);
    assert(after.contains_key(t));
    assert(after[t][table_index(va, level)] == e);
    if level > 0 {
        lemma_install_walk(m, parent, index, frame, entry_address(e), va, (level - 1) as nat);
    }
}

/// The table memory always keeps every table at 512 entries.
pub proof fn lemma_memory_tables_wf(mem: &PageTableMemory)
    requires
        mem.wf(),
    ensures
        tables_wf(mem@),
{
    assert forall|a: u64| #[trigger] mem@.contains_key(a) implies mem@[a].len() == 512 by {
        mem.frames@.index_of_first_ensures(a);
    }
}

/// The start address of the 4 KiB frame that contains `addr`, as x86_64's
/// `PhysFrame::<Size4KiB>::containing_address(PhysAddr::new(addr))` gives
/// it. `PhysAddr::new` panics when a bit from 52 on is set, which the
/// `requires` rules out; `containing_address` aligns the address down to
/// 4096, that is clears its lower twelve bits.
#[verifier::external_body]
fn frame_containing(addr: u64) -> (r: u64)
    requires
        addr < 0x10_0000_0000_0000,
    ensures
        r == addr & !0xfffu64,
{
    PhysFrame::<Size4KiB>::containing_address(PhysAddr::new(addr)).start_address().as_u64()
}

/// The frame to load into the page table base register for the root table
/// at `root`: the 4 KiB frame that contains it.
pub fn root_frame(root: u64) -> (r: u64)
    requires
        root < 0x10_0000_0000_0000,
    ensures
        r == root & !0xfffu64,
        r <= root,
        r % 4096 == 0,
{
    proof {
        lemma_align_down(root);
    }
    frame_containing(root)
}

proof fn lemma_align_down(a: u64)
    by (bit_vector)
    ensures
        a & !0xfffu64 <= a,
        (a & !0xfffu64) % 4096 == 0,
{
}

proof fn lemma_index_of_unique(s: Seq<u64>, a: u64, k: int)
    requires
        s.no_duplicates(),
        0 <= k < s.len(),
        s[k] == a,
    ensures
        s.index_of(a) == k,
{
    s.index_of_first_ensures(a);
    assert(s.contains(a));
    let j = s.index_of(a);
    assert(s[j] == a);
}

} // verus!
