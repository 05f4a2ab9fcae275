//! x86_64 paging structures.
use vstd::prelude::*;

use crate::kernel_args::OSMemEntry;

pub mod page_flags;

verus! {

/// Size of a standard page.
pub const PAGE_SIZE: usize = 4096;

/// Size of a large (2 MiB) page.
pub const PAGE_SIZE_2M: usize = 2 * 1024 * 1024;

/// Size of a huge (1 GiB) page.
pub const PAGE_SIZE_1G: usize = 1024 * 1024 * 1024;

/// Bits 12..=51 of an entry: the physical address it points to.
pub const ADDRESS_MASK: u64 = 0x000f_ffff_ffff_f000;

/// Bits 0..=11 of an entry: the flags that an entry is built with.
pub const FLAG_MASK: u64 = 0xfff;

/// Number of entries in one page table.
pub const ENTRIES_PER_TABLE: usize = 512;

/// The 64 bits of the entry that `PageTableEntry::new` builds from an
/// address and flags.
pub open spec fn entry_bits(phys_addr: u64, flags: u64) -> u64 {
    (phys_addr & ADDRESS_MASK) | (flags & FLAG_MASK)
}

/// A page table entry
#[derive(Clone, Copy)]
pub struct PageTableEntry(u64);

impl View for PageTableEntry {
    type V = u64;

    /// The raw 64-bit value of the entry.
    closed spec fn view(&self) -> u64 {
        self.0
    }
}

impl PageTableEntry {
    /// Create a new page table entry pointing to the given physical address
    pub fn new(phys_addr: u64, flags: u64) -> (entry: Self)
        ensures
            entry@ == entry_bits(phys_addr, flags),
    {
        PageTableEntry((phys_addr & ADDRESS_MASK) | (flags & FLAG_MASK))
    }

    /// Check if this entry is present (valid)
    pub fn present(&self) -> (is_present: bool)
        ensures
            is_present == (self@ & page_flags::PRESENT != 0),
    {
        self.0 & page_flags::PRESENT != 0
    }

    /// Get the physical address pointed to by this entry
    pub fn address(&self) -> (addr: u64)
        ensures
            addr == self@ & ADDRESS_MASK,
    {
        self.0 & ADDRESS_MASK
    }

    /// Get the raw entry value
    pub fn raw(&self) -> (value: u64)
        ensures
            value == self@,
    {
        self.0
    }
}

/// An entry built from an address and flags points at that address with its
/// low twelve bits cleared and everything above bit 51 dropped.
pub proof fn lemma_new_entry_address(phys_addr: u64, flags: u64)
    ensures
        entry_bits(phys_addr, flags) & ADDRESS_MASK == phys_addr & ADDRESS_MASK,
{
    assert((((phys_addr & 0x000f_ffff_ffff_f000u64) | (flags & 0xfffu64)) & 0x000f_ffff_ffff_f000u64)
        == phys_addr & 0x000f_ffff_ffff_f000u64) by (bit_vector);
}

/// An entry built from an address and flags sets none of bits 52..=63 (so
/// in particular not `NO_EXECUTE`), and is exactly its address bits plus its
/// low twelve flag bits.
pub proof fn lemma_new_entry_high_bits_clear(phys_addr: u64, flags: u64)
    ensures
        entry_bits(phys_addr, flags) & 0xfff0_0000_0000_0000 == 0,
        entry_bits(phys_addr, flags) & page_flags::NO_EXECUTE == 0,
        entry_bits(phys_addr, flags) == (entry_bits(phys_addr, flags) & 0x000f_ffff_ffff_f000)
            | (entry_bits(phys_addr, flags) & 0xfff),
{
    let e = entry_bits(phys_addr, flags);
    assert(e == (phys_addr & 0x000f_ffff_ffff_f000u64) | (flags & 0xfffu64));
    assert(page_flags::NO_EXECUTE == 0x8000_0000_0000_0000u64) by (bit_vector);
    assert(((phys_addr & 0x000f_ffff_ffff_f000u64) | (flags & 0xfffu64)) & 0xfff0_0000_0000_0000u64
        == 0) by (bit_vector);
    assert(((phys_addr & 0x000f_ffff_ffff_f000u64) | (flags & 0xfffu64)) & 0x8000_0000_0000_0000u64
        == 0) by (bit_vector);
    assert(forall|x: u64|
        #![auto]
        x & 0xfff0_0000_0000_0000u64 == 0 ==> x == (x & 0x000f_ffff_ffff_f000u64) | (x
            & 0xfffu64)) by (bit_vector);
}

/// A page-aligned address below 2^52 comes back unchanged from an entry
/// built with it.
pub proof fn lemma_aligned_address_round_trip(phys_addr: u64, flags: u64)
    requires
        phys_addr % 4096 == 0,
        phys_addr < 0x0010_0000_0000_0000,
    ensures
        entry_bits(phys_addr, flags) & ADDRESS_MASK == phys_addr,
{
    lemma_new_entry_address(phys_addr, flags);
    assert(phys_addr & 0x000f_ffff_ffff_f000u64 == phys_addr) by (bit_vector)
        requires
            phys_addr % 4096 == 0,
            phys_addr < 0x0010_0000_0000_0000u64,
    ;
}

/// An entry keeps the low twelve bits of the flags it is built with, and so
/// it is present exactly when those flags hold `PRESENT`.
pub proof fn lemma_new_entry_flags(phys_addr: u64, flags: u64)
    ensures
        entry_bits(phys_addr, flags) & FLAG_MASK == flags & FLAG_MASK,
        (entry_bits(phys_addr, flags) & page_flags::PRESENT != 0) == (flags & page_flags::PRESENT
            != 0),
{
    assert((((phys_addr & 0x000f_ffff_ffff_f000u64) | (flags & 0xfffu64)) & 0xfffu64) == flags
        & 0xfffu64) by (bit_vector);
    assert(page_flags::PRESENT == 1) by (bit_vector);
    assert(((((phys_addr & 0x000f_ffff_ffff_f000u64) | (flags & 0xfffu64)) & 1u64) != 0) == ((
    flags & 1u64) != 0)) by (bit_vector);
}


/// What reading slot `index` of a table whose entries are `table` gives: the
/// entry there, or an empty entry for an index past the end.
pub open spec fn entry_at(table: Seq<u64>, index: int) -> u64 {
    if 0 <= index < table.len() {
        table[index]
    } else {
        0
    }
}

/// The entries of `table` after writing `value` to slot `index`; a write past
/// the end changes nothing.
pub open spec fn with_entry(table: Seq<u64>, index: int, value: u64) -> Seq<u64> {
    if 0 <= index < table.len() {
        table.update(index, value)
    } else {
        table
    }
}

/// The entries of `table` after the writes `writes`, each a slot and a raw
/// value, made in order.
pub open spec fn with_entries(table: Seq<u64>, writes: Seq<(int, u64)>) -> Seq<u64>
    decreases writes.len(),
{
    if writes.len() == 0 {
        table
    } else {
        with_entry(with_entries(table, writes.drop_last()), writes.last().0, writes.last().1)
    }
}

/// The value of the last of `writes` made to slot `index`, if any.
pub open spec fn last_write(writes: Seq<(int, u64)>, index: int) -> Option<u64>
    decreases writes.len(),
{
    if writes.len() == 0 {
        None
    } else if writes.last().0 == index {
        Some(writes.last().1)
    } else {
        last_write(writes.drop_last(), index)
    }
}

/// After any sequence of writes, a slot of the table reads as the last value
/// written to it, or as before when it was never written; a slot past the
/// end reads as an empty entry. Writes never change the number of slots.
pub proof fn lemma_get_after_writes(table: Seq<u64>, writes: Seq<(int, u64)>, index: int)
    ensures
        with_entries(table, writes).len() == table.len(),
        entry_at(with_entries(table, writes), index) == if 0 <= index < table.len() {
            match last_write(writes, index) {
                Some(value) => value,
                None => table[index],
            }
        } else {
            0
        },
    decreases writes.len(),
{
    if writes.len() > 0 {
        lemma_get_after_writes(table, writes.drop_last(), index);
        let before = with_entries(table, writes.drop_last());
        lemma_get_after_set(before, writes.last().0, writes.last().1);
        if writes.last().0 != index {
            lemma_set_keeps_other_slots(before, writes.last().0, writes.last().1, index);
        }
    }
}

/// A page table (512 entries, 4096 bytes)
pub struct PageTable {
    entries: [PageTableEntry; 512],
}

impl View for PageTable {
    type V = Seq<u64>;

    /// The raw values of the entries, in slot order.
    closed spec fn view(&self) -> Seq<u64> {
        self.entries@.map_values(|e: PageTableEntry| e@)
    }
}

impl PageTable {
    /// Create a new page table with all entries zeroed
    pub fn new() -> (table: Self)
        ensures
            table@ == Seq::new(ENTRIES_PER_TABLE as nat, |i: int| 0u64),
    {
        let table = PageTable { entries: [PageTableEntry(0); 512] };
        assert(table@ =~= Seq::new(ENTRIES_PER_TABLE as nat, |i: int| 0u64));
        table
    }

    /// Set an entry in this page table
    pub fn set_entry(&mut self, index: usize, entry: PageTableEntry)
        ensures
            final(self)@ == with_entry(old(self)@, index as int, entry@),
    {
        if index < 512 {
            self.entries[index] = entry;
        }
        assert(self@ =~= with_entry(old(self)@, index as int, entry@));
    }

    /// Get an entry from this page table
    pub fn get_entry(&self, index: usize) -> (entry: PageTableEntry)
        ensures
            entry@ == entry_at(self@, index as int),
    {
        if index < 512 {
            self.entries[index]
        } else {
            PageTableEntry(0)
        }
    }

    /// Every page table has exactly `ENTRIES_PER_TABLE` slots.
    pub proof fn lemma_len(&self)
        ensures
            self@.len() == ENTRIES_PER_TABLE,
    {
    }
}

/// Reading a slot gives back what was last written there; a write past the
/// end is ignored, and reading past the end gives an empty entry.
pub proof fn lemma_get_after_set(table: Seq<u64>, index: int, value: u64)
    ensures
        entry_at(with_entry(table, index, value), index) == if 0 <= index < table.len() {
            value
        } else {
            0
        },
{
}

/// Writing one slot leaves every other slot as it was.
pub proof fn lemma_set_keeps_other_slots(table: Seq<u64>, index: int, value: u64, other: int)
    requires
        other != index,
    ensures
        entry_at(with_entry(table, index, value), other) == entry_at(table, other),
{
}


/// The UEFI memory type of conventional RAM, the memory that can be
/// allocated (`MemoryType::CONVENTIONAL`).
pub open spec fn conventional_memory_type() -> u32 {
    7
}

/// Reads the code of `uefi::table::boot::MemoryType::CONVENTIONAL`; the
/// claim is the value that constant is defined with (7).
#[verifier::external_body]
fn conventional_type_code() -> (code: u32)
    ensures
        code == conventional_memory_type(),
{
    uefi::table::boot::MemoryType::CONVENTIONAL.0
}

/// Size in bytes of a memory region.
pub open spec fn region_bytes(region: OSMemEntry) -> int {
    region.pages * PAGE_SIZE
}

/// Whether `phys_addr` lies in `region`.
pub open spec fn region_contains(region: OSMemEntry, phys_addr: int) -> bool {
    region.base <= phys_addr < region.base + region_bytes(region)
}

/// Total size in bytes of all `regions`.
pub open spec fn total_bytes(regions: Seq<OSMemEntry>) -> int
    decreases regions.len(),
{
    if regions.len() == 0 {
        0
    } else {
        total_bytes(regions.drop_last()) + region_bytes(regions.last())
    }
}

/// Total size in bytes of the conventional-RAM regions among `regions`.
pub open spec fn usable_bytes(regions: Seq<OSMemEntry>) -> int
    decreases regions.len(),
{
    if regions.len() == 0 {
        0
    } else {
        usable_bytes(regions.drop_last()) + if regions.last().ty == conventional_memory_type() {
            region_bytes(regions.last())
        } else {
            0
        }
    }
}

/// Whether `index` is the first of `regions` that contains `phys_addr`.
pub open spec fn is_first_region_containing(
    regions: Seq<OSMemEntry>,
    phys_addr: int,
    index: int,
) -> bool {
    &&& 0 <= index < regions.len()
    &&& region_contains(regions[index], phys_addr)
    &&& forall|j: int| 0 <= j < index ==> !region_contains(#[trigger] regions[j], phys_addr)
}

/// A prefix of a memory map is no larger than the whole map, in total and
/// in usable bytes.
proof fn lemma_prefix_bytes_le(regions: Seq<OSMemEntry>, n: int)
    requires
        0 <= n <= regions.len(),
    ensures
        total_bytes(regions.take(n)) <= total_bytes(regions),
        usable_bytes(regions.take(n)) <= usable_bytes(regions),
    decreases regions.len(),
{
    if n < regions.len() {
        let shorter = regions.drop_last();
        assert(regions.take(n) =~= shorter.take(n));
        lemma_prefix_bytes_le(shorter, n);
    } else {
        assert(regions.take(n) =~= regions);
    }
}

/// The memory map less its last region, seen through `take`.
proof fn lemma_take_step(regions: Seq<OSMemEntry>, i: int)
    requires
        0 <= i < regions.len(),
    ensures
        regions.take(i + 1).drop_last() =~= regions.take(i),
        regions.take(i + 1).last() == regions[i],
{
}

/// A region holds the bytes from its base up to, not including, its base
/// plus 4096 bytes per page, whatever its memory type.
pub proof fn lemma_region_contains_byte_range(region: OSMemEntry, phys_addr: int)
    ensures
        region_contains(region, phys_addr) <==> region.base <= phys_addr < region.base
            + region.pages * 4096,
{
}

/// A map of one region holds that region's pages of 4096 bytes in total,
/// and as much usable memory when the region is conventional RAM (UEFI type
/// 7), none otherwise.
pub proof fn lemma_bytes_of_one_region(region: OSMemEntry)
    ensures
        total_bytes(seq![region]) == region.pages * 4096,
        usable_bytes(seq![region]) == if region.ty == 7 {
            region.pages * 4096
        } else {
            0
        },
{
    let one = seq![region];
    assert(one.drop_last() =~= Seq::<OSMemEntry>::empty());
    assert(one.last() == region);
    assert(total_bytes(one.drop_last()) == 0);
    assert(usable_bytes(one.drop_last()) == 0);
}

/// The bytes of two memory maps laid end to end are the sums of their
/// bytes, in total and in usable memory.
pub proof fn lemma_bytes_of_concat(front: Seq<OSMemEntry>, back: Seq<OSMemEntry>)
    ensures
        total_bytes(front + back) == total_bytes(front) + total_bytes(back),
        usable_bytes(front + back) == usable_bytes(front) + usable_bytes(back),
    decreases back.len(),
{
    if back.len() == 0 {
        assert(front + back =~= front);
    } else {
        lemma_bytes_of_concat(front, back.drop_last());
        assert((front + back).drop_last() =~= front + back.drop_last());
        assert((front + back).last() == back.last());
    }
}

/// Every region of a memory map adds its pages of 4096 bytes to the total,
/// and, when it is conventional RAM, to the usable memory: adding a region
/// to a map grows each by exactly that much.
pub proof fn lemma_bytes_of_push(regions: Seq<OSMemEntry>, region: OSMemEntry)
    ensures
        total_bytes(regions.push(region)) == total_bytes(regions) + region.pages * 4096,
        usable_bytes(regions.push(region)) == usable_bytes(regions) + if region.ty == 7 {
            region.pages * 4096
        } else {
            0
        },
{
    lemma_bytes_of_one_region(region);
    lemma_bytes_of_concat(regions, seq![region]);
    assert(regions.push(region) =~= regions + seq![region]);
}

/// The usable bytes of a memory map never exceed its total bytes.
pub proof fn lemma_usable_le_total(regions: Seq<OSMemEntry>)
    ensures
        0 <= usable_bytes(regions) <= total_bytes(regions),
    decreases regions.len(),
{
    if regions.len() > 0 {
        lemma_usable_le_total(regions.drop_last());
    }
}

/// All memory is usable exactly when every region that holds any pages is
/// conventional RAM.
pub proof fn lemma_usable_eq_total(regions: Seq<OSMemEntry>)
    ensures
        usable_bytes(regions) == total_bytes(regions) <==> forall|i: int|
            0 <= i < regions.len() && #[trigger] regions[i].pages > 0 ==> regions[i].ty
                == conventional_memory_type(),
    decreases regions.len(),
{
    if regions.len() > 0 {
        let rest = regions.drop_last();
        lemma_usable_eq_total(rest);
        lemma_usable_le_total(rest);
        let last = regions.last();
        assert(last.pages > 0 ==> region_bytes(last) > 0) by (nonlinear_arith)
            requires
                region_bytes(last) == last.pages * 4096,
        ;
        assert forall|i: int| 0 <= i < rest.len() implies rest[i] == regions[i] by {}
        if usable_bytes(regions) == total_bytes(regions) {
            assert forall|i: int|
                0 <= i < regions.len() && #[trigger] regions[i].pages > 0 implies regions[i].ty
                == conventional_memory_type() by {
                if i < rest.len() {
                    assert(rest[i].pages > 0);
                }
            }
        } else {
            if forall|i: int|
                0 <= i < regions.len() && #[trigger] regions[i].pages > 0 ==> regions[i].ty
                    == conventional_memory_type() {
                assert forall|i: int|
                    0 <= i < rest.len() && #[trigger] rest[i].pages > 0 implies rest[i].ty
                    == conventional_memory_type() by {
                    assert(regions[i].pages > 0);
                }
                assert(regions[regions.len() - 1].pages > 0 ==> regions[regions.len() - 1].ty
                    == conventional_memory_type());
            }
        }
    }
}

/// The exact test for "`phys_addr` lies in a region of `pages` pages from
/// `base`", computed without overflow.
fn in_region(phys_addr: usize, base: usize, pages: usize) -> (inside: bool)
    ensures
        inside == (base <= phys_addr < base + pages * PAGE_SIZE),
{
    if phys_addr < base {
        false
    } else {
        let offset = phys_addr - base;
        let page_index = offset / PAGE_SIZE;
        assert((page_index < pages) == (offset < pages * PAGE_SIZE)) by (nonlinear_arith)
            requires
                page_index == offset / 4096,
                offset >= 0,
                pages >= 0,
        ;
        page_index < pages
    }
}

/// Virtual memory manager for the kernel
pub struct VirtualMemoryManager {
    /// Memory regions from UEFI memory map
    memory_regions: &'static [OSMemEntry],
    memory_region_count: usize,
}

impl View for VirtualMemoryManager {
    type V = Seq<OSMemEntry>;

    /// The regions of the memory map, in map order.
    closed spec fn view(&self) -> Seq<OSMemEntry> {
        self.memory_regions@
    }
}

impl VirtualMemoryManager {
    #[verifier::type_invariant]
    spec fn count_matches(self) -> bool {
        self.memory_region_count == self.memory_regions@.len()
    }

    /// Initialize the virtual memory manager from the UEFI memory map,
    /// given as the regions it describes.
    pub fn init_from_memmap(memory_regions: &'static [OSMemEntry]) -> (manager: Self)
        ensures
            manager@ == memory_regions@,
    {
        VirtualMemoryManager { memory_regions, memory_region_count: memory_regions.len() }
    }

    /// Get the total physical memory available
    pub fn total_physical_memory(&self) -> (bytes: usize)
        requires
            total_bytes(self@) <= usize::MAX,
        ensures
            bytes == total_bytes(self@),
    {
        let regions = self.memory_regions;
        let mut sum: usize = 0;
        let mut i: usize = 0;
        while i < regions.len()
            invariant
                0 <= i <= regions@.len(),
                regions@ == self@,
                total_bytes(regions@) <= usize::MAX,
                sum == total_bytes(regions@.take(i as int)),
            decreases regions@.len() - i,
        {
            proof {
                lemma_take_step(regions@, i as int);
                lemma_prefix_bytes_le(regions@, i + 1);
            }
            sum = sum + regions[i].pages * PAGE_SIZE;
            i = i + 1;
        }
        assert(regions@.take(i as int) =~= regions@);
        sum
    }

    /// Count usable memory (conventional RAM that can be allocated)
    pub fn usable_memory(&self) -> (bytes: usize)
        requires
            usable_bytes(self@) <= usize::MAX,
        ensures
            bytes == usable_bytes(self@),
    {
        let conventional = conventional_type_code();
        let regions = self.memory_regions;
        let mut sum: usize = 0;
        let mut i: usize = 0;
        while i < regions.len()
            invariant
                0 <= i <= regions@.len(),
                regions@ == self@,
                conventional == conventional_memory_type(),
                usable_bytes(regions@) <= usize::MAX,
                sum == usable_bytes(regions@.take(i as int)),
            decreases regions@.len() - i,
        {
            proof {
                lemma_take_step(regions@, i as int);
                lemma_prefix_bytes_le(regions@, i + 1);
            }
            if regions[i].ty == conventional {
                sum = sum + regions[i].pages * PAGE_SIZE;
            }
            i = i + 1;
        }
        assert(regions@.take(i as int) =~= regions@);
        sum
    }

    /// Find a region containing the given physical address
    pub fn find_region(&self, phys_addr: usize) -> (found: Option<&OSMemEntry>)
        ensures
            match found {
                Some(region) => exists|i: int|
                    is_first_region_containing(self@, phys_addr as int, i) && *region
                        == #[trigger] self@[i],
                None => forall|i: int|
                    0 <= i < self@.len() ==> !region_contains(#[trigger] self@[i], phys_addr as int),
            },
    {
        let regions = self.memory_regions;
        let mut i: usize = 0;
        while i < regions.len()
            invariant
                0 <= i <= regions@.len(),
                regions@ == self@,
                forall|j: int| 0 <= j < i ==> !region_contains(#[trigger] regions@[j], phys_addr as int),
            decreases regions@.len() - i,
        {
            let region = &regions[i];
            if in_region(phys_addr, region.base, region.pages) {
                assert(is_first_region_containing(self@, phys_addr as int, i as int));
                return Some(region);
            }
            i = i + 1;
        }
        None
    }

    /// Get memory regions slice
    pub fn regions(&self) -> (regions: &'static [OSMemEntry])
        ensures
            regions@ == self@,
    {
        self.memory_regions
    }

    /// Get number of memory regions
    pub fn region_count(&self) -> (count: usize)
        ensures
            count == self@.len(),
    {
        proof {
            use_type_invariant(self);
        }
        self.memory_region_count
    }
}

} // verus!
