use lubun::kernel::memory::page_flags;
use lubun::kernel::memory::{PageTable, PageTableEntry, VirtualMemoryManager};
use lubun::kernel::memory::{PAGE_SIZE, PAGE_SIZE_1G, PAGE_SIZE_2M};
use lubun::kernel_args::OSMemEntry;

#[test]
fn page_table_entry_creation() {
    let addr = 0x1000;
    let flags = page_flags::PRESENT | page_flags::WRITE;
    let entry = PageTableEntry::new(addr, flags);

    assert!(entry.present());
    assert_eq!(entry.address(), addr);
}

#[test]
fn page_table_entry_flags() {
    let entry = PageTableEntry::new(0x1000, page_flags::PRESENT);
    assert!(entry.present());

    let entry = PageTableEntry::new(0x1000, 0);
    assert!(!entry.present());
}

#[test]
fn page_table_operations() {
    let mut pt = PageTable::new();
    let entry = PageTableEntry::new(0x1000, page_flags::PRESENT);

    pt.set_entry(0, entry);
    assert_eq!(pt.get_entry(0).address(), 0x1000);
    assert!(pt.get_entry(0).present());
}

#[test]
fn page_size_constants() {
    assert_eq!(PAGE_SIZE, 4096);
    assert_eq!(PAGE_SIZE_2M, 2 * 1024 * 1024);
    assert_eq!(PAGE_SIZE_1G, 1024 * 1024 * 1024);
}

#[test]
fn entry_drops_low_address_bits_and_high_flag_bits() {
    let entry = PageTableEntry::new(0x1234_5fff, page_flags::PRESENT | page_flags::NO_EXECUTE);
    assert_eq!(entry.address(), 0x1234_5000);
    assert_eq!(entry.raw(), 0x1234_5001);
    assert!(entry.present());
}

#[test]
fn entry_drops_address_bits_above_51() {
    let entry = PageTableEntry::new(0xfff0_0000_0000_1000, page_flags::WRITE);
    assert_eq!(entry.address(), 0x1000);
    assert_eq!(entry.raw(), 0x1002);
    assert!(!entry.present());
}

#[test]
fn entry_keeps_all_low_flags() {
    let entry = PageTableEntry::new(0x000f_ffff_ffff_f000, 0xffff);
    assert_eq!(entry.raw(), 0x000f_ffff_ffff_ffff);
    assert_eq!(entry.address(), 0x000f_ffff_ffff_f000);
}

#[test]
fn page_table_starts_empty() {
    let pt = PageTable::new();
    for i in 0..512 {
        assert_eq!(pt.get_entry(i).raw(), 0);
        assert!(!pt.get_entry(i).present());
    }
}

#[test]
fn page_table_ignores_out_of_range() {
    let mut pt = PageTable::new();
    pt.set_entry(512, PageTableEntry::new(0x2000, page_flags::PRESENT));
    for i in 0..512 {
        assert_eq!(pt.get_entry(i).raw(), 0);
    }
    assert_eq!(pt.get_entry(512).raw(), 0);
    assert_eq!(pt.get_entry(usize::MAX).raw(), 0);
}

#[test]
fn page_table_set_keeps_other_slots() {
    let mut pt = PageTable::new();
    pt.set_entry(5, PageTableEntry::new(0x5000, page_flags::PRESENT));
    pt.set_entry(511, PageTableEntry::new(0x7000, page_flags::PRESENT | page_flags::USER));
    pt.set_entry(5, PageTableEntry::new(0x6000, 0));
    assert_eq!(pt.get_entry(5).raw(), 0x6000);
    assert_eq!(pt.get_entry(511).raw(), 0x7005);
    assert_eq!(pt.get_entry(4).raw(), 0);
    assert_eq!(pt.get_entry(6).raw(), 0);
}

fn conventional() -> u32 {
    uefi::table::boot::MemoryType::CONVENTIONAL.0
}

fn sample_map() -> &'static [OSMemEntry] {
    let regions = vec![
        OSMemEntry { ty: conventional(), base: 0x0, pages: 16, att: 0xf },
        OSMemEntry { ty: uefi::table::boot::MemoryType::BOOT_SERVICES_DATA.0, base: 0x10000, pages: 4, att: 0xf },
        OSMemEntry { ty: conventional(), base: 0x100000, pages: 256, att: 0xf },
        OSMemEntry { ty: uefi::table::boot::MemoryType::ACPI_RECLAIM.0, base: 0x200000, pages: 1, att: 0 },
    ];
    regions.leak()
}

#[test]
fn memory_totals() {
    let vmm = VirtualMemoryManager::init_from_memmap(sample_map());
    assert_eq!(vmm.region_count(), 4);
    assert_eq!(vmm.regions().len(), 4);
    assert_eq!(vmm.total_physical_memory(), (16 + 4 + 256 + 1) * 4096);
    assert_eq!(vmm.usable_memory(), (16 + 256) * 4096);
    assert!(vmm.usable_memory() <= vmm.total_physical_memory());
}

#[test]
fn memory_totals_of_empty_map() {
    let empty: &'static [OSMemEntry] = Vec::new().leak();
    let vmm = VirtualMemoryManager::init_from_memmap(empty);
    assert_eq!(vmm.region_count(), 0);
    assert_eq!(vmm.total_physical_memory(), 0);
    assert_eq!(vmm.usable_memory(), 0);
    assert!(vmm.find_region(0).is_none());
}

#[test]
fn find_region_bounds() {
    let vmm = VirtualMemoryManager::init_from_memmap(sample_map());
    assert_eq!(vmm.find_region(0x0).unwrap().pages, 16);
    assert_eq!(vmm.find_region(0xffff).unwrap().pages, 16);
    assert_eq!(vmm.find_region(0x10000).unwrap().pages, 4);
    assert_eq!(vmm.find_region(0x13fff).unwrap().base, 0x10000);
    assert!(vmm.find_region(0x14000).is_none());
    assert_eq!(vmm.find_region(0x1fffff).unwrap().base, 0x100000);
    assert_eq!(vmm.find_region(0x200fff).unwrap().base, 0x200000);
    assert!(vmm.find_region(0x201000).is_none());
    assert!(vmm.find_region(usize::MAX).is_none());
}

#[test]
fn find_region_takes_first_match() {
    let regions = vec![
        OSMemEntry { ty: 1, base: 0x1000, pages: 4, att: 0 },
        OSMemEntry { ty: 2, base: 0x2000, pages: 1, att: 0 },
    ];
    let vmm = VirtualMemoryManager::init_from_memmap(regions.leak());
    assert_eq!(vmm.find_region(0x2000).unwrap().ty, 1);
}

#[test]
fn find_region_near_top_of_address_space() {
    let regions = vec![OSMemEntry { ty: 7, base: usize::MAX - 0xfff, pages: 1, att: 0 }];
    let vmm = VirtualMemoryManager::init_from_memmap(regions.leak());
    assert_eq!(vmm.find_region(usize::MAX).unwrap().pages, 1);
    assert!(vmm.find_region(usize::MAX - 0x1000).is_none());
}

#[test]
fn page_table_reads_last_of_many_writes() {
    let mut pt = PageTable::new();
    let writes: [(usize, u64); 6] = [(3, 0x3000), (7, 0x7000), (3, 0x4000), (600, 0x9000), (7, 0x8000), (3, 0x5000)];
    for (slot, addr) in writes {
        pt.set_entry(slot, PageTableEntry::new(addr, page_flags::PRESENT));
    }
    assert_eq!(pt.get_entry(3).raw(), 0x5001);
    assert_eq!(pt.get_entry(7).raw(), 0x8001);
    assert_eq!(pt.get_entry(600).raw(), 0);
    assert_eq!(pt.get_entry(4).raw(), 0);
}

#[test]
fn usable_equals_total_when_all_nonempty_regions_are_conventional() {
    let regions = vec![
        OSMemEntry { ty: conventional(), base: 0, pages: 8, att: 0 },
        OSMemEntry { ty: 3, base: 0x8000, pages: 0, att: 0 },
        OSMemEntry { ty: conventional(), base: 0x10000, pages: 2, att: 0 },
    ];
    let vmm = VirtualMemoryManager::init_from_memmap(regions.leak());
    assert_eq!(vmm.usable_memory(), vmm.total_physical_memory());
    let vmm = VirtualMemoryManager::init_from_memmap(sample_map());
    assert!(vmm.usable_memory() < vmm.total_physical_memory());
}
