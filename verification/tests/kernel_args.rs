use lubun::identity_acpi_handler::{IdentityAcpiHandler, IdentityMapping};
use lubun::kernel_args::{memory_map_buffer_sizes, CfgTableEntry, KernelArgs};
use uefi::table::cfg::{ACPI2_GUID, ACPI_GUID, SMBIOS3_GUID, SMBIOS_GUID};
use uefi::Guid;

fn code(guid: Guid) -> u128 {
    u128::from_le_bytes(guid.to_bytes())
}

fn entry(guid: Guid, address: usize) -> CfgTableEntry {
    CfgTableEntry { guid: code(guid), address }
}

#[test]
fn default_args_are_empty() {
    let karg = KernelArgs::default();
    assert_eq!(karg.get_acpi(), (0, 0));
    assert_eq!(karg.get_smbios(), (0, 0));
    assert_eq!(karg.get_pcie(), 0);
    assert_eq!(karg.get_memmap(), 0);
    assert_eq!(karg.get_memmap_entries(), 0);
}

#[test]
fn populate_prefers_newest_versions() {
    let tables = [
        entry(ACPI_GUID, 0x1000),
        entry(SMBIOS_GUID, 0x2000),
        entry(ACPI2_GUID, 0x3000),
        entry(SMBIOS3_GUID, 0x4000),
        entry(ACPI2_GUID, 0x5000),
    ];
    let mut karg = KernelArgs::default();
    karg.populate_from_cfg_table(&tables);
    assert_eq!(karg.get_acpi(), (0x3000, 2));
    assert_eq!(karg.get_smbios(), (0x4000, 3));
}

#[test]
fn populate_keeps_first_of_a_version() {
    let tables = [
        entry(ACPI2_GUID, 0x3000),
        entry(ACPI_GUID, 0x1000),
        entry(SMBIOS_GUID, 0x2000),
        entry(SMBIOS_GUID, 0x6000),
    ];
    let mut karg = KernelArgs::default();
    karg.populate_from_cfg_table(&tables);
    assert_eq!(karg.get_acpi(), (0x3000, 2));
    assert_eq!(karg.get_smbios(), (0x2000, 1));
}

#[test]
fn populate_with_old_versions_only() {
    let tables = [entry(ACPI_GUID, 0x1000), entry(SMBIOS_GUID, 0x2000)];
    let mut karg = KernelArgs::default();
    karg.populate_from_cfg_table(&tables);
    assert_eq!(karg.get_acpi(), (0x1000, 1));
    assert_eq!(karg.get_smbios(), (0x2000, 1));
}

#[test]
fn populate_ignores_unknown_tables() {
    let tables = [
        entry(uefi::table::cfg::ESRT_GUID, 0x1000),
        entry(uefi::table::cfg::PROPERTIES_TABLE_GUID, 0x2000),
    ];
    let mut karg = KernelArgs::default();
    karg.set_pcie(0x9000);
    karg.populate_from_cfg_table(&tables);
    assert_eq!(karg.get_acpi(), (0, 0));
    assert_eq!(karg.get_smbios(), (0, 0));
    assert_eq!(karg.get_pcie(), 0x9000);
}

#[test]
fn populate_twice_changes_nothing_more() {
    let tables = [entry(SMBIOS_GUID, 0x2000), entry(ACPI_GUID, 0x1000), entry(SMBIOS3_GUID, 0x4000)];
    let mut once = KernelArgs::default();
    once.populate_from_cfg_table(&tables);
    let mut twice = once;
    twice.populate_from_cfg_table(&tables);
    assert_eq!(once.get_acpi(), twice.get_acpi());
    assert_eq!(once.get_smbios(), twice.get_smbios());
    assert_eq!(twice.get_acpi(), (0x1000, 1));
    assert_eq!(twice.get_smbios(), (0x4000, 3));
}

#[test]
fn populate_never_downgrades() {
    let mut karg = KernelArgs::default();
    karg.populate_from_cfg_table(&[entry(ACPI2_GUID, 0x3000)]);
    karg.populate_from_cfg_table(&[entry(ACPI_GUID, 0x1000)]);
    assert_eq!(karg.get_acpi(), (0x3000, 2));
    karg.populate_from_cfg_table(&[entry(ACPI2_GUID, 0x7000)]);
    assert_eq!(karg.get_acpi(), (0x3000, 2));
}

#[test]
fn setters_and_getters() {
    let mut karg = KernelArgs::default();
    karg.set_pcie(0xe000_0000);
    karg.set_memmap(0x4000_0000, 42);
    assert_eq!(karg.get_pcie(), 0xe000_0000);
    assert_eq!(karg.get_memmap(), 0x4000_0000);
    assert_eq!(karg.get_memmap_entries(), 42);
    assert_eq!(karg.get_acpi(), (0, 0));
}

#[test]
fn memory_map_buffer_has_room_for_five_more() {
    assert_eq!(memory_map_buffer_sizes(48 * 30, 48), (48 * 35, 36));
    assert_eq!(memory_map_buffer_sizes(100, 48), (340, 8));
    assert_eq!(memory_map_buffer_sizes(0, 1), (5, 6));
}

#[test]
fn identity_mapping_maps_in_place() {
    let handler = IdentityAcpiHandler;
    let mapping = handler.map_physical_region(0xfee0_0000, 0x24);
    assert_eq!(mapping.physical_start, 0xfee0_0000);
    assert_eq!(mapping.virtual_start, 0xfee0_0000);
    assert_eq!(mapping.region_length, 0x24);
    assert_eq!(mapping.mapped_length, 0x24);
    IdentityAcpiHandler::unmap_physical_region(&mapping);
    let copy: IdentityMapping = mapping;
    assert_eq!(copy.mapped_length, 0x24);
}

#[test]
fn populate_does_not_depend_on_order() {
    let tables = [
        entry(SMBIOS_GUID, 0x2000),
        entry(ACPI_GUID, 0x1000),
        entry(SMBIOS3_GUID, 0x4000),
        entry(ACPI2_GUID, 0x3000),
    ];
    let reordered = [tables[3], tables[0], tables[2], tables[1]];
    let mut a = KernelArgs::default();
    let mut b = KernelArgs::default();
    a.populate_from_cfg_table(&tables);
    b.populate_from_cfg_table(&reordered);
    assert_eq!(a.get_acpi(), b.get_acpi());
    assert_eq!(a.get_smbios(), b.get_smbios());
    assert_eq!(a.get_acpi(), (0x3000, 2));
}

#[test]
fn populate_order_picks_among_repeated_guids() {
    let tables = [entry(ACPI2_GUID, 0x3000), entry(ACPI2_GUID, 0x5000)];
    let reordered = [tables[1], tables[0]];
    let mut a = KernelArgs::default();
    let mut b = KernelArgs::default();
    a.populate_from_cfg_table(&tables);
    b.populate_from_cfg_table(&reordered);
    assert_eq!(a.get_acpi(), (0x3000, 2));
    assert_eq!(b.get_acpi(), (0x5000, 2));
}
