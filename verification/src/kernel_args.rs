//! The record that the loader hands to the kernel, and how it is filled from
//! the UEFI configuration tables.
use vstd::prelude::*;

verus! {

/// `uefi::table::cfg::ACPI_GUID` (eb9d2d30-2d88-11d3-9a16-0090273fc14d) as
/// the little-endian number of its 16 bytes in memory order.
pub open spec fn acpi_guid_code() -> u128 {
    0x4dc13f279000169a11d32d88eb9d2d30
}

/// `uefi::table::cfg::ACPI2_GUID` (8868e871-e4f1-11d3-bc22-0080c73c8881) as
/// the little-endian number of its 16 bytes in memory order.
pub open spec fn acpi2_guid_code() -> u128 {
    0x81883cc7800022bc11d3e4f18868e871
}

/// `uefi::table::cfg::SMBIOS_GUID` (eb9d2d31-2d88-11d3-9a16-0090273fc14d) as
/// the little-endian number of its 16 bytes in memory order.
pub open spec fn smbios_guid_code() -> u128 {
    0x4dc13f279000169a11d32d88eb9d2d31
}

/// `uefi::table::cfg::SMBIOS3_GUID` (f2fd1544-9794-4a2c-992e-e5bbcf20e394)
/// as the little-endian number of its 16 bytes in memory order.
pub open spec fn smbios3_guid_code() -> u128 {
    0x94e320cfbbe52e994a2c9794f2fd1544
}

/// Reads `uefi::table::cfg::ACPI_GUID`; the claim is the value written in
/// that constant's definition, read as `Guid::to_bytes` lays it out.
#[verifier::external_body]
fn acpi_guid() -> (guid: u128)
    ensures
        guid == acpi_guid_code(),
{
    u128::from_le_bytes(uefi::table::cfg::ACPI_GUID.to_bytes())
}

/// Reads `uefi::table::cfg::ACPI2_GUID`; the claim is the value written in
/// that constant's definition, read as `Guid::to_bytes` lays it out.
#[verifier::external_body]
fn acpi2_guid() -> (guid: u128)
    ensures
        guid == acpi2_guid_code(),
{
    u128::from_le_bytes(uefi::table::cfg::ACPI2_GUID.to_bytes())
}

/// Reads `uefi::table::cfg::SMBIOS_GUID`; the claim is the value written in
/// that constant's definition, read as `Guid::to_bytes` lays it out.
#[verifier::external_body]
fn smbios_guid() -> (guid: u128)
    ensures
        guid == smbios_guid_code(),
{
    u128::from_le_bytes(uefi::table::cfg::SMBIOS_GUID.to_bytes())
}

/// Reads `uefi::table::cfg::SMBIOS3_GUID`; the claim is the value written in
/// that constant's definition, read as `Guid::to_bytes` lays it out.
#[verifier::external_body]
fn smbios3_guid() -> (guid: u128)
    ensures
        guid == smbios3_guid_code(),
{
    u128::from_le_bytes(uefi::table::cfg::SMBIOS3_GUID.to_bytes())
}

/// One entry of the UEFI configuration table: the GUID that names a vendor
/// table, as the little-endian number of its 16 bytes, and the table's
/// address.
#[derive(Clone, Copy, Debug)]
pub struct CfgTableEntry {
    pub guid: u128,
    pub address: usize,
}

/// One region of the physical memory map, copied from a UEFI memory
/// descriptor: its UEFI memory type, its first byte, its length in 4 KiB
/// pages and its attribute bits.
#[derive(Clone, Copy, Debug)]
pub struct OSMemEntry {
    pub ty: u32,
    pub base: usize,
    pub pages: usize,
    pub att: u64,
}

/// What a `KernelArgs` holds, field by field. Addresses are plain numbers;
/// 0 stands for a null pointer.
pub struct KernelArgsModel {
    /// The physical address of the ACPI RSDP
    pub acpi_ptr: usize,
    /// The physical address of the SMBIOS table
    pub smbios_ptr: usize,
    /// The version of the ACPI RSDP at `acpi_ptr` (0: none found)
    pub acpi_ver: u8,
    /// The version of the SMBIOS table at `smbios_ptr` (0: none found)
    pub smbios_ver: u8,
    /// The address of the PCI Express ECAM space
    pub pcie_ptr: usize,
    /// The address of the `OSMemEntry` list
    pub memmap_ptr: usize,
    /// The number of entries at `memmap_ptr`
    pub memmap_entries: usize,
}

/// The hardware pointers that the loader passes to the kernel.
#[derive(Copy, Clone, Debug)]
pub struct KernelArgs {
    acpi_ptr: usize,
    smbios_ptr: usize,
    acpi_ver: u8,
    smbios_ver: u8,
    pcie_ptr: usize,
    memmap_ptr: usize,
    memmap_entries: usize,
}

impl View for KernelArgs {
    type V = KernelArgsModel;

    closed spec fn view(&self) -> KernelArgsModel {
        KernelArgsModel {
            acpi_ptr: self.acpi_ptr,
            smbios_ptr: self.smbios_ptr,
            acpi_ver: self.acpi_ver,
            smbios_ver: self.smbios_ver,
            pcie_ptr: self.pcie_ptr,
            memmap_ptr: self.memmap_ptr,
            memmap_entries: self.memmap_entries,
        }
    }
}

/// The record before anything was found: null pointers, version 0, no
/// memory map.
pub open spec fn empty_args() -> KernelArgsModel {
    KernelArgsModel {
        acpi_ptr: 0,
        smbios_ptr: 0,
        acpi_ver: 0,
        smbios_ver: 0,
        pcie_ptr: 0,
        memmap_ptr: 0,
        memmap_entries: 0,
    }
}

impl Default for KernelArgs {
    fn default() -> (args: Self)
        ensures
            args@ == empty_args(),
    {
        KernelArgs {
            acpi_ptr: 0,
            smbios_ptr: 0,
            acpi_ver: 0,
            smbios_ver: 0,
            pcie_ptr: 0,
            memmap_ptr: 0,
            memmap_entries: 0,
        }
    }
}

/// The address of the first entry of `tables` named by `guid`, if any.
pub open spec fn first_address(tables: Seq<CfgTableEntry>, guid: u128) -> Option<usize>
    decreases tables.len(),
{
    if tables.len() == 0 {
        None
    } else if tables[0].guid == guid {
        Some(tables[0].address)
    } else {
        first_address(tables.drop_first(), guid)
    }
}

/// The (address, version) pair kept for one standard after scanning
/// `tables`, starting from `current`: the first table of the newer version
/// `(new_guid, new_ver)` if the current version is older than it, else the
/// first table of the older version `(old_guid, old_ver)` if the current
/// version is older than that, else `current` unchanged.
pub open spec fn select_table(
    tables: Seq<CfgTableEntry>,
    new_guid: u128,
    new_ver: u8,
    old_guid: u128,
    old_ver: u8,
    current: (usize, u8),
) -> (usize, u8) {
    if current.1 < new_ver && first_address(tables, new_guid) is Some {
        (first_address(tables, new_guid).unwrap(), new_ver)
    } else if current.1 < old_ver && first_address(tables, old_guid) is Some {
        (first_address(tables, old_guid).unwrap(), old_ver)
    } else {
        current
    }
}

/// The ACPI RSDP kept after scanning `tables` from `args`: ACPI 2 is
/// preferred to ACPI 1.
pub open spec fn selected_acpi(args: KernelArgsModel, tables: Seq<CfgTableEntry>) -> (usize, u8) {
    select_table(tables, acpi2_guid_code(), 2, acpi_guid_code(), 1, (args.acpi_ptr, args.acpi_ver))
}

/// The SMBIOS table kept after scanning `tables` from `args`: SMBIOS 3 is
/// preferred to SMBIOS 1.
pub open spec fn selected_smbios(args: KernelArgsModel, tables: Seq<CfgTableEntry>) -> (
    usize,
    u8,
) {
    select_table(
        tables,
        smbios3_guid_code(),
        3,
        smbios_guid_code(),
        1,
        (args.smbios_ptr, args.smbios_ver),
    )
}

/// `args` after scanning `tables`: the ACPI and SMBIOS fields replaced by
/// the selected tables, the other fields unchanged.
pub open spec fn populated(args: KernelArgsModel, tables: Seq<CfgTableEntry>) -> KernelArgsModel {
    KernelArgsModel {
        acpi_ptr: selected_acpi(args, tables).0,
        acpi_ver: selected_acpi(args, tables).1,
        smbios_ptr: selected_smbios(args, tables).0,
        smbios_ver: selected_smbios(args, tables).1,
        ..args
    }
}

/// Appending an entry finds the same first address, or the new entry's
/// address when there was none.
proof fn lemma_first_address_push(tables: Seq<CfgTableEntry>, entry: CfgTableEntry, guid: u128)
    ensures
        first_address(tables.push(entry), guid) == match first_address(tables, guid) {
            Some(a) => Some(a),
            None => if entry.guid == guid {
                Some(entry.address)
            } else {
                None
            },
        },
    decreases tables.len(),
{
    let pushed = tables.push(entry);
    assert(pushed[0] == if tables.len() == 0 {
        entry
    } else {
        tables[0]
    });
    if tables.len() == 0 {
        assert(pushed.drop_first().len() == 0);
        assert(first_address(pushed.drop_first(), guid) is None);
    } else {
        assert(pushed.drop_first() =~= tables.drop_first().push(entry));
        lemma_first_address_push(tables.drop_first(), entry, guid);
    }
}

impl KernelArgs {
    pub fn populate_from_cfg_table(&mut self, cfg_tables: &[CfgTableEntry])
        ensures
            final(self)@ == populated(old(self)@, cfg_tables@),
    {
        // Iterate across the Config Tables, find the SMBIOS and ACPI tables, and populate their
        // pointers. Multiple versions of the standards could exist in memory, so this process will
        // search the entire table space and favor the highest-version implementation of the ACPI
        // or SMBIO standards, where they are present, and reflect this choice in a separate version
        // field.
        let acpi2 = acpi2_guid();
        let acpi1 = acpi_guid();
        let smbios3 = smbios3_guid();
        let smbios1 = smbios_guid();
        let ghost start = self@;
        let mut i: usize = 0;
        while i < cfg_tables.len()
            invariant
                0 <= i <= cfg_tables.len(),
                acpi2 == acpi2_guid_code(),
                acpi1 == acpi_guid_code(),
                smbios3 == smbios3_guid_code(),
                smbios1 == smbios_guid_code(),
                start == old(self)@,
                self@ == populated(start, cfg_tables@.take(i as int)),
            decreases cfg_tables.len() - i,
        {
            let cfg = cfg_tables[i];
            proof {
                let prefix = cfg_tables@.take(i as int);
                assert(cfg_tables@.take(i + 1) =~= prefix.push(cfg));
                lemma_first_address_push(prefix, cfg, acpi2);
                lemma_first_address_push(prefix, cfg, acpi1);
                lemma_first_address_push(prefix, cfg, smbios3);
                lemma_first_address_push(prefix, cfg, smbios1);
            }
            if cfg.guid == acpi2 {
                if self.acpi_ver < 2 {
                    self.acpi_ver = 2;
                    self.acpi_ptr = cfg.address;
                }
            } else if cfg.guid == acpi1 {
                if self.acpi_ver < 1 {
                    self.acpi_ver = 1;
                    self.acpi_ptr = cfg.address;
                }
            } else if cfg.guid == smbios3 {
                if self.smbios_ver < 3 {
                    self.smbios_ver = 3;
                    self.smbios_ptr = cfg.address;
                }
            } else if cfg.guid == smbios1 {
                if self.smbios_ver < 1 {
                    self.smbios_ver = 1;
                    self.smbios_ptr = cfg.address;
                }
            }
            i = i + 1;
        }
        assert(cfg_tables@.take(i as int) =~= cfg_tables@);
    }

    /// Returns the ACPI pointer and version as a pair
    pub fn get_acpi(&self) -> (acpi: (usize, u8))
        ensures
            acpi == (self@.acpi_ptr, self@.acpi_ver),
    {
        (self.acpi_ptr, self.acpi_ver)
    }

    /// Returns the SMBIOS pointer and version as a pair
    pub fn get_smbios(&self) -> (smbios: (usize, u8))
        ensures
            smbios == (self@.smbios_ptr, self@.smbios_ver),
    {
        (self.smbios_ptr, self.smbios_ver)
    }

    /// Sets the PCI Express ECAM pointer
    pub fn set_pcie(&mut self, ptr: usize)
        ensures
            final(self)@ == (KernelArgsModel { pcie_ptr: ptr, ..old(self)@ }),
    {
        self.pcie_ptr = ptr;
    }

    /// Returns the PCI Express ECAM pointer
    pub fn get_pcie(&self) -> (ptr: usize)
        ensures
            ptr == self@.pcie_ptr,
    {
        self.pcie_ptr
    }

    /// Sets the MemMap pointer and slice length
    pub fn set_memmap(&mut self, ptr: usize, entries: usize)
        ensures
            final(self)@ == (KernelArgsModel { memmap_ptr: ptr, memmap_entries: entries, ..old(self)@ }),
    {
        self.memmap_ptr = ptr;
        self.memmap_entries = entries;
    }

    /// Returns the MemMap pointer
    pub fn get_memmap(&self) -> (ptr: usize)
        ensures
            ptr == self@.memmap_ptr,
    {
        self.memmap_ptr
    }

    /// Returns the number of entries pointed at by the MemMap pointer
    pub fn get_memmap_entries(&self) -> (entries: usize)
        ensures
            entries == self@.memmap_entries,
    {
        self.memmap_entries
    }
}


/// The sizes of the two buffers that receive the UEFI memory map: the bytes
/// for the firmware's map, with room for five more descriptors than it
/// reports (the map may grow while the buffer is allocated), and the number
/// of `OSMemEntry` slots that covers one entry per descriptor that fits
/// in those bytes.
pub fn memory_map_buffer_sizes(map_size: usize, entry_size: usize) -> (sizes: (usize, usize))
    requires
        entry_size > 0,
        map_size + entry_size * 5 <= usize::MAX,
        (map_size + entry_size * 5) / (entry_size as int) < usize::MAX,
    ensures
        sizes.0 == map_size + entry_size * 5,
        sizes.1 == sizes.0 / entry_size + 1,
{
    let mm_bytes = map_size + (entry_size * 5);
    let mem_entries = (mm_bytes / entry_size) + 1;
    (mm_bytes, mem_entries)
}

/// Scanning the same configuration table a second time changes nothing.
pub proof fn lemma_populate_idempotent(args: KernelArgsModel, tables: Seq<CfgTableEntry>)
    ensures
        populated(populated(args, tables), tables) == populated(args, tables),
{
}

/// Whether `index` is the first entry of `tables` named by `guid`.
pub open spec fn is_first_entry(tables: Seq<CfgTableEntry>, guid: u128, index: int) -> bool {
    &&& 0 <= index < tables.len()
    &&& tables[index].guid == guid
    &&& forall|j: int| 0 <= j < index ==> #[trigger] tables[j].guid != guid
}

/// Whether some entry of `tables` is named by `guid`.
pub open spec fn names(tables: Seq<CfgTableEntry>, guid: u128) -> bool {
    exists|k: int| 0 <= k < tables.len() && #[trigger] tables[k].guid == guid
}

/// What `select_table` keeps, told by the entries of the table: the address
/// of the first entry of the newest version present that is newer than the
/// current one, exactly as the table gives it, or the current pair.
proof fn lemma_select_table_entries(
    tables: Seq<CfgTableEntry>,
    new_guid: u128,
    new_ver: u8,
    old_guid: u128,
    old_ver: u8,
    current: (usize, u8),
)
    requires
        old_ver < new_ver,
    ensures
        current.1 < new_ver && names(tables, new_guid) ==> exists|k: int|
            is_first_entry(tables, new_guid, k) && select_table(
                tables,
                new_guid,
                new_ver,
                old_guid,
                old_ver,
                current,
            ) == (tables[k].address, new_ver),
        current.1 < old_ver && !names(tables, new_guid) && names(tables, old_guid) ==> exists|
            k: int,
        |
            is_first_entry(tables, old_guid, k) && select_table(
                tables,
                new_guid,
                new_ver,
                old_guid,
                old_ver,
                current,
            ) == (tables[k].address, old_ver),
        !(current.1 < new_ver && names(tables, new_guid)) && !(current.1 < old_ver && names(
            tables,
            old_guid,
        )) ==> select_table(tables, new_guid, new_ver, old_guid, old_ver, current) == current,
{
    lemma_first_address_is_first(tables, new_guid);
    lemma_first_address_is_first(tables, old_guid);
    if current.1 < new_ver && names(tables, new_guid) {
        let k = choose|k: int|
            0 <= k < tables.len() && #[trigger] tables[k].guid == new_guid && tables[k].address
                == first_address(tables, new_guid).unwrap() && forall|j: int|
                0 <= j < k ==> tables[j].guid != new_guid;
        assert(is_first_entry(tables, new_guid, k));
    }
    if current.1 < old_ver && !names(tables, new_guid) && names(tables, old_guid) {
        let k = choose|k: int|
            0 <= k < tables.len() && #[trigger] tables[k].guid == old_guid && tables[k].address
                == first_address(tables, old_guid).unwrap() && forall|j: int|
                0 <= j < k ==> tables[j].guid != old_guid;
        assert(is_first_entry(tables, old_guid, k));
    }
}

/// What a scan records, told by the entries of the table. When a newer
/// version of a standard than the recorded one is present, the record holds
/// the address of the first entry of the newest such version, exactly as the
/// table gives it, with that version; when none is, the record is left as it
/// was. This holds for ACPI (2 over 1) and SMBIOS (3 over 1) alike.
pub proof fn lemma_populate_records_table_addresses(
    args: KernelArgsModel,
    tables: Seq<CfgTableEntry>,
)
    ensures
        args.acpi_ver < 2 && names(tables, acpi2_guid_code()) ==> exists|k: int|
            is_first_entry(tables, acpi2_guid_code(), k) && populated(args, tables).acpi_ptr
                == tables[k].address && populated(args, tables).acpi_ver == 2,
        args.acpi_ver < 1 && !names(tables, acpi2_guid_code()) && names(tables, acpi_guid_code())
            ==> exists|k: int|
            is_first_entry(tables, acpi_guid_code(), k) && populated(args, tables).acpi_ptr
                == tables[k].address && populated(args, tables).acpi_ver == 1,
        !(args.acpi_ver < 2 && names(tables, acpi2_guid_code())) && !(args.acpi_ver < 1 && names(
            tables,
            acpi_guid_code(),
        )) ==> populated(args, tables).acpi_ptr == args.acpi_ptr && populated(
            args,
            tables,
        ).acpi_ver == args.acpi_ver,
        args.smbios_ver < 3 && names(tables, smbios3_guid_code()) ==> exists|k: int|
            is_first_entry(tables, smbios3_guid_code(), k) && populated(args, tables).smbios_ptr
                == tables[k].address && populated(args, tables).smbios_ver == 3,
        args.smbios_ver < 1 && !names(tables, smbios3_guid_code()) && names(
            tables,
            smbios_guid_code(),
        ) ==> exists|k: int|
            is_first_entry(tables, smbios_guid_code(), k) && populated(args, tables).smbios_ptr
                == tables[k].address && populated(args, tables).smbios_ver == 1,
        !(args.smbios_ver < 3 && names(tables, smbios3_guid_code())) && !(args.smbios_ver < 1
            && names(tables, smbios_guid_code())) ==> populated(args, tables).smbios_ptr
            == args.smbios_ptr && populated(args, tables).smbios_ver == args.smbios_ver,
        populated(args, tables).pcie_ptr == args.pcie_ptr,
        populated(args, tables).memmap_ptr == args.memmap_ptr,
        populated(args, tables).memmap_entries == args.memmap_entries,
{
    lemma_select_table_entries(
        tables,
        acpi2_guid_code(),
        2,
        acpi_guid_code(),
        1,
        (args.acpi_ptr, args.acpi_ver),
    );
    lemma_select_table_entries(
        tables,
        smbios3_guid_code(),
        3,
        smbios_guid_code(),
        1,
        (args.smbios_ptr, args.smbios_ver),
    );
}

/// The newest version of a standard that the table holds wins: when an
/// ACPI 2 (SMBIOS 3) table is present and no newer one was recorded, the
/// record ends up pointing at the first such table, with that version.
pub proof fn lemma_populate_prefers_newest(args: KernelArgsModel, tables: Seq<CfgTableEntry>)
    ensures
        args.acpi_ver < 2 && first_address(tables, acpi2_guid_code()) is Some ==> {
            &&& populated(args, tables).acpi_ver == 2
            &&& populated(args, tables).acpi_ptr == first_address(
                tables,
                acpi2_guid_code(),
            ).unwrap()
        },
        args.smbios_ver < 3 && first_address(tables, smbios3_guid_code()) is Some ==> {
            &&& populated(args, tables).smbios_ver == 3
            &&& populated(args, tables).smbios_ptr == first_address(
                tables,
                smbios3_guid_code(),
            ).unwrap()
        },
{
}

/// Scanning never lowers a recorded version, and leaves a pointer in place
/// whenever it leaves its version in place.
pub proof fn lemma_populate_never_downgrades(args: KernelArgsModel, tables: Seq<CfgTableEntry>)
    ensures
        populated(args, tables).acpi_ver >= args.acpi_ver,
        populated(args, tables).smbios_ver >= args.smbios_ver,
        populated(args, tables).acpi_ver == args.acpi_ver ==> populated(args, tables).acpi_ptr
            == args.acpi_ptr,
        populated(args, tables).smbios_ver == args.smbios_ver ==> populated(
            args,
            tables,
        ).smbios_ptr == args.smbios_ptr,
{
}

/// Scanning a table that names none of the four known GUIDs changes
/// nothing.
pub proof fn lemma_populate_ignores_unknown(args: KernelArgsModel, tables: Seq<CfgTableEntry>)
    requires
        first_address(tables, acpi_guid_code()) is None,
        first_address(tables, acpi2_guid_code()) is None,
        first_address(tables, smbios_guid_code()) is None,
        first_address(tables, smbios3_guid_code()) is None,
    ensures
        populated(args, tables) == args,
{
}

/// The first entry with a GUID is an entry of the table with that GUID, and
/// no earlier entry has it.
pub proof fn lemma_first_address_is_first(tables: Seq<CfgTableEntry>, guid: u128)
    ensures
        first_address(tables, guid) is Some <==> exists|k: int|
            0 <= k < tables.len() && #[trigger] tables[k].guid == guid,
        first_address(tables, guid) is Some ==> exists|k: int|
            0 <= k < tables.len() && #[trigger] tables[k].guid == guid && tables[k].address
                == first_address(tables, guid).unwrap() && forall|j: int|
                0 <= j < k ==> tables[j].guid != guid,
    decreases tables.len(),
{
    if tables.len() > 0 {
        let rest = tables.drop_first();
        lemma_first_address_is_first(rest, guid);
        if tables[0].guid != guid {
            if first_address(rest, guid) is Some {
                let k = choose|k: int|
                    0 <= k < rest.len() && #[trigger] rest[k].guid == guid && rest[k].address
                        == first_address(rest, guid).unwrap() && forall|j: int|
                        0 <= j < k ==> rest[j].guid != guid;
                assert(tables[k + 1].guid == guid);
                assert forall|j: int| 0 <= j < k + 1 implies tables[j].guid != guid by {
                    if j > 0 {
                        assert(tables[j] == rest[j - 1]);
                    }
                }
            }
            assert((exists|k: int| 0 <= k < tables.len() && #[trigger] tables[k].guid == guid)
                ==> (exists|k: int| 0 <= k < rest.len() && #[trigger] rest[k].guid == guid)) by {
                if exists|k: int| 0 <= k < tables.len() && #[trigger] tables[k].guid == guid {
                    let k = choose|k: int| 0 <= k < tables.len() && #[trigger] tables[k].guid == guid;
                    assert(rest[k - 1].guid == guid);
                }
            }
        }
    }
}

/// The first entry with a GUID in two tables laid end to end is the first in
/// the front table, or else the first in the back table.
proof fn lemma_first_address_concat(front: Seq<CfgTableEntry>, back: Seq<CfgTableEntry>, guid: u128)
    ensures
        first_address(front + back, guid) == match first_address(front, guid) {
            Some(a) => Some(a),
            None => first_address(back, guid),
        },
    decreases front.len(),
{
    if front.len() == 0 {
        assert(front + back =~= back);
    } else {
        assert((front + back)[0] == front[0]);
        assert((front + back).drop_first() =~= front.drop_first() + back);
        lemma_first_address_concat(front.drop_first(), back, guid);
    }
}

/// Scanning a configuration table piece by piece, front to back, gives the
/// same record as scanning it whole.
pub proof fn lemma_populate_in_pieces(
    args: KernelArgsModel,
    front: Seq<CfgTableEntry>,
    back: Seq<CfgTableEntry>,
)
    ensures
        populated(populated(args, front), back) == populated(args, front + back),
{
    lemma_first_address_concat(front, back, acpi_guid_code());
    lemma_first_address_concat(front, back, acpi2_guid_code());
    lemma_first_address_concat(front, back, smbios_guid_code());
    lemma_first_address_concat(front, back, smbios3_guid_code());
}

/// Whether `reordered` holds the entries of `tables` in the order that
/// `order` gives: entry `i` of `reordered` is entry `order[i]` of `tables`,
/// and `order` is a one-to-one map of the positions onto the positions.
pub open spec fn is_reordering(
    tables: Seq<CfgTableEntry>,
    reordered: Seq<CfgTableEntry>,
    order: Seq<int>,
) -> bool {
    &&& tables.len() == reordered.len()
    &&& order.len() == reordered.len()
    &&& forall|i: int|
        0 <= i < reordered.len() ==> 0 <= #[trigger] order[i] < tables.len() && reordered[i]
            == tables[order[i]]
    &&& forall|i: int, j: int|
        0 <= i < reordered.len() && 0 <= j < reordered.len() && #[trigger] order[i]
            == #[trigger] order[j] ==> i == j
    &&& forall|k: int| 0 <= k < tables.len() ==> #[trigger] reaches(order, k)
}

/// Whether some position of `order` holds `k`.
pub open spec fn reaches(order: Seq<int>, k: int) -> bool {
    exists|i: int| 0 <= i < order.len() && order[i] == k
}

/// Whether at most one entry of `tables` is named by `guid`.
pub open spec fn at_most_once(tables: Seq<CfgTableEntry>, guid: u128) -> bool {
    forall|i: int, j: int|
        0 <= i < tables.len() && 0 <= j < tables.len() && #[trigger] tables[i].guid == guid
            && #[trigger] tables[j].guid == guid ==> i == j
}

/// Reordering a table keeps which GUIDs it names, and keeps the first entry
/// with a GUID when only one entry has it.
proof fn lemma_first_address_reordered(
    tables: Seq<CfgTableEntry>,
    reordered: Seq<CfgTableEntry>,
    order: Seq<int>,
    guid: u128,
)
    requires
        is_reordering(tables, reordered, order),
    ensures
        (first_address(tables, guid) is Some) == (first_address(reordered, guid) is Some),
        at_most_once(tables, guid) ==> first_address(tables, guid) == first_address(
            reordered,
            guid,
        ),
{
    lemma_first_address_is_first(tables, guid);
    lemma_first_address_is_first(reordered, guid);
    if first_address(tables, guid) is Some {
        let k = choose|k: int| 0 <= k < tables.len() && #[trigger] tables[k].guid == guid;
        assert(reaches(order, k));
        let i = choose|i: int| 0 <= i < order.len() && order[i] == k;
        assert(reordered[i].guid == guid);
    }
    if first_address(reordered, guid) is Some {
        let i = choose|i: int|
            0 <= i < reordered.len() && #[trigger] reordered[i].guid == guid && reordered[i].address
                == first_address(reordered, guid).unwrap() && forall|j: int|
                0 <= j < i ==> reordered[j].guid != guid;
        assert(tables[order[i]].guid == guid);
        if at_most_once(tables, guid) {
            let k = choose|k: int|
                0 <= k < tables.len() && #[trigger] tables[k].guid == guid && tables[k].address
                    == first_address(tables, guid).unwrap() && forall|j: int|
                    0 <= j < k ==> tables[j].guid != guid;
            assert(order[i] == k);
        }
    }
}

/// The order of the configuration table does not change which versions are
/// found; when none of the four known GUIDs occurs twice, it does not change
/// the record at all.
pub proof fn lemma_populate_order_independent(
    args: KernelArgsModel,
    tables: Seq<CfgTableEntry>,
    reordered: Seq<CfgTableEntry>,
    order: Seq<int>,
)
    requires
        is_reordering(tables, reordered, order),
    ensures
        populated(args, tables).acpi_ver == populated(args, reordered).acpi_ver,
        populated(args, tables).smbios_ver == populated(args, reordered).smbios_ver,
        at_most_once(tables, acpi_guid_code()) && at_most_once(tables, acpi2_guid_code())
            && at_most_once(tables, smbios_guid_code()) && at_most_once(
            tables,
            smbios3_guid_code(),
        ) ==> populated(args, tables) == populated(args, reordered),
{
    lemma_first_address_reordered(tables, reordered, order, acpi_guid_code());
    lemma_first_address_reordered(tables, reordered, order, acpi2_guid_code());
    lemma_first_address_reordered(tables, reordered, order, smbios_guid_code());
    lemma_first_address_reordered(tables, reordered, order, smbios3_guid_code());
}

} // verus!
