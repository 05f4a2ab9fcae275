//! Mapping of ACPI tables under identity-mapped virtual memory.
use vstd::prelude::*;

verus! {

/// Where a mapped physical region can be read, field for field what an ACPI
/// physical mapping records.
#[derive(Clone, Copy, Debug)]
pub struct IdentityMapping {
    /// The first physical byte asked for.
    pub physical_start: usize,
    /// The virtual address at which that byte can be read.
    pub virtual_start: usize,
    /// The number of bytes asked for.
    pub region_length: usize,
    /// The number of bytes made readable.
    pub mapped_length: usize,
}

/// Provides an ACPI handler for an identity-mapped virtual memory.
#[derive(Clone)]
pub struct IdentityAcpiHandler;

impl IdentityAcpiHandler {
    /// Map `size` bytes of physical memory from `physical_address`: under an
    /// identity mapping they are readable at the same address, and exactly
    /// those bytes are mapped.
    pub fn map_physical_region(&self, physical_address: usize, size: usize) -> (mapping:
        IdentityMapping)
        ensures
            mapping == (IdentityMapping {
                physical_start: physical_address,
                virtual_start: physical_address,
                region_length: size,
                mapped_length: size,
            }),
    {
        IdentityMapping {
            physical_start: physical_address,
            virtual_start: physical_address,
            region_length: size,
            mapped_length: size,
        }
    }

    /// Unmap a region: nothing to undo under an identity mapping.
    pub fn unmap_physical_region(_region: &IdentityMapping) {
    }
}

} // verus!
