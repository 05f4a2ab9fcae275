# lubun

Verified early-boot building blocks of the Lubun x86_64 kernel, written in
Verus.

- `src/` is the verified library:
  - `kernel_args`: the record that the UEFI loader hands to the kernel, and
    how it is filled from the UEFI configuration table (the newest ACPI and
    SMBIOS tables win).
  - `kernel::memory`: page-table entries and tables, and the physical memory
    map (total and usable memory, finding the region of an address).
  - `kernel::stack`: the allocation record of a fixed pool of task stacks.
  - `kernel::timer`: time-stamp-counter delays, as values that say when a
    wait is over.
  - `identity_acpi_handler`: the identity-mapping rule for ACPI tables.
- `tests/` runs the library on concrete values.
- `app/` is the UEFI program around it: firmware calls, the ACPI crate's
  handler trait, the time stamp counter, the stack pool's memory and the
  halt loop.
