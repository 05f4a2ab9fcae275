//! Early-boot building blocks of the Lubun kernel: the hand-off record built
//! by the UEFI loader, x86_64 page-table entries, the physical memory map, a
//! fixed pool of task stacks and time-stamp-counter delays.
pub mod identity_acpi_handler;
pub mod kernel;
pub mod kernel_args;
