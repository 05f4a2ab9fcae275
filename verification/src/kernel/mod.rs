//! Kernel module: what runs after the loader hands over, and the hardware
//! abstractions it uses.
//!
//! The kernel module is responsible for:
//! - Processing the `KernelArgs` passed from the loader
//! - Keeping the physical memory map and building paging structures
//! - Handing out task stacks and timing delays
use vstd::prelude::*;

use crate::kernel_args::KernelArgs;
use crate::kernel_args::OSMemEntry;

pub mod log;
pub mod memory;
pub mod stack;
pub mod timer;

verus! {

/// The main Kernel struct that orchestrates all kernel subsystems
pub struct Kernel {
    memory_manager: memory::VirtualMemoryManager,
}

impl Kernel {
    /// The memory manager this kernel owns.
    pub closed spec fn manager(&self) -> memory::VirtualMemoryManager {
        self.memory_manager
    }

    /// Initialize the kernel from the `KernelArgs` passed by the loader and
    /// the memory map regions that `kargs` points at.
    pub fn init(kargs: KernelArgs, memory_regions: &'static [OSMemEntry]) -> (kernel: Self)
        requires
            memory_regions@.len() == kargs@.memmap_entries,
        ensures
            kernel.manager()@ == memory_regions@,
            kernel.manager()@.len() == kargs@.memmap_entries,
    {
        log::init_kernel_logging();
        let memory_manager = memory::VirtualMemoryManager::init_from_memmap(memory_regions);
        Kernel { memory_manager }
    }

    /// Get reference to the virtual memory manager
    pub fn memory_manager(&self) -> (manager: &memory::VirtualMemoryManager)
        ensures
            *manager == self.manager(),
    {
        &self.memory_manager
    }

    /// Get mutable reference to the virtual memory manager
    pub fn memory_manager_mut(&mut self) -> (manager: &mut memory::VirtualMemoryManager)
        ensures
            *manager == old(self).manager(),
            final(self).manager() == *final(manager),
    {
        &mut self.memory_manager
    }
}

} // verus!
