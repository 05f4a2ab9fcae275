use lubun::kernel::log::init_kernel_logging;
use lubun::kernel::Kernel;
use lubun::kernel_args::{KernelArgs, OSMemEntry};

#[test]
fn kernel_module_exists() {
    // Verify that the kernel module can be imported and compiled
    init_kernel_logging();
}

#[test]
fn kernel_keeps_memory_map() {
    let regions: &'static [OSMemEntry] = vec![
        OSMemEntry { ty: 7, base: 0, pages: 2, att: 0 },
        OSMemEntry { ty: 3, base: 0x2000, pages: 3, att: 0 },
    ]
    .leak();
    let mut kargs = KernelArgs::default();
    kargs.set_memmap(0x8000, regions.len());
    let mut kernel = Kernel::init(kargs, regions);
    assert_eq!(kernel.memory_manager().region_count(), 2);
    assert_eq!(kernel.memory_manager().total_physical_memory(), 5 * 4096);
    assert_eq!(kernel.memory_manager_mut().usable_memory(), 2 * 4096);
}
