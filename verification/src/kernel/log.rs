//! Kernel logging without UEFI services.
use vstd::prelude::*;

verus! {

/// Initialize kernel logging. Nothing needs setting up yet: the loader's
/// logger keeps working until boot services are exited.
pub fn init_kernel_logging() {
}

} // verus!
