//! Core logic of a small single-program kernel: boot checks, the boot record,
//! physical frames, address spaces, the kernel heap, descriptor tables, the
//! ELF loader and the entry into user mode.

pub mod boot;
pub mod boot_record;
pub mod bytes;
pub mod descriptors;
pub mod elf;
pub mod frame;
pub mod heap;
pub mod loader;
pub mod paging;
pub mod userspace;
