//! Core of a small Sv39 supervisor kernel: physical frame management, a
//! three-level page table, memory areas and sets, ELF program loading, task
//! control blocks with a cooperative scheduler, and trap/syscall dispatch.
//!
//! Physical memory is modelled arena-style: a page number indexes into a flat
//! collection of page images, and every structure that owns a frame reads and
//! writes its bytes through that arena. Hardware access (CSRs, firmware calls,
//! the context-switch assembly) stays outside the library; the library states
//! and proves what the kernel decides.
pub mod address;
pub mod dtb;
pub mod elf_image;
pub mod kernel_mm;
pub mod logging;
pub mod memory_structure;
pub mod page_table;
pub mod frame_allocator;
pub mod phys_mem;
pub mod syscall;
pub mod task_context;
pub mod task_manager;
pub mod tcb;
pub mod trap;
pub mod trap_context;
