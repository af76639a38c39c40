//! Memory management for a single-core x86-64 kernel, modelled on plain
//! values so that every rule can be stated and proved.
//!
//! * [`memory::frames`]: physical frames, the bump allocator over the
//!   firmware memory map and the three-slot frame pool.
//! * [`memory::paging`]: page-table entries, the four-level table tree and
//!   the mapper that edits it.
//! * [`memory`]: building a fresh address space for the kernel image.
//! * [`allocator`]: the free-list heap.
//! * [`vga`]: the text console of the early boot.
//! * [`text`]: the text console on a linear framebuffer.
#![allow(unused_imports)]

pub mod allocator;
pub mod memory;
pub mod text;
pub mod vga;
