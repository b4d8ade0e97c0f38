//! Kernel `IORESOURCE_*` flag bits. They are fixed by the kernel header `linux/ioport.h`.

use vstd::prelude::*;

verus! {

pub const IO: u64 = 0x0000_0100;

pub const MEM: u64 = 0x0000_0200;

pub const PREFETCH: u64 = 0x0000_2000;

pub const MEM_64: u64 = 0x0010_0000;

} // verus!
