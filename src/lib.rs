//! Earliest-boot layer of a bare-metal multi-core kernel: a bump allocator over
//! one static region, the core mailbox release protocol, the board's UART, and
//! the flag of a spin lock, all stated over a model of the machine's memory bus.
pub mod heap;
pub mod mailbox;
pub mod mmio;
pub mod synch;
pub mod uart;
