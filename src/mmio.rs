//! The memory bus as a log of observable side effects: every store to a
//! device register or shared table, every barrier and every wake signal is
//! recorded in program order. Hardware runs the log; tests read it.
use vstd::prelude::*;

verus! {

/// Where a secondary core's stage-2 wait routine sends it.
#[derive(Clone, Copy, Debug, PartialEq, Eq, Structural)]
pub enum EntryPoint {
    /// Link-time sentinel: nothing published yet.
    Unset,
    /// The per-core kernel main routine.
    CoreMain,
    /// A routine that parks the core in a low-power idle loop.
    Park,
}

/// One observable side effect on the bus.
#[derive(Clone, Copy, Debug, PartialEq, Eq, Structural)]
pub enum BusOp {
    /// A volatile 32-bit store of `value` to the device register at `addr`.
    Store { addr: usize, value: usize },
    /// A volatile store of the machine word `value` to `addr`.
    StoreWord { addr: usize, value: usize },
    /// A busy-wait of `cycles` no-op cycles.
    Delay { cycles: usize },
    /// Wait until the UART reports that it is not busy.
    WaitUartIdle,
    /// Wait until the UART's transmit FIFO has room.
    WaitUartTxSpace,
    /// The stack pointer field of core `core`'s mailbox slot is written.
    SlotStackPointer { core: usize, sp: usize },
    /// The entry point field of core `core`'s mailbox slot is written.
    SlotEntry { core: usize, entry: EntryPoint },
    /// The ready flag of core `core`'s mailbox slot is set.
    SlotReady { core: usize },
    /// Store-ordering barrier: every earlier store is visible before any later one.
    StoreBarrier,
    /// Wake-event broadcast to cores parked in a wait-for-event state.
    WakeEvent,
}

/// The recorded side effects, oldest first.
pub struct Bus {
    ops: Vec<BusOp>,
}

impl View for Bus {
    type V = Seq<BusOp>;

    closed spec fn view(&self) -> Seq<BusOp> {
        self.ops@
    }
}

impl Bus {
    /// A bus on which nothing has happened yet.
    pub fn new() -> (r: Self)
        ensures
            r@ == Seq::<BusOp>::empty(),
    {
        Bus { ops: Vec::new() }
    }

    /// Records `op` after everything recorded so far.
    pub fn emit(&mut self, op: BusOp)
        ensures
            final(self)@ == old(self)@.push(op),
    {
        self.ops.push(op);
    }

    /// Number of recorded side effects.
    pub fn len(&self) -> (r: usize)
        ensures
            r == self@.len(),
    {
        self.ops.len()
    }

    /// The side effect recorded at position `i`.
    pub fn op(&self, i: usize) -> (r: BusOp)
        requires
            i < self@.len(),
        ensures
            r == self@[i as int],
    {
        self.ops[i]
    }

    /// A copy of the whole log.
    pub fn ops(&self) -> (r: Vec<BusOp>)
        ensures
            r@ == self@,
    {
        self.ops.clone()
    }
}

} // verus!
