//! The core mailbox and the two-stage release of the secondary cores.
use vstd::prelude::*;
use crate::heap::BumpAllocator;
use crate::mmio::{Bus, BusOp, EntryPoint};
use crate::uart::{
    baud_fraction, baud_integer, init_uart_pl011_rpi3, pin_function, tx_char_ops, tx_ops, uart_init_ops, BAUD_RATE,
    UART_CLOCK,
};

verus! {

/// Number of physical cores; core 0 boots the others.
pub const NUM_CORES: usize = 4;

/// Stage-1 release word of core 0; core `i` polls `RELEASE_BASE + 8 * i`.
pub const RELEASE_BASE: usize = 0xd8;

/// Distance between consecutive stage-1 release words.
pub const RELEASE_STRIDE: usize = 8;

/// The stage-1 release word that core `core` polls.
pub open spec fn release_addr(core: int) -> int {
    RELEASE_BASE + RELEASE_STRIDE * core
}

/// What core `core_id` reads in stage 2 to find its stack and entry point.
#[derive(Clone, Copy, Debug, PartialEq, Eq, Structural)]
pub struct CoreSlot {
    pub ready: bool,
    pub entry_point: EntryPoint,
    pub stack_pointer: usize,
    pub core_id: usize,
}

/// The slot of core `core` as it stands before anything is published.
pub open spec fn unpublished_slot(core: int) -> CoreSlot {
    CoreSlot { ready: false, entry_point: EntryPoint::Unset, stack_pointer: 0, core_id: core as usize }
}

/// The stack pointer and entry point stored for `core`, both written, and
/// then a store barrier, all before position `b` of `ops`.
pub open spec fn payload_before(ops: Seq<BusOp>, core: usize, sp: usize, entry: EntryPoint, b: int) -> bool {
    &&& (exists|i: int| 0 <= i < b && ops[i] == (BusOp::SlotStackPointer { core, sp }))
    &&& (exists|i: int| 0 <= i < b && ops[i] == (BusOp::SlotEntry { core, entry }))
}

/// Position `b` of `ops` is a store barrier that follows the payload of `core`.
pub open spec fn fence_after_payload(ops: Seq<BusOp>, core: usize, sp: usize, entry: EntryPoint, b: int) -> bool {
    &&& 0 <= b < ops.len()
    &&& ops[b] == BusOp::StoreBarrier
    &&& payload_before(ops, core, sp, entry, b)
}

/// Whenever `ops` sets the ready flag of `core`, the stack pointer `sp` and
/// entry point `entry` were stored before it and a store barrier stands
/// between them and the flag: no reader can see the flag before the payload.
pub open spec fn payload_fenced(ops: Seq<BusOp>, core: usize, sp: usize, entry: EntryPoint) -> bool {
    forall|j: int|
        0 <= j < ops.len() && #[trigger] ops[j] == (BusOp::SlotReady { core }) ==> exists|b: int|
            b < j && #[trigger] fence_after_payload(ops, core, sp, entry, b)
}

/// `ops` never sets the ready flag of `core`.
pub open spec fn never_ready(ops: Seq<BusOp>, core: usize) -> bool {
    forall|j: int| 0 <= j < ops.len() ==> #[trigger] ops[j] != (BusOp::SlotReady { core })
}

/// The side effects that publish `sp` and `entry` to core `core` and release it.
pub open spec fn publish_ops(core: usize, sp: usize, entry: EntryPoint, wait_routine: usize) -> Seq<BusOp> {
    seq![
        BusOp::SlotStackPointer { core, sp },
        BusOp::SlotEntry { core, entry },
        BusOp::StoreBarrier,
        BusOp::StoreWord { addr: release_addr(core as int) as usize, value: wait_routine },
        BusOp::SlotReady { core },
        BusOp::StoreBarrier,
        BusOp::WakeEvent,
    ]
}

proof fn lemma_fenced_extends(ops: Seq<BusOp>, more: Seq<BusOp>, core: usize, sp: usize, entry: EntryPoint)
    requires
        payload_fenced(ops, core, sp, entry),
        never_ready(more, core),
    ensures
        payload_fenced(ops + more, core, sp, entry),
{
    let all = ops + more;
    assert forall|j: int|
        0 <= j < all.len() && #[trigger] all[j] == (BusOp::SlotReady { core }) implies exists|b: int|
            b < j && #[trigger] fence_after_payload(all, core, sp, entry, b) by {
        if j < ops.len() {
            assert(ops[j] == all[j]);
            let b = choose|b: int| b < j && #[trigger] fence_after_payload(ops, core, sp, entry, b);
            let i1 = choose|i: int| 0 <= i < b && ops[i] == (BusOp::SlotStackPointer { core, sp });
            let i2 = choose|i: int| 0 <= i < b && ops[i] == (BusOp::SlotEntry { core, entry });
            assert(all[i1] == ops[i1]);
            assert(all[i2] == ops[i2]);
            assert(all[b] == ops[b]);
            assert(fence_after_payload(all, core, sp, entry, b));
        } else {
            assert(more[j - ops.len()] == all[j]);
        }
    }
}

proof fn lemma_never_ready_extends(ops: Seq<BusOp>, more: Seq<BusOp>, core: usize)
    requires
        never_ready(ops, core),
        never_ready(more, core),
    ensures
        never_ready(ops + more, core),
{
    let all = ops + more;
    assert forall|j: int| 0 <= j < all.len() implies #[trigger] all[j] != (BusOp::SlotReady { core }) by {
        if j < ops.len() {
            assert(all[j] == ops[j]);
        } else {
            assert(all[j] == more[j - ops.len()]);
        }
    }
}

proof fn lemma_publish_fenced(ops: Seq<BusOp>, core: usize, sp: usize, entry: EntryPoint, wait_routine: usize)
    requires
        never_ready(ops, core),
    ensures
        payload_fenced(ops + publish_ops(core, sp, entry, wait_routine), core, sp, entry),
{
    let more = publish_ops(core, sp, entry, wait_routine);
    let all = ops + more;
    let n = ops.len() as int;
    assert(all[n] == more[0]);
    assert(all[n + 1] == more[1]);
    assert(all[n + 2] == more[2]);
    assert(fence_after_payload(all, core, sp, entry, n + 2));
    assert forall|j: int|
        0 <= j < all.len() && #[trigger] all[j] == (BusOp::SlotReady { core }) implies exists|b: int|
            b < j && #[trigger] fence_after_payload(all, core, sp, entry, b) by {
        if j < n {
            assert(ops[j] == all[j]);
        } else {
            assert(all[j] == more[j - n]);
            assert(j == n + 4);
        }
    }
}

/// Whether `ops` fences the payload `sp`, `entry` of `core` before each time
/// it sets that core's ready flag.
pub fn is_payload_fenced(ops: &Vec<BusOp>, core: usize, sp: usize, entry: EntryPoint) -> (r: bool)
    ensures
        r == payload_fenced(ops@, core, sp, entry),
{
    let mut seen_sp = false;
    let mut seen_entry = false;
    let mut fenced = false;
    let mut k: usize = 0;
    while k < ops.len()
        invariant
            k <= ops@.len(),
            seen_sp == exists|i: int| 0 <= i < k && ops@[i] == (BusOp::SlotStackPointer { core, sp }),
            seen_entry == exists|i: int| 0 <= i < k && ops@[i] == (BusOp::SlotEntry { core, entry }),
            fenced == exists|b: int| b < k && #[trigger] fence_after_payload(ops@, core, sp, entry, b),
            forall|j: int|
                0 <= j < k && #[trigger] ops@[j] == (BusOp::SlotReady { core }) ==> exists|b: int|
                    b < j && #[trigger] fence_after_payload(ops@, core, sp, entry, b),
        decreases ops@.len() - k,
    {
        let op = ops[k];
        let ghost kk = k as int;
        match op {
            BusOp::SlotStackPointer { core: c, sp: s } => {
                if c == core && s == sp {
                    seen_sp = true;
                }
            },
            BusOp::SlotEntry { core: c, entry: e } => {
                if c == core && e == entry {
                    seen_entry = true;
                }
            },
            BusOp::StoreBarrier => {
                if seen_sp && seen_entry {
                    assert(fence_after_payload(ops@, core, sp, entry, kk));
                    fenced = true;
                }
            },
            BusOp::SlotReady { core: c } => {
                if c == core && !fenced {
                    proof {
                        assert(ops@[kk] == (BusOp::SlotReady { core }));
                        assert forall|b: int| b < kk implies !#[trigger] fence_after_payload(ops@, core, sp, entry, b) by {}
                    }
                    return false;
                }
            },
            _ => {},
        }
        proof {
            if fenced {
                let b = choose|b: int| b <= kk && #[trigger] fence_after_payload(ops@, core, sp, entry, b);
                assert(b < kk + 1);
            }
            if exists|b: int| b < kk + 1 && #[trigger] fence_after_payload(ops@, core, sp, entry, b) {
                let b = choose|b: int| b < kk + 1 && #[trigger] fence_after_payload(ops@, core, sp, entry, b);
                if b == kk {
                    assert(ops@[kk] == BusOp::StoreBarrier);
                    assert(payload_before(ops@, core, sp, entry, kk));
                }
            }
        }
        k = k + 1;
    }
    true
}

/// What a secondary core does after one look at its own slot.
#[derive(Clone, Copy, Debug, PartialEq, Eq, Structural)]
pub enum WaitAction {
    /// The slot is not ready yet: keep polling.
    Spin,
    /// The slot is ready: load this stack pointer and jump to this entry point.
    Jump { stack_pointer: usize, entry_point: EntryPoint },
}

/// One step of the stage-2 wait routine of the core that owns `slot`. It
/// never gives up: a slot that is never published keeps its core spinning.
pub fn poll_slot(slot: &CoreSlot) -> (r: WaitAction)
    ensures
        r == if slot.ready {
            WaitAction::Jump { stack_pointer: slot.stack_pointer, entry_point: slot.entry_point }
        } else {
            WaitAction::Spin
        },
{
    if slot.ready {
        WaitAction::Jump { stack_pointer: slot.stack_pointer, entry_point: slot.entry_point }
    } else {
        WaitAction::Spin
    }
}

/// Alignment of every secondary core's stack.
pub const STACK_ALIGN: usize = 16;

/// What bring-up does when a stack cannot be allocated at the size asked for.
#[derive(Clone, Copy, Debug, PartialEq, Eq, Structural)]
pub enum StackPolicy {
    /// Give up: the core is not released and bring-up stops.
    Halt,
    /// Ask again for half the size, down to a single byte, before giving up.
    Shrink,
}

/// Why bring-up stopped.
#[derive(Clone, Copy, Debug, PartialEq, Eq, Structural)]
pub enum BringUpError {
    /// No stack could be allocated for core `core`.
    StackExhausted { core: usize },
}

/// Under `Shrink`: the first of `size`, `size / 2`, `size / 4`, ... (all
/// non-zero) that fits, as the pair of stack base and stack top.
pub open spec fn shrink_grant(next: int, end: int, size: nat) -> Option<(int, int)>
    decreases size,
{
    if size == 0 {
        None
    } else {
        match crate::heap::alloc_outcome(next, end, size as int, STACK_ALIGN as int) {
            Some(a) => Some((a, a + size)),
            None => shrink_grant(next, end, size / 2),
        }
    }
}

/// The stack (base, top) that one request of `size` bytes yields under
/// `policy` from cursor `next` in a region that ends at `end`.
pub open spec fn stack_grant(next: int, end: int, size: nat, policy: StackPolicy) -> Option<(int, int)> {
    match policy {
        StackPolicy::Halt => match crate::heap::alloc_outcome(next, end, size as int, STACK_ALIGN as int) {
            Some(a) => Some((a, a + size)),
            None => None,
        },
        StackPolicy::Shrink => shrink_grant(next, end, size),
    }
}

/// The stacks of `n` successive requests, each starting where the previous
/// stack ends; `None` where one of them fails.
pub open spec fn stack_plan(next: int, end: int, size: nat, policy: StackPolicy, n: nat) -> Option<Seq<(int, int)>>
    decreases n,
{
    if n == 0 {
        Some(Seq::empty())
    } else {
        match stack_grant(next, end, size, policy) {
            None => None,
            Some(g) => match stack_plan(g.1, end, size, policy, (n - 1) as nat) {
                None => None,
                Some(t) => Some(seq![g] + t),
            },
        }
    }
}

/// `done` followed by the stacks of `rest`, if any.
pub open spec fn prepend_plan(done: Seq<(int, int)>, rest: Option<Seq<(int, int)>>) -> Option<Seq<(int, int)>> {
    match rest {
        None => None,
        Some(t) => Some(done + t),
    }
}

proof fn lemma_grant_bounds(next: int, end: int, size: nat, policy: StackPolicy)
    requires
        0 <= next,
        end <= usize::MAX,
    ensures
        stack_grant(next, end, size, policy) matches Some(g) ==> {
            &&& next <= g.0 <= g.1 <= end
            &&& g.1 <= usize::MAX
            &&& (size > 0 ==> g.0 < g.1)
        },
    decreases size,
{
    if policy == StackPolicy::Shrink && size > 0 {
        if crate::heap::alloc_outcome(next, end, size as int, STACK_ALIGN as int) is None {
            lemma_grant_bounds(next, end, size / 2, policy);
        }
    }
    if let Some(g) = stack_grant(next, end, size, policy) {
        let s = g.1 - g.0;
        assert(s >= 0);
        assert(crate::heap::alloc_outcome(next, end, s, STACK_ALIGN as int) == Some(g.0)) by {
            if policy == StackPolicy::Shrink {
                lemma_shrink_grant_fits(next, end, size);
            }
        }
        crate::heap::lemma_align_up_bounds(next, STACK_ALIGN as int);
    }
}

proof fn lemma_shrink_grant_fits(next: int, end: int, size: nat)
    ensures
        shrink_grant(next, end, size) matches Some(g) ==> g.1 > g.0 && crate::heap::alloc_outcome(
            next,
            end,
            g.1 - g.0,
            STACK_ALIGN as int,
        ) == Some(g.0),
    decreases size,
{
    if size > 0 {
        lemma_shrink_grant_fits(next, end, size / 2);
    }
}

proof fn lemma_plan_advance(
    c0: int,
    cur: int,
    end: int,
    size: nat,
    policy: StackPolicy,
    g: (int, int),
    done: Seq<(int, int)>,
    k: nat,
    limit: nat,
)
    requires
        stack_grant(cur, end, size, policy) == Some(g),
        limit >= 1,
        forall|m: nat| m <= limit ==> #[trigger] stack_plan(c0, end, size, policy, k + m) == prepend_plan(
            done,
            stack_plan(cur, end, size, policy, m),
        ),
    ensures
        forall|m: nat| m <= limit - 1 ==> #[trigger] stack_plan(c0, end, size, policy, k + 1 + m) == prepend_plan(
            done.push(g),
            stack_plan(g.1, end, size, policy, m),
        ),
{
    assert forall|m: nat| m <= limit - 1 implies #[trigger] stack_plan(c0, end, size, policy, k + 1 + m) == prepend_plan(
        done.push(g),
        stack_plan(g.1, end, size, policy, m),
    ) by {
        assert(stack_plan(c0, end, size, policy, k + (m + 1) as nat) == prepend_plan(done, stack_plan(cur, end, size, policy, (m + 1) as nat)));
        assert(k + (m + 1) as nat == k + 1 + m);
        if let Some(t) = stack_plan(g.1, end, size, policy, m) {
            assert(done + (seq![g] + t) =~= done.push(g) + t);
        }
    }
}

/// The secondary cores' stacks never overlap and their tops strictly
/// increase: each stack lies inside the heap past the cursor that bring-up
/// started from, and each ends at or before the base of the next.
pub proof fn lemma_stack_plan_disjoint(next: int, end: int, size: nat, policy: StackPolicy, n: nat)
    requires
        0 <= next,
        end <= usize::MAX,
        size > 0,
    ensures
        stack_plan(next, end, size, policy, n) matches Some(t) ==> {
            &&& t.len() == n
            &&& forall|i: int| 0 <= i < t.len() ==> next <= (#[trigger] t[i]).0 < t[i].1 <= end
            &&& forall|i: int, j: int| 0 <= i < j < t.len() ==> (#[trigger] t[i]).1 <= (#[trigger] t[j]).0
        },
    decreases n,
{
    if n > 0 {
        lemma_grant_bounds(next, end, size, policy);
        if let Some(g) = stack_grant(next, end, size, policy) {
            lemma_stack_plan_disjoint(g.1, end, size, policy, (n - 1) as nat);
            if let Some(rest) = stack_plan(g.1, end, size, policy, (n - 1) as nat) {
                let t = seq![g] + rest;
                assert forall|i: int| 0 < i < t.len() implies #[trigger] t[i] == rest[i - 1] by {}
                assert forall|i: int| 0 <= i < t.len() implies next <= (#[trigger] t[i]).0 < t[i].1 <= end by {
                    if i > 0 {
                        assert(t[i] == rest[i - 1]);
                    }
                }
                assert forall|i: int, j: int| 0 <= i < j < t.len() implies (#[trigger] t[i]).1 <= (#[trigger] t[j]).0 by {
                    assert(t[j] == rest[j - 1]);
                    if i > 0 {
                        assert(t[i] == rest[i - 1]);
                    }
                }
            }
        }
    }
}

/// The boot core's view of bring-up: the heap allocator, the mailbox table
/// (one slot per core, indexed by core id) and the bus that everything is
/// written through.
pub struct BringUp {
    allocator: BumpAllocator,
    slots: Vec<CoreSlot>,
    bus: Bus,
    wait_routine: usize,
}

impl BringUp {
    /// The heap allocator.
    pub closed spec fn heap(&self) -> BumpAllocator {
        self.allocator
    }

    /// The mailbox table.
    pub closed spec fn slots(&self) -> Seq<CoreSlot> {
        self.slots@
    }

    /// Everything written to the bus so far.
    pub closed spec fn log(&self) -> Seq<BusOp> {
        self.bus@
    }

    /// The address of the generic stage-2 wait routine.
    pub closed spec fn wait_routine_addr(&self) -> usize {
        self.wait_routine
    }

    /// One slot per core, each naming its own core; a slot is published
    /// with its payload fenced before its ready flag, or its flag was never set.
    pub closed spec fn wf(&self) -> bool {
        &&& self.allocator.wf()
        &&& self.allocator.region_end() <= usize::MAX
        &&& self.slots@.len() == NUM_CORES
        &&& forall|i: int| 0 <= i < NUM_CORES ==> (#[trigger] self.slots@[i]).core_id == i
        &&& forall|i: int|
            0 <= i < NUM_CORES ==> if (#[trigger] self.slots@[i]).ready {
                payload_fenced(self.bus@, i as usize, self.slots@[i].stack_pointer, self.slots@[i].entry_point)
            } else {
                never_ready(self.bus@, i as usize)
            }
    }

    /// Sets up the heap allocator over `heap_size` bytes from `heap_start`,
    /// with every mailbox slot unpublished and nothing on the bus.
    /// `wait_routine` is the address that released cores jump to in stage 1.
    pub fn new(heap_start: usize, heap_size: usize, wait_routine: usize) -> (r: Self)
        ensures
            r.wf(),
            r.heap().region_start() == heap_start,
            r.heap().cursor() == heap_start,
            r.heap().region_end() == if heap_start + heap_size > usize::MAX {
                usize::MAX as int
            } else {
                heap_start + heap_size
            },
            forall|i: int| 0 <= i < NUM_CORES ==> #[trigger] r.slots()[i] == unpublished_slot(i),
            r.log() == Seq::<BusOp>::empty(),
            r.wait_routine_addr() == wait_routine,
    {
        let mut allocator = BumpAllocator::new();
        allocator.init(heap_start, heap_size);
        let mut slots: Vec<CoreSlot> = Vec::new();
        let mut i: usize = 0;
        while i < NUM_CORES
            invariant
                i <= NUM_CORES,
                slots@.len() == i,
                forall|k: int| 0 <= k < i ==> #[trigger] slots@[k] == unpublished_slot(k),
            decreases NUM_CORES - i,
        {
            slots.push(CoreSlot { ready: false, entry_point: EntryPoint::Unset, stack_pointer: 0, core_id: i });
            i = i + 1;
        }
        BringUp { allocator, slots, bus: Bus::new(), wait_routine }
    }

    /// The mailbox slot of core `core`.
    pub fn slot(&self, core: usize) -> (r: CoreSlot)
        requires
            self.wf(),
            core < NUM_CORES,
        ensures
            r == self.slots()[core as int],
    {
        self.slots[core]
    }

    /// The bus log.
    pub fn bus(&self) -> (r: &Bus)
        ensures
            r@ == self.log(),
    {
        &self.bus
    }

    /// The heap allocator.
    pub fn allocator(&self) -> (r: &BumpAllocator)
        ensures
            *r == self.heap(),
    {
        &self.allocator
    }

    /// Publishes stack top `sp` and entry point `entry` to core `core` and
    /// releases it: payload, store barrier, stage-1 release word, ready flag,
    /// store barrier, wake event, in that order.
    pub fn publish(&mut self, core: usize, sp: usize, entry: EntryPoint)
        requires
            old(self).wf(),
            1 <= core < NUM_CORES,
            !old(self).slots()[core as int].ready,
        ensures
            final(self).wf(),
            final(self).slots() == old(self).slots().update(
                core as int,
                CoreSlot { ready: true, entry_point: entry, stack_pointer: sp, core_id: core },
            ),
            final(self).log() == old(self).log() + publish_ops(core, sp, entry, old(self).wait_routine_addr()),
            final(self).heap() == old(self).heap(),
            final(self).wait_routine_addr() == old(self).wait_routine_addr(),
    {
        let ghost before = self.bus@;
        self.slots.set(core, CoreSlot { ready: false, entry_point: entry, stack_pointer: sp, core_id: core });
        self.bus.emit(BusOp::SlotStackPointer { core, sp });
        self.bus.emit(BusOp::SlotEntry { core, entry });
        self.bus.emit(BusOp::StoreBarrier);
        self.bus.emit(BusOp::StoreWord { addr: RELEASE_BASE + RELEASE_STRIDE * core, value: self.wait_routine });
        self.slots.set(core, CoreSlot { ready: true, entry_point: entry, stack_pointer: sp, core_id: core });
        self.bus.emit(BusOp::SlotReady { core });
        self.bus.emit(BusOp::StoreBarrier);
        self.bus.emit(BusOp::WakeEvent);
        proof {
            let more = publish_ops(core, sp, entry, self.wait_routine);
            assert(self.bus@ =~= before + more);
            lemma_publish_fenced(before, core, sp, entry, self.wait_routine);
            assert forall|i: int| 0 <= i < NUM_CORES implies if (#[trigger] self.slots@[i]).ready {
                payload_fenced(self.bus@, i as usize, self.slots@[i].stack_pointer, self.slots@[i].entry_point)
            } else {
                never_ready(self.bus@, i as usize)
            } by {
                if i != core {
                    assert(self.slots@[i] == old(self).slots@[i]);
                    assert forall|j: int| 0 <= j < more.len() implies #[trigger] more[j] != (BusOp::SlotReady { core: i as usize }) by {}
                    if self.slots@[i].ready {
                        lemma_fenced_extends(before, more, i as usize, self.slots@[i].stack_pointer, self.slots@[i].entry_point);
                    } else {
                        lemma_never_ready_extends(before, more, i as usize);
                    }
                }
            }
        }
    }

    /// Allocates one stack of `size` bytes under `policy`, returning its
    /// base and top; stacks grow down from the top.
    pub fn grant_stack(&mut self, size: usize, policy: StackPolicy) -> (r: Option<(usize, usize)>)
        requires
            old(self).wf(),
        ensures
            final(self).wf(),
            r == match stack_grant(old(self).heap().cursor(), old(self).heap().region_end(), size as nat, policy) {
                Some(g) => Some((g.0 as usize, g.1 as usize)),
                None => None::<(usize, usize)>,
            },
            final(self).heap().region_start() == old(self).heap().region_start(),
            final(self).heap().region_end() == old(self).heap().region_end(),
            final(self).heap().cursor() == match r {
                Some(g) => g.1 as int,
                None => old(self).heap().cursor(),
            },
            final(self).slots() == old(self).slots(),
            final(self).log() == old(self).log(),
            final(self).wait_routine_addr() == old(self).wait_routine_addr(),
    {
        let ghost next = self.allocator.cursor();
        let ghost end = self.allocator.region_end();
        proof {
            lemma_grant_bounds(next, end, size as nat, policy);
        }
        match policy {
            StackPolicy::Halt => match self.allocator.allocate(size, STACK_ALIGN) {
                Some(a) => Some((a, a + size)),
                None => None,
            },
            StackPolicy::Shrink => {
                let mut s: usize = size;
                while s > 0
                    invariant
                        self.wf(),
                        self.allocator.cursor() == next,
                        self.allocator.region_end() == end,
                        self.slots@ == old(self).slots@,
                        self.bus@ == old(self).bus@,
                        self.wait_routine == old(self).wait_routine,
                        self.allocator.region_start() == old(self).allocator.region_start(),
                        next == old(self).allocator.cursor(),
                        end == old(self).allocator.region_end(),
                        policy == StackPolicy::Shrink,
                        shrink_grant(next, end, size as nat) == shrink_grant(next, end, s as nat),
                    decreases s,
                {
                    match self.allocator.allocate(s, STACK_ALIGN) {
                        Some(a) => {
                            return Some((a, a + s));
                        },
                        None => {
                            s = s / 2;
                        },
                    }
                }
                None
            },
        }
    }

    /// Releases cores 1 to `NUM_CORES - 1` in order: for each, a stack of
    /// `stack_size` bytes under `policy`, whose top is published with the
    /// core's entry point `entries[core]`. Stops at the first core for which
    /// no stack can be had, which is then neither published nor released.
    pub fn release_secondaries(&mut self, entries: &Vec<EntryPoint>, stack_size: usize, policy: StackPolicy) -> (r: Result<(), BringUpError>)
        requires
            old(self).wf(),
            entries@.len() == NUM_CORES,
            forall|i: int| 1 <= i < NUM_CORES ==> !(#[trigger] old(self).slots()[i]).ready,
        ensures
            final(self).wf(),
            final(self).wait_routine_addr() == old(self).wait_routine_addr(),
            final(self).slots()[0] == old(self).slots()[0],
            final(self).heap().region_start() == old(self).heap().region_start(),
            final(self).heap().region_end() == old(self).heap().region_end(),
            ({
                let plan = stack_plan(old(self).heap().cursor(), old(self).heap().region_end(), stack_size as nat, policy, (NUM_CORES - 1) as nat);
                match r {
                    Ok(()) => plan is Some && forall|i: int| 1 <= i < NUM_CORES ==> #[trigger] final(self).slots()[i] == (CoreSlot {
                        ready: true,
                        entry_point: entries@[i],
                        stack_pointer: plan->0[i - 1].1 as usize,
                        core_id: i as usize,
                    }),
                    Err(BringUpError::StackExhausted { core }) => {
                        &&& 1 <= core < NUM_CORES
                        &&& stack_plan(old(self).heap().cursor(), old(self).heap().region_end(), stack_size as nat, policy, (core - 1) as nat) is Some
                        &&& stack_plan(old(self).heap().cursor(), old(self).heap().region_end(), stack_size as nat, policy, core as nat) is None
                        &&& forall|i: int| core <= i < NUM_CORES ==> !(#[trigger] final(self).slots()[i]).ready
                    },
                }
            }),
            forall|i: int| 1 <= i < NUM_CORES && (#[trigger] final(self).slots()[i]).ready ==> payload_fenced(
                final(self).log(),
                i as usize,
                final(self).slots()[i].stack_pointer,
                final(self).slots()[i].entry_point,
            ),
    {
        let ghost c0 = self.allocator.cursor();
        let ghost end = self.allocator.region_end();
        let ghost size = stack_size as nat;
        let ghost mut done: Seq<(int, int)> = Seq::empty();
        let mut core: usize = 1;
        while core < NUM_CORES
            invariant
                self.wf(),
                1 <= core <= NUM_CORES,
                c0 == old(self).allocator.cursor(),
                self.wait_routine == old(self).wait_routine,
                end == old(self).allocator.region_end(),
                size == stack_size as nat,
                entries@.len() == NUM_CORES,
                done.len() == core - 1,
                self.allocator.region_end() == end,
                self.allocator.region_start() == old(self).allocator.region_start(),
                self.slots()[0] == old(self).slots()[0],
                forall|m: nat| m <= NUM_CORES - core ==> #[trigger] stack_plan(c0, end, size, policy, (core - 1) as nat + m)
                    == prepend_plan(done, stack_plan(self.allocator.cursor(), end, size, policy, m)),
                forall|i: int| 1 <= i < core ==> #[trigger] self.slots()[i] == (CoreSlot {
                    ready: true,
                    entry_point: entries@[i],
                    stack_pointer: done[i - 1].1 as usize,
                    core_id: i as usize,
                }),
                forall|i: int| core <= i < NUM_CORES ==> !(#[trigger] self.slots()[i]).ready,
            decreases NUM_CORES - core,
        {
            let ghost cur = self.allocator.cursor();
            proof {
                assert(stack_plan(cur, end, size, policy, 1) == match stack_grant(cur, end, size, policy) {
                    None => None,
                    Some(g) => Some(seq![g] + Seq::<(int, int)>::empty()),
                }) by {
                    reveal_with_fuel(stack_plan, 2);
                }
                assert(stack_plan(c0, end, size, policy, (core - 1) as nat + 0) == prepend_plan(done, stack_plan(cur, end, size, policy, 0)));
                assert(stack_plan(c0, end, size, policy, (core - 1) as nat + 1) == prepend_plan(done, stack_plan(cur, end, size, policy, 1)));
            }
            match self.grant_stack(stack_size, policy) {
                None => {
                    return Err(BringUpError::StackExhausted { core });
                },
                Some((_base, top)) => {
                    let ghost g = stack_grant(cur, end, size, policy)->0;
                    self.publish(core, top, entries[core]);
                    proof {
                        lemma_plan_advance(c0, cur, end, size, policy, g, done, (core - 1) as nat, (NUM_CORES - core) as nat);
                        lemma_grant_bounds(cur, end, size, policy);
                        assert(self.allocator.cursor() == g.1);
                        assert forall|m: nat| m <= NUM_CORES - (core + 1) implies #[trigger] stack_plan(c0, end, size, policy, ((core + 1) - 1) as nat + m)
                            == prepend_plan(done.push(g), stack_plan(self.allocator.cursor(), end, size, policy, m)) by {
                            assert((core - 1) as nat + 1 + m == ((core + 1) - 1) as nat + m);
                        }
                        done = done.push(g);
                    }
                    core = core + 1;
                },
            }
        }
        proof {
            assert(stack_plan(c0, end, size, policy, (core - 1) as nat + 0) == prepend_plan(done, stack_plan(self.allocator.cursor(), end, size, policy, 0)));
            let plan = stack_plan(c0, end, size, policy, (NUM_CORES - 1) as nat);
            assert(plan == Some(done + Seq::<(int, int)>::empty()));
            assert(done + Seq::<(int, int)>::empty() =~= done);
        }
        Ok(())
    }

    /// Brings up the UART through the bus; `gpfsel1` is the value the GPIO
    /// function select register held before.
    pub fn init_uart(&mut self, gpfsel1: u32)
        requires
            old(self).wf(),
        ensures
            final(self).wf(),
            final(self).slots() == old(self).slots(),
            final(self).heap() == old(self).heap(),
            final(self).wait_routine_addr() == old(self).wait_routine_addr(),
            exists|pins: u32|
                pin_function(pins, 14) == 4 && pin_function(pins, 15) == 4 && (forall|p: u32|
                    10 <= p < 20 && p != 14 && p != 15 ==> #[trigger] pin_function(pins, p) == pin_function(gpfsel1, p))
                    && final(self).log() == old(self).log() + uart_init_ops(
                    pins as usize,
                    baud_integer(UART_CLOCK as int, BAUD_RATE as int) as usize,
                    baud_fraction(UART_CLOCK as int, BAUD_RATE as int) as usize,
                ),
    {
        let ghost before = self.bus@;
        init_uart_pl011_rpi3(&mut self.bus, gpfsel1);
        proof {
            let more = self.bus@.subrange(before.len() as int, self.bus@.len() as int);
            let pins = choose|pins: u32|
                pin_function(pins, 14) == 4 && pin_function(pins, 15) == 4 && (forall|p: u32|
                    10 <= p < 20 && p != 14 && p != 15 ==> #[trigger] pin_function(pins, p) == pin_function(gpfsel1, p))
                    && self.bus@ == before + uart_init_ops(
                    pins as usize,
                    baud_integer(UART_CLOCK as int, BAUD_RATE as int) as usize,
                    baud_fraction(UART_CLOCK as int, BAUD_RATE as int) as usize,
                );
            assert(self.bus@ == before + more);
            assert forall|c: usize| c < NUM_CORES implies #[trigger] never_ready(more, c) by {
                assert forall|j: int| 0 <= j < more.len() implies #[trigger] more[j] != (BusOp::SlotReady { core: c }) by {
                    assert(more[j] == self.bus@[before.len() + j]);
                }
            }
            self.lemma_wf_after(before, more);
        }
    }

    /// Transmits `string` on the UART.
    pub fn write_str(&mut self, string: &str)
        requires
            old(self).wf(),
        ensures
            final(self).wf(),
            final(self).slots() == old(self).slots(),
            final(self).heap() == old(self).heap(),
            final(self).wait_routine_addr() == old(self).wait_routine_addr(),
            final(self).log() == old(self).log() + tx_ops(string@),
    {
        let ghost before = self.bus@;
        crate::uart::write_str(&mut self.bus, string);
        proof {
            assert forall|c: usize| c < NUM_CORES implies #[trigger] never_ready(tx_ops(string@), c) by {
                lemma_tx_never_ready(string@, c);
            }
            self.lemma_wf_after(before, tx_ops(string@));
        }
    }

    proof fn lemma_wf_after(&self, before: Seq<BusOp>, more: Seq<BusOp>)
        requires
            self.bus@ == before + more,
            forall|c: usize| c < NUM_CORES ==> #[trigger] never_ready(more, c),
            self.allocator.wf(),
            self.slots@.len() == NUM_CORES,
            forall|i: int| 0 <= i < NUM_CORES ==> (#[trigger] self.slots@[i]).core_id == i,
            forall|i: int|
                0 <= i < NUM_CORES ==> if (#[trigger] self.slots@[i]).ready {
                    payload_fenced(before, i as usize, self.slots@[i].stack_pointer, self.slots@[i].entry_point)
                } else {
                    never_ready(before, i as usize)
                },
        ensures
            self.wf(),
    {
        assert forall|i: int| 0 <= i < NUM_CORES implies if (#[trigger] self.slots@[i]).ready {
            payload_fenced(self.bus@, i as usize, self.slots@[i].stack_pointer, self.slots@[i].entry_point)
        } else {
            never_ready(self.bus@, i as usize)
        } by {
            assert(never_ready(more, i as usize));
            if self.slots@[i].ready {
                lemma_fenced_extends(before, more, i as usize, self.slots@[i].stack_pointer, self.slots@[i].entry_point);
            } else {
                lemma_never_ready_extends(before, more, i as usize);
            }
        }
    }
}

proof fn lemma_tx_never_ready(s: Seq<char>, core: usize)
    ensures
        never_ready(tx_ops(s), core),
    decreases s.len(),
{
    if s.len() > 0 {
        lemma_tx_never_ready(s.drop_last(), core);
        let more = tx_char_ops(s.last());
        assert forall|j: int| 0 <= j < more.len() implies #[trigger] more[j] != (BusOp::SlotReady { core }) by {}
        lemma_never_ready_extends(tx_ops(s.drop_last()), more, core);
    }
}

/// Every slot the boot core has published was published safely: whoever
/// sees its ready flag set on the bus has had its stack pointer and entry
/// point stored, with a store barrier in between; every other slot's ready
/// flag was never set.
pub proof fn lemma_published_slots_fenced(b: &BringUp)
    requires
        b.wf(),
    ensures
        forall|i: int|
            0 <= i < NUM_CORES ==> if (#[trigger] b.slots()[i]).ready {
                payload_fenced(b.log(), i as usize, b.slots()[i].stack_pointer, b.slots()[i].entry_point)
            } else {
                never_ready(b.log(), i as usize)
            },
{
}

/// The boot core's bring-up: the UART, then the heap allocator over
/// `heap_size` bytes from `heap_start`, then cores 1 to `NUM_CORES - 1`
/// released in order, each with a stack of `stack_size` bytes under
/// `policy` and its entry point `entries[core]`. Core 0 is never published
/// and never waited on.
pub fn bring_up(
    heap_start: usize,
    heap_size: usize,
    wait_routine: usize,
    gpfsel1: u32,
    entries: &Vec<EntryPoint>,
    stack_size: usize,
    policy: StackPolicy,
) -> (r: (BringUp, Result<(), BringUpError>))
    requires
        entries@.len() == NUM_CORES,
    ensures
        r.0.wf(),
        r.0.wait_routine_addr() == wait_routine,
        r.0.heap().region_start() == heap_start,
        r.0.slots()[0] == unpublished_slot(0),
        ({
            let plan = stack_plan(heap_start as int, r.0.heap().region_end(), stack_size as nat, policy, (NUM_CORES - 1) as nat);
            match r.1 {
                Ok(()) => plan is Some && forall|i: int| 1 <= i < NUM_CORES ==> #[trigger] r.0.slots()[i] == (CoreSlot {
                    ready: true,
                    entry_point: entries@[i],
                    stack_pointer: plan->0[i - 1].1 as usize,
                    core_id: i as usize,
                }),
                Err(BringUpError::StackExhausted { core }) => {
                    &&& 1 <= core < NUM_CORES
                    &&& stack_plan(heap_start as int, r.0.heap().region_end(), stack_size as nat, policy, (core - 1) as nat) is Some
                    &&& stack_plan(heap_start as int, r.0.heap().region_end(), stack_size as nat, policy, core as nat) is None
                    &&& forall|i: int| core <= i < NUM_CORES ==> !(#[trigger] r.0.slots()[i]).ready
                },
            }
        }),
        r.0.heap().region_end() == if heap_start + heap_size > usize::MAX {
            usize::MAX as int
        } else {
            heap_start + heap_size
        },
{
    let mut controller = BringUp::new(heap_start, heap_size, wait_routine);
    controller.init_uart(gpfsel1);
    assert(forall|i: int| 1 <= i < NUM_CORES ==> !(#[trigger] controller.slots()[i]).ready) by {
        assert forall|i: int| 1 <= i < NUM_CORES implies !(#[trigger] controller.slots()[i]).ready by {
            assert(controller.slots()[i] == unpublished_slot(i));
        }
    }
    let result = controller.release_secondaries(entries, stack_size, policy);
    (controller, result)
}

} // verus!
