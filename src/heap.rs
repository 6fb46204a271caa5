//! A monotonic bump allocator over a single region of addresses.
use vstd::prelude::*;
use vstd::arithmetic::power2::is_pow2;
use vstd::arithmetic::div_mod::lemma_fundamental_div_mod;

verus! {

/// `align` is a power of two (1, 2, 4, ...).
pub open spec fn is_power_of_two(align: int) -> bool {
    is_pow2(align)
}

/// `addr` rounded up to the next multiple of `align`.
pub open spec fn align_up_spec(addr: int, align: int) -> int {
    (addr + align - 1) - (addr + align - 1) % align
}

/// Whether rounding `next` up to `align` leaves the address space.
pub open spec fn rounding_overflows(next: int, align: int) -> bool {
    next + align - 1 > usize::MAX
}

/// The address that an allocation of `size` bytes aligned to `align` returns
/// when the cursor stands at `next` and the region ends at `end`; `None`
/// where the request fails.
pub open spec fn alloc_outcome(next: int, end: int, size: int, align: int) -> Option<int> {
    if !is_power_of_two(align) || rounding_overflows(next, align) {
        None
    } else if align_up_spec(next, align) + size > end {
        None
    } else {
        Some(align_up_spec(next, align))
    }
}

/// The cursor after that request.
pub open spec fn cursor_after(next: int, end: int, size: int, align: int) -> int {
    match alloc_outcome(next, end, size, align) {
        Some(a) => a + size,
        None => next,
    }
}

/// The results of a run of requests `(size, align)`, in order, made from
/// cursor `next` in a region that ends at `end`.
pub open spec fn replay(next: int, end: int, reqs: Seq<(nat, nat)>) -> Seq<Option<int>>
    decreases reqs.len(),
{
    if reqs.len() == 0 {
        Seq::empty()
    } else {
        let (size, align) = reqs[0];
        seq![alloc_outcome(next, end, size as int, align as int)] + replay(
            cursor_after(next, end, size as int, align as int),
            end,
            reqs.drop_first(),
        )
    }
}

/// The address an allocation rounds the cursor to is aligned, at or past
/// the cursor, and less than one alignment past it.
pub proof fn lemma_align_up_bounds(x: int, a: int)
    requires
        x >= 0,
        is_power_of_two(a),
    ensures
        a > 0,
        align_up_spec(x, a) % a == 0,
        x <= align_up_spec(x, a) < x + a,
{
    reveal(is_pow2);
    let y = x + a - 1;
    assert(0 <= y % a < a) by (nonlinear_arith)
        requires
            a > 0,
    ;
    lemma_fundamental_div_mod(y, a);
    assert((y - y % a) % a == 0) by (nonlinear_arith)
        requires
            a > 0,
            y == a * (y / a) + y % a,
    ;
}

/// Every address that a run of allocations returns is aligned as asked,
/// lies at or past the cursor that the run started from, and leaves the
/// whole range inside the region; of two successful allocations the later
/// one starts at or after the end of the earlier one, so addresses never
/// decrease and ranges never overlap.
pub proof fn lemma_allocations_ordered(next: int, end: int, reqs: Seq<(nat, nat)>)
    requires
        0 <= next,
    ensures
        replay(next, end, reqs).len() == reqs.len(),
        forall|i: int|
            0 <= i < reqs.len() && (#[trigger] replay(next, end, reqs)[i]) is Some ==> {
                let a = replay(next, end, reqs)[i]->0;
                &&& a % (reqs[i].1 as int) == 0
                &&& next <= a
                &&& a + reqs[i].0 <= end
            },
        forall|i: int, j: int|
            0 <= i < j < reqs.len() && (#[trigger] replay(next, end, reqs)[i]) is Some && (
            #[trigger] replay(next, end, reqs)[j]) is Some ==> replay(next, end, reqs)[i]->0
                + reqs[i].0 <= replay(next, end, reqs)[j]->0,
    decreases reqs.len(),
{
    if reqs.len() > 0 {
        let (size, align) = reqs[0];
        let n1 = cursor_after(next, end, size as int, align as int);
        let tail = reqs.drop_first();
        let out = replay(next, end, reqs);
        let rest = replay(n1, end, tail);
        let first = alloc_outcome(next, end, size as int, align as int);
        if first is Some {
            lemma_align_up_bounds(next, align as int);
        }
        assert(n1 >= next);
        lemma_allocations_ordered(n1, end, tail);
        assert(out == seq![first] + rest);
        assert forall|i: int| 0 < i < reqs.len() implies #[trigger] out[i] == rest[i - 1]
            && reqs[i] == tail[i - 1] by {}
        assert forall|i: int|
            0 <= i < reqs.len() && (#[trigger] out[i]) is Some implies {
                let a = out[i]->0;
                &&& a % (reqs[i].1 as int) == 0
                &&& next <= a
                &&& a + reqs[i].0 <= end
            } by {
            if i > 0 {
                assert(out[i] == rest[i - 1]);
            }
        }
        assert forall|i: int, j: int|
            0 <= i < j < reqs.len() && (#[trigger] out[i]) is Some && (#[trigger] out[j]) is Some implies out[i]->0
                + reqs[i].0 <= out[j]->0 by {
            assert(out[j] == rest[j - 1]);
            if i > 0 {
                assert(out[i] == rest[i - 1]);
            }
        }
    }
}

/// A run of requests is decided by the region and the cursor alone: after a
/// reset, replaying a run returns exactly the addresses it returned from a
/// freshly set up region with the same bounds.
pub proof fn lemma_reset_replays(fresh: BumpAllocator, rewound: BumpAllocator, reqs: Seq<(nat, nat)>)
    requires
        fresh.wf(),
        rewound.wf(),
        fresh.region_start() == rewound.region_start(),
        fresh.region_end() == rewound.region_end(),
        fresh.cursor() == fresh.region_start(),
        rewound.cursor() == rewound.region_start(),
    ensures
        replay(rewound.cursor(), rewound.region_end(), reqs) == replay(
            fresh.cursor(),
            fresh.region_end(),
            reqs,
        ),
{
}

proof fn lemma_mask_is_power_of_two(a: usize)
    ensures
        (a != 0 && a & ((a - 1) as usize) == 0) <==> is_power_of_two(a as int),
    decreases a,
{
    reveal(is_pow2);
    if a == 0 {
    } else if a == 1 {
        assert(1usize & 0usize == 0) by (bit_vector);
    } else {
        let h: usize = a / 2;
        let m: usize = (a - 1) as usize;
        let hm: usize = (h - 1) as usize;
        lemma_mask_is_power_of_two(h);
        assert((a & m == 0) <==> (a % 2 == 0 && h & hm == 0)) by (bit_vector)
            requires
                a > 1,
                m == a - 1,
                h == a / 2,
                hm == h - 1,
        ;
    }
}

proof fn lemma_low_mask_is_mod(y: usize, a: usize)
    requires
        is_power_of_two(a as int),
    ensures
        a != 0,
        y & ((a - 1) as usize) == y % a,
    decreases a,
{
    reveal(is_pow2);
    if a == 1 {
        assert(y & 0usize == 0) by (bit_vector);
    } else {
        let h: usize = a / 2;
        let m: usize = (a - 1) as usize;
        let hm: usize = (h - 1) as usize;
        let y2: usize = y / 2;
        lemma_low_mask_is_mod(y2, h);
        assert(y & m == (y % 2) + 2 * (y2 & hm)) by (bit_vector)
            requires
                a == 2 * h,
                h >= 1,
                m == a - 1,
                hm == h - 1,
                y2 == y / 2,
        ;
        let yi = y as int;
        let hi = h as int;
        let q = y2 as int / hi;
        let r = y2 as int % hi;
        lemma_fundamental_div_mod(y2 as int, hi);
        assert(0 <= r < hi) by (nonlinear_arith)
            requires
                hi >= 1,
                r == y2 as int % hi,
        ;
        assert(yi == 2 * y2 + yi % 2);
        assert(yi == (2 * hi) * q + (2 * r + yi % 2)) by (nonlinear_arith)
            requires yi == 2 * y2 + yi % 2, y2 as int == hi * q + r;
        assert(yi % (2 * hi) == 2 * r + yi % 2) by (nonlinear_arith)
            requires yi == (2 * hi) * q + (2 * r + yi % 2), 0 <= r < hi, 0 <= yi % 2 < 2, q >= 0;
    }
}

proof fn lemma_mask_rounds_up(x: usize, a: usize, m: usize, y: usize)
    requires
        is_power_of_two(a as int),
        m == a - 1,
        y == x + m,
    ensures
        (y & !m) as int == align_up_spec(x as int, a as int),
{
    lemma_low_mask_is_mod(y, a);
    assert(y & !m == y - (y & m)) by (bit_vector);
}

/// `align` is a power of two.
fn is_valid_align(align: usize) -> (r: bool)
    ensures
        r == is_power_of_two(align as int),
        r ==> align != 0,
{
    proof {
        lemma_mask_is_power_of_two(align);
    }
    align != 0 && align & (align - 1) == 0
}

/// `addr` rounded up to a multiple of `align`, by masking off the low bits.
fn align_up(addr: usize, align: usize) -> (r: usize)
    requires
        is_power_of_two(align as int),
        !rounding_overflows(addr as int, align as int),
    ensures
        r == align_up_spec(addr as int, align as int),
{
    proof {
        lemma_mask_is_power_of_two(align);
    }
    let mask: usize = align - 1;
    let bumped: usize = addr + mask;
    proof {
        lemma_mask_rounds_up(addr, align, mask, bumped);
    }
    bumped & !mask
}

/// Hands out aligned, never-overlapping ranges of one region by advancing a
/// cursor; nothing is ever freed but all at once, by `reset`.
pub struct BumpAllocator {
    start: usize,
    end: usize,
    next: usize,
}

impl BumpAllocator {
    /// First address of the region.
    pub closed spec fn region_start(&self) -> int {
        self.start as int
    }

    /// First address past the region.
    pub closed spec fn region_end(&self) -> int {
        self.end as int
    }

    /// The cursor: where the next allocation starts looking.
    pub closed spec fn cursor(&self) -> int {
        self.next as int
    }

    /// The cursor lies inside the region.
    pub open spec fn wf(&self) -> bool {
        &&& 0 <= self.region_start() <= self.cursor() <= self.region_end()
        &&& self.region_end() <= usize::MAX
    }

    /// An allocator over the empty region at address 0.
    pub fn new() -> (r: Self)
        ensures
            r.wf(),
            r.region_start() == 0,
            r.region_end() == 0,
            r.cursor() == 0,
    {
        BumpAllocator { start: 0, end: 0, next: 0 }
    }

    /// Sets the region to `size` bytes from `start`, the end saturating at the
    /// top of the address space, and puts the cursor at its start.
    pub fn init(&mut self, start: usize, size: usize)
        ensures
            final(self).wf(),
            final(self).region_start() == start,
            final(self).region_end() == if start + size > usize::MAX {
                usize::MAX as int
            } else {
                start + size
            },
            final(self).cursor() == start,
    {
        self.start = start;
        self.end = start.saturating_add(size);
        self.next = start;
    }

    /// Allocates `size` bytes aligned to `align`: the cursor rounded up to
    /// `align`, after which the cursor moves to the end of the range. Fails,
    /// leaving the allocator as it was, where `align` is not a power of two,
    /// where the rounding overflows, or where the range would pass the end.
    pub fn allocate(&mut self, size: usize, align: usize) -> (r: Option<usize>)
        requires
            old(self).wf(),
        ensures
            final(self).wf(),
            final(self).region_start() == old(self).region_start(),
            final(self).region_end() == old(self).region_end(),
            r == match alloc_outcome(old(self).cursor(), old(self).region_end(), size as int, align as int) {
                Some(a) => Some(a as usize),
                None => None::<usize>,
            },
            final(self).cursor() == cursor_after(old(self).cursor(), old(self).region_end(), size as int, align as int),
            r is None ==> *final(self) == *old(self),
            !is_power_of_two(align as int) ==> r is None,
            size > old(self).region_end() - old(self).cursor() ==> r is None,
            r matches Some(a) ==> {
                &&& a % align == 0
                &&& old(self).cursor() <= a
                &&& a < old(self).cursor() + align
                &&& a + size <= old(self).region_end()
                &&& final(self).cursor() == a + size
            },
    {
        if !is_valid_align(align) {
            return None;
        }
        if self.next.checked_add(align - 1).is_none() {
            return None;
        }
        let aligned = align_up(self.next, align);
        proof {
            let x = self.next as int;
            let a = align as int;
            let y = x + a - 1;
            assert(y % a < a && y % a >= 0) by (nonlinear_arith) requires a > 0;
            assert((y - y % a) % a == 0) by (nonlinear_arith) requires a > 0, y >= 0;
        }
        let new_next = match aligned.checked_add(size) {
            Some(v) => v,
            None => return None,
        };
        if new_next > self.end {
            return None;
        }
        self.next = new_next;
        Some(aligned)
    }

    /// Puts the cursor back at the start of the region. Every range handed
    /// out before may be handed out again.
    pub fn reset(&mut self)
        requires
            old(self).wf(),
        ensures
            final(self).wf(),
            final(self).region_start() == old(self).region_start(),
            final(self).region_end() == old(self).region_end(),
            final(self).cursor() == old(self).region_start(),
    {
        self.next = self.start;
    }

    /// Bytes between the cursor and the end of the region.
    pub fn remaining(&self) -> (r: usize)
        requires
            self.wf(),
        ensures
            r == self.region_end() - self.cursor(),
    {
        self.end - self.next
    }

    /// First address of the region.
    pub fn start(&self) -> (r: usize)
        ensures
            r == self.region_start(),
    {
        self.start
    }

    /// First address past the region.
    pub fn end(&self) -> (r: usize)
        ensures
            r == self.region_end(),
    {
        self.end
    }

    /// The cursor.
    pub fn current(&self) -> (r: usize)
        ensures
            r == self.cursor(),
    {
        self.next
    }
}

} // verus!
