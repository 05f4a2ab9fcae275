//! Stack manager for kernel tasks: a small fixed pool of stacks for task
//! contexts.
//!
//! The pool is `MAX_STACKS` stacks of `STACK_SIZE` bytes laid end to end.
//! Stack `i` occupies bytes `i * STACK_SIZE .. (i + 1) * STACK_SIZE` of the
//! pool; since stacks grow down, it is handed out as its top, the offset
//! `(i + 1) * STACK_SIZE` from the start of the pool. The manager keeps the
//! record of which stacks are in use; the pool's memory is its owner's.
use vstd::prelude::*;

verus! {

/// Number of stacks in the pool.
pub const MAX_STACKS: usize = 8;

/// Size in bytes of one stack (16 KiB).
pub const STACK_SIZE: usize = 16 * 1024;

/// The top of stack `slot`, as an offset from the start of the pool.
pub open spec fn stack_top(slot: int) -> int {
    (slot + 1) * STACK_SIZE
}

/// Whether `top` is the top of one of the pool's stacks.
pub open spec fn is_stack_top(top: int) -> bool {
    &&& top % (STACK_SIZE as int) == 0
    &&& STACK_SIZE <= top <= MAX_STACKS * STACK_SIZE
}

/// The stack whose top is `top`.
pub open spec fn slot_of_top(top: int) -> int {
    top / (STACK_SIZE as int) - 1
}

/// Whether `slot` is the first free stack in `in_use`.
pub open spec fn is_first_free(in_use: Seq<bool>, slot: int) -> bool {
    &&& 0 <= slot < in_use.len()
    &&& !in_use[slot]
    &&& forall|j: int| 0 <= j < slot ==> #[trigger] in_use[j]
}

/// The first free stack in `in_use`, if any.
pub open spec fn first_free(in_use: Seq<bool>) -> Option<int> {
    if exists|slot: int| is_first_free(in_use, slot) {
        Some(choose|slot: int| is_first_free(in_use, slot))
    } else {
        None
    }
}

/// At most one stack is the first free one.
pub proof fn lemma_first_free_unique(in_use: Seq<bool>, a: int, b: int)
    requires
        is_first_free(in_use, a),
        is_first_free(in_use, b),
    ensures
        a == b,
{
    if a < b {
        assert(in_use[a]);
    } else if b < a {
        assert(in_use[b]);
    }
}

/// What `allocate_stack` does to the record `in_use`: the top of the stack
/// it hands out, if any, and the record afterwards.
pub open spec fn allocate_step(in_use: Seq<bool>) -> (Option<int>, Seq<bool>) {
    match first_free(in_use) {
        Some(slot) => (Some(stack_top(slot)), in_use.update(slot, true)),
        None => (None, in_use),
    }
}

/// What `deallocate_stack(top)` does to the record `in_use`: whether a
/// stack was freed, and the record afterwards.
pub open spec fn free_step(in_use: Seq<bool>, top: int) -> (bool, Seq<bool>) {
    let freed = is_stack_top(top) && in_use[slot_of_top(top)];
    (
        freed,
        if freed {
            in_use.update(slot_of_top(top), false)
        } else {
            in_use
        },
    )
}

/// A call on the stack manager: an allocation, or giving back the stack
/// with the given top.
#[derive(Clone, Copy, Debug)]
pub enum StackRequest {
    Allocate,
    Free(usize),
}

/// The record after serving `requests` in order, starting from `in_use`.
pub open spec fn after_requests(in_use: Seq<bool>, requests: Seq<StackRequest>) -> Seq<bool>
    decreases requests.len(),
{
    if requests.len() == 0 {
        in_use
    } else {
        let before = after_requests(in_use, requests.drop_last());
        match requests.last() {
            StackRequest::Allocate => allocate_step(before).1,
            StackRequest::Free(top) => free_step(before, top as int).1,
        }
    }
}

/// Whether some allocation among `requests`, served in order from
/// `in_use`, hands out the stack with top `top`.
pub open spec fn hands_out(in_use: Seq<bool>, requests: Seq<StackRequest>, top: int) -> bool
    decreases requests.len(),
{
    if requests.len() == 0 {
        false
    } else {
        ||| hands_out(in_use, requests.drop_last(), top)
        ||| (requests.last() is Allocate && allocate_step(
            after_requests(in_use, requests.drop_last()),
        ).0 == Some(top))
    }
}

/// The allocation record of the pool of task stacks.
pub struct StackManager {
    in_use: [bool; 8],
}

impl View for StackManager {
    type V = Seq<bool>;

    /// For each stack, in pool order, whether it is handed out.
    closed spec fn view(&self) -> Seq<bool> {
        self.in_use@
    }
}

impl StackManager {
    /// Start with every stack of the pool free.
    pub fn init() -> (manager: Self)
        ensures
            manager@ == Seq::new(MAX_STACKS as nat, |i: int| false),
    {
        let manager = StackManager { in_use: [false; 8] };
        assert(manager@ =~= Seq::new(MAX_STACKS as nat, |i: int| false));
        manager
    }

    /// The record covers exactly `MAX_STACKS` stacks.
    pub proof fn lemma_len(&self)
        ensures
            self@.len() == MAX_STACKS,
    {
    }

    /// Allocate a stack and return its top (stacks grow down), as an offset
    /// from the start of the pool. Returns `None` if no stacks are
    /// available. The first free stack is taken.
    pub fn allocate_stack(&mut self) -> (top: Option<usize>)
        ensures
            match top {
                Some(top) => {
                    &&& first_free(old(self)@) is Some
                    &&& top == stack_top(first_free(old(self)@).unwrap())
                    &&& final(self)@ == old(self)@.update(first_free(old(self)@).unwrap(), true)
                },
                None => {
                    &&& first_free(old(self)@) is None
                    &&& forall|i: int| 0 <= i < MAX_STACKS ==> #[trigger] old(self)@[i]
                    &&& final(self)@ == old(self)@
                },
            },
            allocate_step(old(self)@).0 == match top {
                Some(top) => Some(top as int),
                None => None::<int>,
            },
            allocate_step(old(self)@).1 == final(self)@,
    {
        let mut i: usize = 0;
        while i < MAX_STACKS
            invariant
                0 <= i <= MAX_STACKS,
                self@ == old(self)@,
                forall|j: int| 0 <= j < i ==> #[trigger] self@[j],
            decreases MAX_STACKS - i,
        {
            if !self.in_use[i] {
                proof {
                    assert(is_first_free(self@, i as int));
                    let chosen = choose|slot: int| is_first_free(self@, slot);
                    lemma_first_free_unique(self@, i as int, chosen);
                }
                self.in_use[i] = true;
                return Some((i + 1) * STACK_SIZE);
            }
            i = i + 1;
        }
        assert(first_free(self@) is None) by {
            if exists|slot: int| is_first_free(self@, slot) {
                let slot = choose|slot: int| is_first_free(self@, slot);
                assert(self@[slot]);
            }
        }
        None
    }

    /// Give back the stack whose top is `top_offset`. Returns `true` when
    /// that stack was handed out and is now free; the caller then zeroes its
    /// memory. Returns `false`, changing nothing, when `top_offset` is not
    /// the top of a stack of the pool or that stack is already free.
    pub fn deallocate_stack(&mut self, top_offset: usize) -> (freed: bool)
        ensures
            freed == (is_stack_top(top_offset as int) && old(self)@[slot_of_top(
                top_offset as int,
            )]),
            final(self)@ == if freed {
                old(self)@.update(slot_of_top(top_offset as int), false)
            } else {
                old(self)@
            },
            free_step(old(self)@, top_offset as int) == (freed, final(self)@),
    {
        let mut i: usize = 0;
        while i < MAX_STACKS
            invariant
                0 <= i <= MAX_STACKS,
                self@ == old(self)@,
                forall|j: int| 0 <= j < i ==> #[trigger] stack_top(j) != top_offset,
            decreases MAX_STACKS - i,
        {
            if (i + 1) * STACK_SIZE == top_offset {
                assert(is_stack_top(top_offset as int) && slot_of_top(top_offset as int) == i);
                if self.in_use[i] {
                    self.in_use[i] = false;
                    return true;
                } else {
                    return false;
                }
            }
            assert(stack_top(i as int) != top_offset);
            i = i + 1;
        }
        assert(!is_stack_top(top_offset as int)) by {
            if is_stack_top(top_offset as int) {
                let k = top_offset as int / 16384;
                assert(top_offset as int == k * 16384);
                assert(stack_top(k - 1) == top_offset);
            }
        }
        false
    }
}


/// The top of every stack of the pool is recognised as that stack's top.
pub proof fn lemma_stack_top_round_trip(slot: int)
    requires
        0 <= slot < MAX_STACKS,
    ensures
        is_stack_top(stack_top(slot)),
        slot_of_top(stack_top(slot)) == slot,
{
}

/// Giving back the stack that was just handed out succeeds and restores the
/// record as it was before the allocation.
pub proof fn lemma_free_after_allocate(in_use: Seq<bool>)
    requires
        in_use.len() == MAX_STACKS,
        first_free(in_use) is Some,
    ensures
        ({
            let slot = first_free(in_use).unwrap();
            let after = in_use.update(slot, true);
            &&& is_stack_top(stack_top(slot))
            &&& after[slot_of_top(stack_top(slot))]
            &&& after.update(slot_of_top(stack_top(slot)), false) == in_use
        }),
{
    let slot = first_free(in_use).unwrap();
    assert(is_first_free(in_use, slot));
    lemma_stack_top_round_trip(slot);
    assert(in_use.update(slot, true).update(slot, false) =~= in_use);
}

/// A stack that is handed out is not handed out again before it is given
/// back: the next allocation picks another stack, or none.
pub proof fn lemma_allocations_distinct(in_use: Seq<bool>)
    requires
        first_free(in_use) is Some,
    ensures
        ({
            let slot = first_free(in_use).unwrap();
            let after = in_use.update(slot, true);
            first_free(after) is Some ==> first_free(after).unwrap() != slot
        }),
{
    let slot = first_free(in_use).unwrap();
    assert(is_first_free(in_use, slot));
    let after = in_use.update(slot, true);
    if first_free(after) is Some {
        assert(is_first_free(after, first_free(after).unwrap()));
    }
}

/// When every stack is in use there is none to hand out.
pub proof fn lemma_full_pool_has_no_free(in_use: Seq<bool>)
    requires
        forall|i: int| 0 <= i < in_use.len() ==> #[trigger] in_use[i],
    ensures
        first_free(in_use) is None,
{
    if exists|slot: int| is_first_free(in_use, slot) {
        let slot = choose|slot: int| is_first_free(in_use, slot);
        assert(in_use[slot]);
    }
}

/// A top is the top of the stack it names.
proof fn lemma_top_of_slot(top: int)
    requires
        is_stack_top(top),
    ensures
        0 <= slot_of_top(top) < MAX_STACKS,
        stack_top(slot_of_top(top)) == top,
{
    let k = top / 16384;
    assert(top == k * 16384);
}

/// Two different stack tops belong to stacks whose bytes do not overlap:
/// stack `top` occupies `top - STACK_SIZE .. top`.
pub proof fn lemma_distinct_stacks_disjoint(p: int, q: int)
    requires
        is_stack_top(p),
        is_stack_top(q),
        p != q,
    ensures
        p <= q - STACK_SIZE || q <= p - STACK_SIZE,
{
    lemma_top_of_slot(p);
    lemma_top_of_slot(q);
}

/// A stack that is in use and is not given back stays in use, whatever
/// other allocations and frees are served meanwhile, and no allocation
/// among them hands it out again.
pub proof fn lemma_in_use_never_handed_out_again(
    in_use: Seq<bool>,
    requests: Seq<StackRequest>,
    slot: int,
)
    requires
        in_use.len() == MAX_STACKS,
        0 <= slot < MAX_STACKS,
        in_use[slot],
        forall|i: int|
            0 <= i < requests.len() ==> #[trigger] requests[i] != StackRequest::Free(
                stack_top(slot) as usize,
            ),
    ensures
        after_requests(in_use, requests).len() == MAX_STACKS,
        after_requests(in_use, requests)[slot],
        !hands_out(in_use, requests, stack_top(slot)),
    decreases requests.len(),
{
    if requests.len() > 0 {
        let rest = requests.drop_last();
        assert forall|i: int| 0 <= i < rest.len() implies #[trigger] rest[i] != StackRequest::Free(
            stack_top(slot) as usize,
        ) by {
            assert(rest[i] == requests[i]);
        }
        lemma_in_use_never_handed_out_again(in_use, rest, slot);
        let before = after_requests(in_use, rest);
        let last = requests.last();
        assert(last == requests[requests.len() - 1]);
        match last {
            StackRequest::Allocate => {
                if first_free(before) is Some {
                    let k = first_free(before).unwrap();
                    assert(is_first_free(before, k));
                    assert(k != slot);
                }
            },
            StackRequest::Free(top) => {
                if is_stack_top(top as int) {
                    lemma_top_of_slot(top as int);
                    assert(slot_of_top(top as int) != slot);
                }
            },
        }
    }
}

} // verus!
