use vstd::prelude::*;
use crate::frame::PAGE_SIZE;

verus! {

/// Cores on the board.
pub const BOARD_CORE_NUMBER: usize = 1;

/// Start of normal memory.
pub const BOARD_NORMAL_MEMORY_START: usize = 0x4000_0000;

/// End of normal memory.
pub const BOARD_NORMAL_MEMORY_END: usize = 0x8000_0000;

/// Where a secondary core starts.
pub const BOARD_PHYSICAL_ENTRY: usize = 0x4008_0000;

/// Pages in each core's kernel stack.
pub const STACK_PAGE_NUM: usize = 128;

/// Bytes in each core's kernel stack.
pub const STACK_SIZE: usize = 0x8_0000;

/// A core's kernel stack, by its lowest address.
#[derive(Clone, Copy, Debug, PartialEq, Eq, Structural)]
pub struct Stack {
    pub bottom: usize,
}

impl Stack {
    /// The first address above the stack, where it starts to grow down.
    pub fn top(&self) -> (r: usize)
        requires
            self.bottom + STACK_SIZE <= usize::MAX,
        ensures
            r == self.bottom + STACK_PAGE_NUM * PAGE_SIZE,
            self.bottom % PAGE_SIZE == 0 ==> r % PAGE_SIZE == 0,
    {
        self.bottom + STACK_SIZE
    }
}

/// The stack of core `core_id`, the stacks lying one after another from
/// the page-aligned address `base`.
pub fn stack(base: usize, core_id: usize) -> (r: Stack)
    requires
        core_id < BOARD_CORE_NUMBER,
        base % PAGE_SIZE == 0,
        base + BOARD_CORE_NUMBER * STACK_SIZE <= usize::MAX,
    ensures
        r.bottom == base + core_id * STACK_SIZE,
        r.bottom % PAGE_SIZE == 0,
        r.bottom + STACK_SIZE <= usize::MAX,
{
    Stack { bottom: base + core_id * STACK_SIZE }
}

/// The cores that core `core_id` starts, in order: every other one.
pub fn launch_other_cores(core_id: usize) -> (r: Vec<usize>)
    ensures
        r@ == Seq::new(BOARD_CORE_NUMBER as nat, |i: int| i as usize).filter(|i: usize| i != core_id),
        forall|i: int| 0 <= i < r@.len() ==> r@[i] < BOARD_CORE_NUMBER && r@[i] != core_id,
        forall|c: usize| c < BOARD_CORE_NUMBER && c != core_id ==> r@.contains(c),
        r@.len() == if core_id < BOARD_CORE_NUMBER { BOARD_CORE_NUMBER - 1 } else { BOARD_CORE_NUMBER as int },
{
    let ghost all = Seq::new(BOARD_CORE_NUMBER as nat, |i: int| i as usize);
    let ghost pred = |i: usize| i != core_id;
    let mut out: Vec<usize> = Vec::new();
    let mut i: usize = 0;
    while i < BOARD_CORE_NUMBER
        invariant
            i <= BOARD_CORE_NUMBER,
            all == Seq::new(BOARD_CORE_NUMBER as nat, |i: int| i as usize),
            pred == (|i: usize| i != core_id),
            out@ == all.subrange(0, i as int).filter(pred),
            forall|k: int| 0 <= k < out@.len() ==> out@[k] < i && out@[k] != core_id,
            forall|c: usize| c < i && c != core_id ==> out@.contains(c),
            out@.len() == if core_id < i { i - 1 } else { i as int },
        decreases BOARD_CORE_NUMBER - i,
    {
        proof {
            reveal(Seq::filter);
            assert(all.subrange(0, i + 1).drop_last() =~= all.subrange(0, i as int));
            assert(all.subrange(0, i + 1).last() == i);
        }
        let ghost prev = out@;
        if i != core_id {
            out.push(i);
            proof {
                assert forall|c: usize| c < i + 1 && c != core_id implies out@.contains(c) by {
                    if c == i {
                        assert(out@[out@.len() - 1] == c);
                    } else {
                        let k = choose|k: int| 0 <= k < prev.len() && prev[k] == c;
                        assert(out@[k] == c);
                    }
                }
            }
        }
        i = i + 1;
    }
    assert(all.subrange(0, BOARD_CORE_NUMBER as int) =~= all);
    out
}

} // verus!
