//! The part of a Cortex-M port that is plain arithmetic: the first stack
//! frame of a task, laid out so that the context-switch trap's register
//! restore followed by an exception return enters the task's function.
use vstd::prelude::*;

verus! {

/// Program status word with only the Thumb bit set
pub const INITIAL_XPSR: u32 = 0x0100_0000;

/// Exception return value: thread mode, process stack, no floating-point
/// context
pub const EXC_RETURN_THREAD_PSP: u32 = 0xFFFF_FFFD;

/// Words in the initial frame: the nine the trap restores (R4-R11 and the
/// exception return value) and the eight the hardware restores
pub const FRAME_WORDS: usize = 17;

/// The initial frame, lowest address first: R4-R11 with recognisable
/// patterns, the exception return value, then the hardware frame R0 (the
/// argument), R1-R3, R12, LR (where a returning task goes), PC (the task
/// function) and xPSR.
pub open spec fn frame_words(entry: u32, exit: u32, arg: u32) -> Seq<u32> {
    seq![
        0x0404_0404u32, 0x0505_0505u32, 0x0606_0606u32, 0x0707_0707u32,
        0x0808_0808u32, 0x0909_0909u32, 0x1010_1010u32, 0x1111_1111u32,
        EXC_RETURN_THREAD_PSP,
        arg, 0x0101_0101u32, 0x0202_0202u32, 0x0303_0303u32, 0x1212_1212u32,
        exit, entry, INITIAL_XPSR,
    ]
}

/// The end of a stack rounded down to the eight-byte alignment that an
/// exception frame needs.
pub open spec fn aligned_top(stack_end: u32) -> int {
    stack_end - stack_end % 8
}

/// A task's initial stack image: `words[k]` belongs at address
/// `stack_ptr + 4 * k`, and `stack_ptr` is what the kernel stores for the
/// task.
pub struct StackFrame {
    pub stack_ptr: u32,
    pub words: Vec<u32>,
}

/// Lay out the first frame of a task whose stack ends (exclusive) at
/// `stack_end`, that runs `entry` with `arg` and falls into `exit` if
/// `entry` returns.
pub fn initial_stack_frame(stack_end: u32, entry: u32, exit: u32, arg: u32) -> (r: StackFrame)
    requires
        aligned_top(stack_end) >= 4 * FRAME_WORDS,
    ensures
        r.stack_ptr == aligned_top(stack_end) - 4 * FRAME_WORDS,
        r.stack_ptr % 8 == 4,
        r.words@ == frame_words(entry, exit, arg),
{
    let top = stack_end & 0xFFFF_FFF8u32;
    assert(stack_end & 0xFFFF_FFF8u32 == stack_end - stack_end % 8) by (bit_vector);
    let mut words: Vec<u32> = Vec::new();
    words.push(0x0404_0404);
    words.push(0x0505_0505);
    words.push(0x0606_0606);
    words.push(0x0707_0707);
    words.push(0x0808_0808);
    words.push(0x0909_0909);
    words.push(0x1010_1010);
    words.push(0x1111_1111);
    words.push(EXC_RETURN_THREAD_PSP);
    words.push(arg);
    words.push(0x0101_0101);
    words.push(0x0202_0202);
    words.push(0x0303_0303);
    words.push(0x1212_1212);
    words.push(exit);
    words.push(entry);
    words.push(INITIAL_XPSR);
    assert(words@ =~= frame_words(entry, exit, arg));
    StackFrame { stack_ptr: top - 4 * (FRAME_WORDS as u32), words }
}

} // verus!
