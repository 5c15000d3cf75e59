use vstd::prelude::*;
use crate::descriptors::Selectors;
use crate::loader::LoadedProgram;

verus! {

/// Bit 1 of RFLAGS, which always reads as one.
pub const RFLAGS_RESERVED: u64 = 0x2;
/// The interrupt-enable flag of RFLAGS.
pub const RFLAGS_INTERRUPTS: u64 = 0x200;

/// The frame that the return from interrupt pops to enter user mode.
#[derive(Clone, Copy, Debug, PartialEq, Eq, Structural)]
pub struct UserEntryFrame {
    pub instruction_pointer: u64,
    pub code_segment: u64,
    pub cpu_flags: u64,
    pub stack_pointer: u64,
    pub stack_segment: u64,
}

/// The frame that starts `program` in user mode: its entry address and
/// stack top, the user code and data selectors, and interrupts enabled only
/// by the return itself, once the processor is at ring 3.
pub fn user_entry_frame(program: LoadedProgram, selectors: Selectors) -> (r: UserEntryFrame)
    ensures
        r.instruction_pointer == program.entry,
        r.stack_pointer == program.stack_top,
        r.code_segment == selectors.user_code,
        r.stack_segment == selectors.user_data,
        r.cpu_flags == RFLAGS_RESERVED | RFLAGS_INTERRUPTS,
{
    UserEntryFrame {
        instruction_pointer: program.entry,
        code_segment: selectors.user_code as u64,
        cpu_flags: RFLAGS_RESERVED | RFLAGS_INTERRUPTS,
        stack_pointer: program.stack_top,
        stack_segment: selectors.user_data as u64,
    }
}

} // verus!
