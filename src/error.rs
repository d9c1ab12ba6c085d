use vstd::prelude::*;

verus! {

/// Every way in which running a program can fail. Each one is fatal: the
/// first error stops execution.
#[derive(Debug, Clone, Copy, PartialEq, Eq, Structural)]
pub enum VmError {
    /// A value was popped from an empty operand stack.
    StackUnderflow,
    /// A depth-relative index fell outside the current stack.
    AddressOutOfRange,
    /// An immediate operand ran past the end of the program, or `DROP_N`
    /// was given a negative count.
    MalformedProgram,
    /// `DIV` or `MOD` with a right operand of zero.
    DivideByZero,
    /// The opcode byte matches no instruction.
    UnknownOpcode,
    /// The result was asked for while the stack was empty.
    EmptyResult,
}

} // verus!
