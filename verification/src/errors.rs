//! The error kinds a command can raise.

use vstd::prelude::*;

verus! {

/// Every way a single command character can fail.
///
/// All kinds but `InputDecodeFailure` are non-fatal: the evaluation loop
/// reports them on the diagnostic sink and goes on with the next character.
/// `RadixTooLarge` is special: the interpreter reports it as a warning
/// diagnostic instead of returning it.
#[derive(Clone, Copy, Debug, PartialEq, Eq, Structural)]
pub enum CalcError {
    /// A pop or peek on an empty stack.
    EmptyStack,
    /// An indexed access `n` positions below the top of a stack that holds
    /// `n` elements or fewer.
    InsufficientDepth(usize),
    /// A peek on a register that has never been created.
    RegisterNotSet(char),
    /// A pop or peek on a register whose stack is empty.
    RegisterUnderflow(char),
    /// A second decimal point inside one numeric literal.
    MultipleDecimalPoints,
    /// An attempt to set the input radix above the maximum of 16.
    RadixTooLarge,
    /// A command that needs a following character (a register key, a help
    /// subject) reached the end of the input instead; carries the command.
    MissingOperand(char),
    /// A character that is neither part of a literal nor a known command.
    UnknownCommand(char),
    /// The character source itself failed to produce a character.
    InputDecodeFailure,
}

} // verus!
