//! The ways in which compiling or running a program can fail.

use vstd::prelude::*;
use crate::hex::HexError;
use crate::integer::IntError;

verus! {

/// A failure to compile a line of a program.
#[derive(Debug, Clone, Copy, PartialEq, Eq, Structural)]
pub enum CompileError {
    /// An operand is empty.
    EmptyOperand,
    /// An operand that starts like an integer literal is none.
    BadInt(IntError),
    /// A double quote stands at one end of an operand only.
    QuoteMismatch,
    /// Something follows the closing quote of a text literal.
    TrailingData,
    /// What follows `$0x` is not the hexadecimal image of bytes.
    BadHex(HexError),
    /// An operand starts with `__` and is none of the special tags.
    UnknownSpecial,
    /// What follows `__RANDOM__BYTES__` is no count.
    BadCount,
    /// A variable name does not start with a letter.
    BadName,
    /// The first word of the line is no operation.
    UnknownOp,
    /// The operation has fewer arguments than it needs.
    MissingArgs,
    /// The operation has more arguments than it takes.
    TooManyArgs,
    /// An option of `iobnew` is not of the form `key=value`.
    BadOption,
    /// The target of a conditional is introduced by neither `goto` nor
    /// `call`.
    BadBranch,
    /// The line starts with `!` and is no directive.
    UnknownDirective,
}

/// A failure while a program runs. None of them changes the machine.
#[derive(Debug, Clone, Copy, PartialEq, Eq, Structural)]
pub enum RuntimeError {
    /// A text that was to be read as an integer is none.
    BadInt(IntError),
    /// A buffer that was to be read as an integer is not one machine word
    /// long.
    BufLen,
    /// A negative integer stands where a size or a count is needed.
    Negative,
    /// The system clock shows a time before the Unix epoch.
    Clock,
    /// No variable of the needed kind has this name.
    UnknownVar,
    /// No label has this name.
    UnknownLabel,
    /// No function has this name.
    UnknownFunc,
    /// No I/O bridge is open under this name.
    UnknownBridge,
    /// No fuzz chain has this name.
    UnknownChain,
    /// `ret` met an empty call stack.
    EmptyCallStack,
    /// A call passes another number of arguments than the function takes.
    Arity,
    /// Division or remainder by zero.
    DivideByZero,
    /// Offsets or values that do not describe a range of the buffer.
    BadRange,
    /// The step counter stands at its last value and cannot move on.
    StepLimit,
}

/// Lifts the failure to read an integer from text.
pub open spec fn lift_int(r: Result<isize, IntError>) -> Result<isize, RuntimeError> {
    match r {
        Ok(i) => Ok(i),
        Err(e) => Err(RuntimeError::BadInt(e)),
    }
}

/// An integer as a size: negative ones are refused.
pub open spec fn as_size(r: Result<isize, RuntimeError>) -> Result<usize, RuntimeError> {
    match r {
        Ok(i) => if i < 0 {
            Err(RuntimeError::Negative)
        } else {
            Ok(i as usize)
        },
        Err(e) => Err(e),
    }
}

} // verus!
