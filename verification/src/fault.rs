use vstd::prelude::*;

verus! {

/// Why a program stops abnormally.
#[derive(Debug, PartialEq, Eq, Structural, Clone, Copy)]
pub enum Fault {
    /// A command, or the label or number it carries, runs past the end of the program.
    Truncated,
    /// The symbols from `start` to `end` (inclusive) begin no command.
    InvalidCommand { start: usize, end: usize },
    /// A number literal lacks its sign symbol.
    InvalidNumber,
    /// A result does not fit in `i32`.
    Overflow,
    /// A division or remainder by zero.
    DivisionByZero,
    /// A heap read at an address that was never written.
    UnknownAddress(i32),
    /// A jump or call names a label that does not occur in the program.
    LabelNotFound,
    /// A return with no call to return to.
    EmptyCallStack,
    /// A byte other than a digit, a sign or a separator while a number is read.
    NotANumber(u8),
}

} // verus!
