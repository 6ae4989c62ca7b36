//! Why a line, a configuration entry or a literal is refused.

use vstd::prelude::*;

verus! {

/// A line that cannot be split into tokens.
#[derive(Debug, Copy, Clone, PartialEq, Eq, Hash, Structural)]
pub enum SyntaxError {
    /// A token opened with `"` and the line ended before the closing `"`.
    UnterminatedQuote,
    /// A `\` followed by nothing, or by a character other than
    /// `n`, `r`, `t`, `"`, `\` and `0`.
    InvalidEscapeSequence,
}

/// Tokens that name no instruction.
#[derive(Debug, Copy, Clone, PartialEq, Eq, Hash, Structural)]
pub enum ResolutionError {
    /// The first token is not the name of an operation.
    UnknownOpcode,
    /// The operation takes another number of operands than the line gives.
    WrongOperandCount,
    /// An operand that should be a number is not one, or does not fit.
    InvalidOperand,
}

/// Why a source line stands for no instruction.
#[derive(Debug, Copy, Clone, PartialEq, Eq, Hash, Structural)]
pub enum CommandError {
    /// The line cannot be split into tokens.
    Syntax(SyntaxError),
    /// The tokens of the line name no instruction.
    Resolution(ResolutionError),
}

/// An entry of the color configuration that cannot be applied.
#[derive(Debug, Copy, Clone, PartialEq, Eq, Hash, Structural)]
pub enum ConfigError {
    /// The entry names an operation that carries a payload; such an operation
    /// never has a color of its own.
    PayloadOverride,
    /// The entry names no operation.
    UnknownOpcode,
    /// The value is not a color written as three or six hexadecimal digits.
    MalformedColor,
}

/// Why no pixels were produced for a literal.
#[derive(Debug, Copy, Clone, PartialEq, Eq, Hash, Structural)]
pub enum AllocationError {
    /// The magnitude asked for is negative or above what one pixel can carry.
    OutOfRange,
    /// Every color tried for the magnitude is taken by an operation, and no
    /// further detour is allowed.
    Exhausted,
}

} // verus!
