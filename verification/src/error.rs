use vstd::prelude::*;

verus! {

/// The failure kinds of the toolchain. Lexical errors come from tokenizing,
/// structural errors from a production meeting a token it cannot start with,
/// and semantic errors from identifier resolution; the two capacity errors
/// report a counter reaching its machine limit.
#[derive(Debug, Clone, Copy, PartialEq, Eq, Structural)]
pub enum CompileError {
    /// A character that can begin no token.
    IllegalCharacter,
    /// A block comment with no closing delimiter.
    UnterminatedComment,
    /// A string literal with no closing quote on its line.
    UnterminatedString,
    /// An integer literal that does not fit in 16 bits.
    IntegerTooLarge,
    /// A token of the wrong classification or spelling for the production.
    UnexpectedToken,
    /// The token sequence ended inside a production.
    UnexpectedEnd,
    /// An identifier found in neither scope of the symbol table.
    UnresolvedIdentifier,
    /// A storage kind already holds the maximal number of records.
    TooManySymbols,
    /// The per-subroutine label counter reached its maximum.
    TooManyLoops,
    /// An argument list longer than a call instruction can count.
    TooManyArguments,
}

} // verus!
