//! Why the front end rejects a program.
use crate::lexer::LexError;
use crate::span::Span;
use vstd::prelude::*;

verus! {

/// A diagnostic: the reason a source program is rejected, with the location involved.
#[derive(Debug, Clone, Copy)]
pub enum CompileError {
    /// The lexer rejected the input.
    Lex(LexError),
    /// A different token was required; `at` is the span of the token found.
    ExpectedToken { at: Span },
    /// An identifier was required; `at` is the span of the token found.
    ExpectedIdent { at: Span },
    /// A top-level item (`fn`, `global` or `struct`) was required.
    ExpectedItem { at: Span },
    /// A function needs a return type or its body next.
    ExpectedReturnTypeOrBody { at: Span },
    /// An expression cannot start with this token.
    ExpectedExpression { at: Span },
    /// This token has an infix binding power but no infix form (`&&`, `||`).
    ExpectedInfixOperator { at: Span },
    /// Two spans of different files cannot be merged.
    SpanFileMismatch { at: Span },
    /// A name names no type.
    UnknownType { at: Span },
    /// A name names no variable or function.
    UndefinedVariable { at: Span },
    /// A declaration without a value needs a type.
    UntypedDeclaration { at: Span },
    /// The two types that a construct needs to agree do not.
    TypeMismatch { at: Span },
    /// `break` or `continue` outside any loop.
    NotInLoop { at: Span },
    /// A `return` whose value does not have the function's return type.
    ReturnTypeMismatch { at: Span },
    /// This expression cannot be assigned to or have its address taken.
    InvalidLvalue { at: Span },
    /// Dereferencing or indexing something that is no pointer.
    NotAPointer { at: Span },
    /// Indexing with something that is no integer.
    NonIntegerIndex { at: Span },
    /// A numeric literal that does not fit, or cannot be, its type.
    BadLiteral { at: Span },
    /// `!` applied to a non-boolean, or `-` to an unsigned or non-integer value.
    BadUnaryOperand { at: Span },
    /// A binary operator applied to operand types it does not accept.
    UnsupportedOperation { at: Span },
    /// Calling something that is neither a function nor a pointer to one.
    NotCallable { at: Span },
    /// An argument whose type is not the parameter's type.
    ArgumentMismatch { at: Span },
    /// A construct that the compiler does not support yet.
    Unsupported { at: Span },
    /// A function that needs more symbols, or nests loops more deeply, than a `usize` counts.
    LimitExceeded { at: Span },
    /// Code generation does not lower this construct: a unary operator, pointer subtraction,
    /// a value of struct type, or a name with no storage.
    NotLowered,
    /// A `break` or `continue` reached code generation outside any loop.
    JumpOutsideLoop,
    /// A function with a return type has a path that returns no value; `at` is its name.
    MissingReturn { at: Span },
}

} // verus!
