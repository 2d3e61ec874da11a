//! Why a program cannot be compiled.

use vstd::prelude::*;

verus! {

/// The kinds of failure of a compilation.
#[derive(Clone, Copy, Debug, PartialEq, Eq, Structural)]
pub enum ErrorKind {
    /// A name is bound in no scope and names no built-in operation.
    UnboundSymbol,
    /// What a call names is not a block.
    NotCallable,
    /// A property is asked of a value that has none of that name.
    InvalidPropertyAccess,
    /// What is invoked is no built-in operation, or the name of an
    /// event names none.
    UnknownNativeOperation,
    /// An operation got another number of arguments than it takes.
    ArityMismatch,
    /// An operation got a block or an operation as an argument.
    InvalidArgument,
    /// Blocks are entered more deeply than the compiler follows them.
    DepthExceeded,
    /// Every number of a namespace is taken.
    NamespaceExhausted,
}

/// A failure of a compilation: its kind, the name that it is about and
/// the number of scopes that were open where it happened.
#[derive(Debug, PartialEq, Eq)]
pub struct CompileError {
    pub kind: ErrorKind,
    pub symbol: String,
    pub scope: usize,
}

/// The mathematical content of a [`CompileError`].
pub ghost struct CompileErrorView {
    pub kind: ErrorKind,
    pub symbol: Seq<char>,
    pub scope: nat,
}

impl View for CompileError {
    type V = CompileErrorView;

    open spec fn view(&self) -> CompileErrorView {
        CompileErrorView { kind: self.kind, symbol: self.symbol@, scope: self.scope as nat }
    }
}

/// The failure of kind `kind` about `symbol` with `scope` scopes open.
pub open spec fn failure(kind: ErrorKind, symbol: Seq<char>, scope: nat) -> CompileErrorView {
    CompileErrorView { kind, symbol, scope }
}

impl CompileError {
    /// The failure of kind `kind` about `symbol` with `scope` scopes
    /// open.
    pub fn new(kind: ErrorKind, symbol: &String, scope: usize) -> (e: CompileError)
        ensures
            e@ == failure(kind, symbol@, scope as nat),
    {
        CompileError { kind, symbol: symbol.clone(), scope }
    }
}

} // verus!
