//! The assembler's single error type: a cause tag plus the offending text.
use vstd::prelude::*;

verus! {

/// Cause of an assembly failure.
#[derive(Clone, Copy, Debug, PartialEq, Eq, Structural)]
pub enum AsmErrorKind {
    /// The line matches no recognized instruction form.
    Unrecognized,
    /// The instruction does not have the number of registers its opcode needs.
    OperandCount,
    /// An immediate lies outside the range of its bit field.
    ImmRange,
    /// A numeric or character literal is malformed.
    BadLiteral,
    /// A label reference appeared where none is accepted.
    LabelNotAllowed,
    /// No immediate operand could be found.
    NoImmediate,
    /// A label reference has no matching definition.
    UnresolvedLabel,
    /// The same label name is defined twice.
    DuplicateLabel,
    /// A `.space` directive lists more values than it declares.
    SpaceTooLong,
    /// The expanded program has more lines than an address can index.
    TooLarge,
}

/// An assembly failure: the cause and the text it arose from.
#[derive(Debug)]
pub struct AsmError {
    pub kind: AsmErrorKind,
    pub detail: String,
}

impl AsmError {
    pub fn new(kind: AsmErrorKind, detail: &str) -> (r: AsmError)
        ensures
            r.kind == kind,
            r.detail@ == detail@,
    {
        AsmError { kind, detail: String::from_str(detail) }
    }
}

} // verus!
