use vstd::prelude::*;

verus! {

/// Errors of the virtual machine.
///
/// The machine validates every operand before it mutates anything beyond the
/// pops themselves; the first error aborts the run.
#[derive(Debug, Clone, PartialEq)]
pub enum VmError {
    /// A pop was attempted on an empty operand stack.
    StackUnderflow,
    /// A popped value had the wrong variant for the opcode.
    StackTypeMismatch,
    /// A variable getter found no binding under the requested name.
    VariableNotFound,
    /// A type-checked variable getter found a binding of the wrong kind.
    VariableTypeMismatch,
    /// A computed jump target is not representable or out of bounds.
    JumpRangeError,
    /// An instruction argument payload does not match what its opcode expects.
    ArgShapeError,
    /// An opaque failure surfaced from the controller.
    ControllerError(String),
}

} // verus!
