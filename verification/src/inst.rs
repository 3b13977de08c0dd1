use vstd::prelude::*;

verus! {

/// One bytecode instruction. Instructions are fixed-size and position
/// independent except for the indices into the constant pool carried by
/// `GetConst` and `GetStr`.
#[derive(Debug, Clone, Copy, PartialEq, Eq, Structural)]
pub enum Inst {
    /// No state change besides advancing the instruction pointer.
    Nop,
    /// Push the constant-pool cell at the given index onto the operand stack.
    GetConst(usize),
    /// Read a length-prefixed packed byte run starting at the given
    /// constant-pool index, allocate a heap object holding those bytes and
    /// push a handle to it.
    GetStr(usize),
    Add,
    Sub,
    Mul,
    Mod,
    Div,
    /// Move the top of the operand stack onto the variable stack.
    Var,
    /// Push the variable at the given relative depth below the top of the
    /// variable stack onto the operand stack.
    GetVar(usize),
    /// Discard the most recently pushed variable.
    EndVar,
}

} // verus!
