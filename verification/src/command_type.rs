use vstd::prelude::*;

verus! {

/// The kinds of command of the VM language.
#[derive(Clone, Copy, Debug, PartialEq, Eq, Structural)]
pub enum CommandType {
    CArithmetic,
    CPush,
    CPop,
    CLabel,
    CGoto,
    CIf,
    CFunction,
    CCall,
    CReturn,
}

} // verus!
