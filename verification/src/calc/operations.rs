use vstd::prelude::*;

verus! {

/// Addition, registered as `add`.
pub struct AddOperation;

/// Subtraction, registered as `sub`.
pub struct SubOperation;

/// Multiplication, registered as `mul`.
pub struct MulOperation;

/// Division, registered as `div`.
pub struct DivOperation;

impl AddOperation {
    pub fn name(&self) -> (s: &'static str)
        ensures
            s@ == "add"@,
    {
        "add"
    }
}

impl SubOperation {
    pub fn name(&self) -> (s: &'static str)
        ensures
            s@ == "sub"@,
    {
        "sub"
    }
}

impl MulOperation {
    pub fn name(&self) -> (s: &'static str)
        ensures
            s@ == "mul"@,
    {
        "mul"
    }
}

impl DivOperation {
    pub fn name(&self) -> (s: &'static str)
        ensures
            s@ == "div"@,
    {
        "div"
    }
}

} // verus!
