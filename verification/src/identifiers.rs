use vstd::prelude::*;

verus! {

/// The id under which a crate is registered.
#[derive(Debug, Clone, Copy, PartialEq, Eq, Structural)]
pub struct CrateId(pub u16);

/// The id of a print statement within its crate.
#[derive(Debug, Clone, Copy, PartialEq, Eq, Structural)]
pub struct PrintStatementId(pub u16);

/// The id of a write statement within its crate.
#[derive(Debug, Clone, Copy, PartialEq, Eq, Structural)]
pub struct WriteStatementId(pub u16);

impl CrateId {
    pub fn new(id: u16) -> (r: CrateId)
        ensures
            r.0 == id,
    {
        CrateId(id)
    }

    /// The number the id stands for.
    pub fn value(&self) -> (v: u16)
        ensures
            v == self.0,
    {
        self.0
    }
}

impl PrintStatementId {
    pub fn new(id: u16) -> (r: PrintStatementId)
        ensures
            r.0 == id,
    {
        PrintStatementId(id)
    }

    /// The number the id stands for.
    pub fn value(&self) -> (v: u16)
        ensures
            v == self.0,
    {
        self.0
    }
}

impl WriteStatementId {
    pub fn new(id: u16) -> (r: WriteStatementId)
        ensures
            r.0 == id,
    {
        WriteStatementId(id)
    }

    /// The number the id stands for.
    pub fn value(&self) -> (v: u16)
        ensures
            v == self.0,
    {
        self.0
    }
}

} // verus!
