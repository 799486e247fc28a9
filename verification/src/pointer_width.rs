use vstd::prelude::*;

verus! {

/// The width of `usize` and `isize` on the target that wrote a frame.
#[derive(Debug, Clone, Copy, PartialEq, Eq, Structural)]
pub enum PointerWidth {
    U16,
    U32,
    U64,
}

impl PointerWidth {
    /// The number of bytes a `usize` takes with this width.
    pub open spec fn spec_size(self) -> nat {
        match self {
            PointerWidth::U16 => 2,
            PointerWidth::U32 => 4,
            PointerWidth::U64 => 8,
        }
    }

    /// The pointer width of the machine this code runs on.
    pub open spec fn spec_of_target() -> PointerWidth {
        if usize::BITS == 64 {
            PointerWidth::U64
        } else if usize::BITS == 32 {
            PointerWidth::U32
        } else {
            PointerWidth::U16
        }
    }

    /// The pointer width of the machine this code runs on.
    pub fn of_target() -> (width: PointerWidth)
        ensures
            width == Self::spec_of_target(),
            width.spec_size() * 8 == usize::BITS,
    {
        if usize::BITS == 64 {
            PointerWidth::U64
        } else if usize::BITS == 32 {
            PointerWidth::U32
        } else {
            PointerWidth::U16
        }
    }

    /// The number of bytes a `usize` takes with this width.
    pub fn size(&self) -> (n: usize)
        ensures
            n == self.spec_size(),
    {
        match self {
            PointerWidth::U16 => 2,
            PointerWidth::U32 => 4,
            PointerWidth::U64 => 8,
        }
    }
}

} // verus!
