use vstd::prelude::*;

use crate::pointer_width::PointerWidth;

verus! {

/// The level a print statement was logged at.
#[derive(Debug, Clone, Copy, PartialEq, Eq, Structural)]
pub enum Level {
    Trace,
    Debug,
    Info,
    Warn,
    Error,
}

/// The first byte of a frame.
///
/// Bit layout, from least significant: bit 0 tells whether a stamp follows;
/// bits 1 and 2 hold the pointer width of the writer (0: 16, 1: 32, 2: 64
/// bits); bits 3 to 5 hold the level (0: none, then trace, debug, info,
/// warn, error); bits 6 and 7 are zero.
#[derive(Debug, Clone, Copy, PartialEq, Eq, Structural)]
pub struct Header {
    pub stamp: bool,
    pub pointer_width: PointerWidth,
    pub level: Option<Level>,
}

/// The two-bit code of a pointer width in a header byte.
pub open spec fn pointer_width_code(width: PointerWidth) -> u8 {
    match width {
        PointerWidth::U16 => 0,
        PointerWidth::U32 => 1,
        PointerWidth::U64 => 2,
    }
}

/// The three-bit code of a level in a header byte.
pub open spec fn level_code(level: Option<Level>) -> u8 {
    match level {
        None => 0,
        Some(Level::Trace) => 1,
        Some(Level::Debug) => 2,
        Some(Level::Info) => 3,
        Some(Level::Warn) => 4,
        Some(Level::Error) => 5,
    }
}

/// The byte that a header is written as.
pub open spec fn header_bits(header: Header) -> u8 {
    ((if header.stamp { 1int } else { 0int }) + 2 * pointer_width_code(header.pointer_width) + 8
        * level_code(header.level)) as u8
}

/// The header a received byte stands for; `None` where unknown bits are set.
pub open spec fn header_from_bits(bits: u8) -> Option<Header> {
    let stamp = bits % 2 == 1;
    let width_code = (bits / 2) % 4;
    let level_bits = (bits / 8) % 8;
    if bits >= 64 || width_code == 3 || level_bits > 5 {
        None
    } else {
        Some(
            Header {
                stamp,
                pointer_width: if width_code == 0 {
                    PointerWidth::U16
                } else if width_code == 1 {
                    PointerWidth::U32
                } else {
                    PointerWidth::U64
                },
                level: if level_bits == 0 {
                    None
                } else if level_bits == 1 {
                    Some(Level::Trace)
                } else if level_bits == 2 {
                    Some(Level::Debug)
                } else if level_bits == 3 {
                    Some(Level::Info)
                } else if level_bits == 4 {
                    Some(Level::Warn)
                } else {
                    Some(Level::Error)
                },
            },
        )
    }
}

impl Header {
    /// The header that a writer on this target sends.
    pub fn new(stamp: bool, level: Option<Level>) -> (header: Header)
        ensures
            header == (Header { stamp, pointer_width: PointerWidth::spec_of_target(), level }),
    {
        Header { stamp, pointer_width: PointerWidth::of_target(), level }
    }

    /// The byte this header is written as.
    pub fn bits(&self) -> (bits: u8)
        ensures
            bits == header_bits(*self),
    {
        let stamp: u8 = if self.stamp { 1 } else { 0 };
        let width: u8 = match self.pointer_width {
            PointerWidth::U16 => 0,
            PointerWidth::U32 => 1,
            PointerWidth::U64 => 2,
        };
        let level: u8 = match self.level {
            None => 0,
            Some(Level::Trace) => 1,
            Some(Level::Debug) => 2,
            Some(Level::Info) => 3,
            Some(Level::Warn) => 4,
            Some(Level::Error) => 5,
        };
        stamp + 2 * width + 8 * level
    }

    /// Reads a header byte; `None` where bits are set that no header uses.
    pub fn from_bits(bits: u8) -> (header: Option<Header>)
        ensures
            header == header_from_bits(bits),
    {
        let stamp = bits % 2 == 1;
        let width_code = (bits / 2) % 4;
        let level_bits = (bits / 8) % 8;
        if bits >= 64 || width_code == 3 || level_bits > 5 {
            return None;
        }
        let pointer_width = if width_code == 0 {
            PointerWidth::U16
        } else if width_code == 1 {
            PointerWidth::U32
        } else {
            PointerWidth::U64
        };
        let level = if level_bits == 0 {
            None
        } else if level_bits == 1 {
            Some(Level::Trace)
        } else if level_bits == 2 {
            Some(Level::Debug)
        } else if level_bits == 3 {
            Some(Level::Info)
        } else if level_bits == 4 {
            Some(Level::Warn)
        } else {
            Some(Level::Error)
        };
        Some(Header { stamp, pointer_width, level })
    }

    /// Whether a stamp follows the header.
    pub fn has_stamp(&self) -> (b: bool)
        ensures
            b == self.stamp,
    {
        self.stamp
    }
}

/// Reading back the byte a header is written as gives the header, and a
/// byte that reads as a header is the byte that header is written as.
pub proof fn lemma_header_bits_roundtrip(header: Header, bits: u8)
    ensures
        header_from_bits(header_bits(header)) == Some(header),
        header_from_bits(bits) == Some(header) ==> header_bits(header) == bits,
{
}

} // verus!
