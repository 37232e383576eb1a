//! The four-valued nucleotide alphabet and its numeric and ASCII codecs.

use vstd::prelude::*;

use crate::Error;

verus! {

/// A nucleotide base, bound to a fixed 2-bit numeric code:
/// `C = 0b00`, `A = 0b01`, `T = 0b10`, `G = 0b11`.
#[derive(Debug, Clone, Copy, PartialEq, Eq, Structural)]
pub enum Base {
    /// Cytosine.
    C,
    /// Adenine.
    A,
    /// Thymine.
    T,
    /// Guanine.
    G,
}

/// The numeric code of a base.
pub open spec fn code_spec(b: Base) -> u64 {
    match b {
        Base::C => 0,
        Base::A => 1,
        Base::T => 2,
        Base::G => 3,
    }
}

/// The base with the given numeric code; codes outside `0..=3` are read
/// modulo nothing — only the values `0..=3` are meaningful.
pub open spec fn base_from_code(c: u64) -> Base {
    if c == 0 {
        Base::C
    } else if c == 1 {
        Base::A
    } else if c == 2 {
        Base::T
    } else {
        Base::G
    }
}

/// The base recognized for an ASCII byte, or `None`.
pub open spec fn ascii_to_base(value: u8) -> Option<Base> {
    if value == 67 || value == 99 {
        Some(Base::C)
    } else if value == 65 || value == 97 {
        Some(Base::A)
    } else if value == 84 || value == 116 {
        Some(Base::T)
    } else if value == 71 || value == 103 {
        Some(Base::G)
    } else {
        None
    }
}

/// The ASCII letter of a base, upper case.
pub open spec fn base_to_ascii(b: Base) -> u8 {
    match b {
        Base::C => 67,
        Base::A => 65,
        Base::T => 84,
        Base::G => 71,
    }
}

/// The numeric codec round-trips: decoding a 2-bit code and encoding it
/// again is the identity.
pub proof fn lemma_code_round(v: u64)
    requires
        v < 4,
    ensures
        code_spec(base_from_code(v)) == v,
{
}

impl Base {
    /// The 2-bit numeric code of this base.
    pub fn to_code(self) -> (r: u8)
        ensures
            r == code_spec(self),
            r < 4,
    {
        match self {
            Base::C => 0,
            Base::A => 1,
            Base::T => 2,
            Base::G => 3,
        }
    }

    /// Converts a numeric code to a base without a range test.
    ///
    /// The caller must have established that the code is in `0..4`, as is the
    /// case for any 2-bit group read out of a window's own storage.
    pub fn from_u8_unchecked(value: u8) -> (r: Base)
        requires
            value < 4,
        ensures
            r == base_from_code(value as u64),
            code_spec(r) == value,
    {
        if value == 0 {
            Base::C
        } else if value == 1 {
            Base::A
        } else if value == 2 {
            Base::T
        } else {
            Base::G
        }
    }

    /// Converts a numeric code to a base, rejecting codes outside `0..=3`.
    pub fn from_code(value: u8) -> (r: Result<Base, Error>)
        ensures
            value < 4 ==> r == Ok::<Base, Error>(base_from_code(value as u64)),
            value >= 4 ==> r == Err::<Base, Error>(Error::OutOfRange),
    {
        if value < 4 {
            Ok(Base::from_u8_unchecked(value))
        } else {
            Err(Error::OutOfRange)
        }
    }

    /// The ASCII letter of this base, upper case: the textual codec
    /// round-trips through `from_ascii`.
    pub fn to_ascii(self) -> (r: u8)
        ensures
            r == base_to_ascii(self),
            ascii_to_base(r) == Some(self),
    {
        match self {
            Base::C => 67,
            Base::A => 65,
            Base::T => 84,
            Base::G => 71,
        }
    }

    /// Converts an ASCII character to a base.
    ///
    /// Recognizes exactly `C/c`, `A/a`, `T/t`, `G/g`; every other byte yields
    /// `None`.
    pub fn from_ascii(value: u8) -> (r: Option<Base>)
        ensures
            r == ascii_to_base(value),
    {
        if value == 67 || value == 99 {
            Some(Base::C)
        } else if value == 65 || value == 97 {
            Some(Base::A)
        } else if value == 84 || value == 116 {
            Some(Base::T)
        } else if value == 71 || value == 103 {
            Some(Base::G)
        } else {
            None
        }
    }
}

} // verus!
