use vstd::prelude::*;

use crate::error::Error;

verus! {

/// The thirteen tag kinds of the wire format, in discriminant order.
#[derive(Debug, Clone, Copy, PartialEq, Eq, Structural)]
pub enum NBTKind {
    End,
    Byte,
    Short,
    Int,
    Long,
    Float,
    Double,
    ByteArray,
    String,
    List,
    Compound,
    IntArray,
    LongArray,
}

/// The one-byte wire discriminant of a kind.
pub open spec fn kind_byte(k: NBTKind) -> u8 {
    match k {
        NBTKind::End => 0,
        NBTKind::Byte => 1,
        NBTKind::Short => 2,
        NBTKind::Int => 3,
        NBTKind::Long => 4,
        NBTKind::Float => 5,
        NBTKind::Double => 6,
        NBTKind::ByteArray => 7,
        NBTKind::String => 8,
        NBTKind::List => 9,
        NBTKind::Compound => 10,
        NBTKind::IntArray => 11,
        NBTKind::LongArray => 12,
    }
}

/// The kind a wire byte stands for; bytes outside 0..=12 stand for no kind.
pub open spec fn kind_of_byte(b: u8) -> Option<NBTKind> {
    if b == 0 {
        Some(NBTKind::End)
    } else if b == 1 {
        Some(NBTKind::Byte)
    } else if b == 2 {
        Some(NBTKind::Short)
    } else if b == 3 {
        Some(NBTKind::Int)
    } else if b == 4 {
        Some(NBTKind::Long)
    } else if b == 5 {
        Some(NBTKind::Float)
    } else if b == 6 {
        Some(NBTKind::Double)
    } else if b == 7 {
        Some(NBTKind::ByteArray)
    } else if b == 8 {
        Some(NBTKind::String)
    } else if b == 9 {
        Some(NBTKind::List)
    } else if b == 10 {
        Some(NBTKind::Compound)
    } else if b == 11 {
        Some(NBTKind::IntArray)
    } else if b == 12 {
        Some(NBTKind::LongArray)
    } else {
        None
    }
}

impl NBTKind {
    /// The discriminant written on the wire ahead of this kind's payload.
    pub fn header_byte(&self) -> (r: u8)
        ensures
            r == kind_byte(*self),
    {
        match self {
            NBTKind::End => 0,
            NBTKind::Byte => 1,
            NBTKind::Short => 2,
            NBTKind::Int => 3,
            NBTKind::Long => 4,
            NBTKind::Float => 5,
            NBTKind::Double => 6,
            NBTKind::ByteArray => 7,
            NBTKind::String => 8,
            NBTKind::List => 9,
            NBTKind::Compound => 10,
            NBTKind::IntArray => 11,
            NBTKind::LongArray => 12,
        }
    }

    /// Converts a wire byte back to a kind; fails for the bytes 13..=255,
    /// which name no kind.
    pub fn from_byte(b: u8) -> (r: Result<NBTKind, Error>)
        ensures
            r is Ok <==> kind_of_byte(b) is Some,
            r is Ok ==> Some(r->Ok_0) == kind_of_byte(b),
            r is Err ==> r->Err_0 == Error::InvalidTagId,
    {
        match b {
            0 => Ok(NBTKind::End),
            1 => Ok(NBTKind::Byte),
            2 => Ok(NBTKind::Short),
            3 => Ok(NBTKind::Int),
            4 => Ok(NBTKind::Long),
            5 => Ok(NBTKind::Float),
            6 => Ok(NBTKind::Double),
            7 => Ok(NBTKind::ByteArray),
            8 => Ok(NBTKind::String),
            9 => Ok(NBTKind::List),
            10 => Ok(NBTKind::Compound),
            11 => Ok(NBTKind::IntArray),
            12 => Ok(NBTKind::LongArray),
            _ => Err(Error::InvalidTagId),
        }
    }
}

/// The discriminant mapping is total and bijective over the bytes 0..=12:
/// every kind's byte maps back to that kind, every byte at most 12 names
/// exactly the kind whose byte it is, and every byte above 12 names none.
pub proof fn lemma_kind_byte_bijective()
    ensures
        forall|k: NBTKind| kind_of_byte(kind_byte(k)) == Some(k),
        forall|b: u8| b <= 12 ==> (#[trigger] kind_of_byte(b) matches Some(k) && kind_byte(k)
            == b),
        forall|b: u8| b > 12 ==> kind_of_byte(b) is None,
{
}

} // verus!
