use vstd::prelude::*;

use crate::kind::NBTKind;

verus! {

/// Everything a decode or encode call can fail with. Every failure is fatal
/// to the call that raised it; no partial value is ever returned beside one.
#[derive(Debug, Clone, Copy, PartialEq, Eq, Structural)]
pub enum Error {
    /// The input ended in the middle of a tag.
    Eof,
    /// The top-level tag of the stream is not a compound.
    ExpectedRootCompound,
    /// A kind byte outside 0..=12 was read where a kind was required.
    InvalidTagId,
    /// A tag of the first kind was found where the second kind was required.
    MismatchedTag(NBTKind, NBTKind),
    /// A byte payload other than 0 or 1 was read into a boolean target;
    /// carries the offending value.
    ExpectedBooleanByte(i8),
    /// The value has no representation on the wire.
    Unrepresentable,
    /// A string payload or name is not valid UTF-8.
    InvalidUtf8,
    /// The tree nests deeper than the engine's recursion bound.
    MaxDepthExceeded,
    /// The underlying byte source failed, for instance while decompressing.
    Io,
}

impl Error {
    /// A short description of the failure.
    pub fn message(&self) -> (r: &'static str)
        ensures
            r@.len() > 0,
    {
        let m: &'static str = match self {
            Error::Eof => "unexpected end of input",
            Error::ExpectedRootCompound => "expected a root compound tag",
            Error::InvalidTagId => "unknown tag kind byte",
            Error::MismatchedTag(_, _) => "tag kind does not match the requested target",
            Error::ExpectedBooleanByte(_) => "expected a boolean byte of 0 or 1",
            Error::Unrepresentable => "value has no wire representation",
            Error::InvalidUtf8 => "string payload is not valid UTF-8",
            Error::MaxDepthExceeded => "tag tree nests too deeply",
            Error::Io => "underlying byte source failed",
        };
        proof {
            reveal_strlit("unexpected end of input");
            reveal_strlit("expected a root compound tag");
            reveal_strlit("unknown tag kind byte");
            reveal_strlit("tag kind does not match the requested target");
            reveal_strlit("expected a boolean byte of 0 or 1");
            reveal_strlit("value has no wire representation");
            reveal_strlit("string payload is not valid UTF-8");
            reveal_strlit("tag tree nests too deeply");
            reveal_strlit("underlying byte source failed");
        }
        m
    }
}

} // verus!
