//! String interning and symbol classification for a BibTeX engine.
//!
//! Byte strings are interned into a [`pool::StringPool`], which hands out
//! stable string numbers, and are found again through a
//! [`hash::HashData`] table keyed by content and by usage tag.
use vstd::prelude::*;

pub mod bootstrap;
pub mod cite;
pub mod entries;
pub mod hash;
pub mod other;
pub mod pool;
pub mod symbols;
pub mod xbuf;

verus! {

use crate::xbuf::SafelyZero;

/// One byte of input text.
pub type ASCIICode = u8;

/// Index of a byte in the string arena.
pub type PoolPointer = usize;

/// Number of an interned string; `0` stands for "no string".
pub type StrNumber = usize;

/// Index of a slot of the hash table; `0` stands for "no slot".
pub type HashPointer = usize;

/// Index of a slot of the hash table, as the citation lists keep it.
pub type HashPointer2 = usize;

/// Number of a citation.
pub type CiteNumber = i32;

/// Index of a byte in an input buffer.
pub type BufPointer = usize;

/// What a string was interned for. The same bytes under two tags are two entries.
#[derive(Clone, Copy, Debug, PartialEq, Eq, Structural)]
pub enum StrIlk {
    /// A plain text literal.
    Text,
    /// An integer literal.
    Integer,
    /// A command of an auxiliary file.
    AuxCommand,
    /// The name of an auxiliary file.
    AuxFile,
    /// A command of a style file.
    BstCommand,
    /// The name of a style file.
    BstFile,
    /// The name of a database file.
    BibFile,
    /// A file extension.
    FileExt,
    /// A citation key as written.
    Cite,
    /// A citation key in lower case.
    LcCite,
    /// The name of a style function.
    BstFn,
    /// A command of a database file.
    BibCommand,
    /// The name of a macro.
    Macro,
    /// A control sequence.
    ControlSeq,
}

impl SafelyZero for StrIlk {
    open spec fn zero_value() -> StrIlk {
        StrIlk::Text
    }

    fn zero() -> (z: StrIlk) {
        StrIlk::Text
    }
}

/// Where a lookup ended.
#[derive(Clone, Copy, Debug, PartialEq, Eq, Structural)]
pub struct LookupRes {
    /// The slot that holds the entry, or the last slot of its chain if there is no such entry.
    pub loc: HashPointer,
    /// Whether the entry was found.
    pub exists: bool,
}

/// Where a citation key was found, as written and in lower case.
#[derive(Clone, Copy, Debug, PartialEq, Eq, Structural)]
pub struct FindCiteLocs {
    /// The slot of the key as written, or the end of its chain.
    pub cite_loc: HashPointer,
    /// Whether the key as written is an entry.
    pub cite_found: bool,
    /// The slot of the key in lower case, or the end of its chain.
    pub lc_cite_loc: HashPointer,
    /// Whether the key in lower case is an entry.
    pub lc_found: bool,
}

/// A capacity that cannot grow is used up; the run has to stop.
#[derive(Clone, Copy, Debug, PartialEq, Eq, Structural)]
pub enum BibtexError {
    /// Every string number is taken.
    StringOverflow,
    /// No slot is left to chain a colliding entry to.
    HashOverflow,
}

impl BibtexError {
    /// The name of the capacity that is used up.
    pub fn resource(&self) -> (name: &'static str)
        ensures
            name@ == match self {
                BibtexError::StringOverflow => "number of strings"@,
                BibtexError::HashOverflow => "hash size"@,
            },
    {
        match self {
            BibtexError::StringOverflow => "number of strings",
            BibtexError::HashOverflow => "hash size",
        }
    }

    /// The size of the capacity that is used up.
    pub fn limit(&self) -> (limit: usize)
        ensures
            limit == match self {
                BibtexError::StringOverflow => crate::pool::MAX_STRINGS,
                BibtexError::HashOverflow => crate::hash::HASH_SIZE,
            },
    {
        match self {
            BibtexError::StringOverflow => crate::pool::MAX_STRINGS,
            BibtexError::HashOverflow => crate::hash::HASH_SIZE,
        }
    }
}

} // verus!
