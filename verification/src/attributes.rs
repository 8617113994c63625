//! The attribute byte of a directory record.

use vstd::prelude::*;

verus! {

pub const ATTR_NONE: u8 = 0x00;

pub const ATTR_READONLY: u8 = 0x01;

pub const ATTR_HIDDEN: u8 = 0x02;

pub const ATTR_SYSTEM: u8 = 0x04;

pub const ATTR_DIRECTORY: u8 = 0x10;

pub const ATTR_ARCHIVE: u8 = 0x20;

pub const ATTR_DEVICE: u8 = 0x40;

pub const ATTR_NORMAL: u8 = 0x80;

/// The one bit of the attribute byte that names no attribute.
pub const ATTR_UNDEFINED: u8 = 0x08;

/// Whether every bit set in `byte` names an attribute.
pub open spec fn spec_known_bits(byte: u8) -> bool {
    byte & ATTR_UNDEFINED == 0
}

/// The attribute set a record's attribute byte stands for: the byte itself
/// where all its bits are known, and the empty set otherwise.
pub open spec fn spec_decode_attributes(byte: u8) -> u8 {
    if spec_known_bits(byte) {
        byte
    } else {
        ATTR_NONE
    }
}

/// Whether an attribute set holds the directory flag.
pub open spec fn spec_is_directory(bits: u8) -> bool {
    bits & ATTR_DIRECTORY != 0
}

/// A set of attributes, held as the bits of one byte.
#[derive(Debug, Clone, Copy, PartialEq, Eq, Structural)]
pub struct EntryAttributes {
    bits: u8,
}

impl View for EntryAttributes {
    type V = u8;

    closed spec fn view(&self) -> u8 {
        self.bits
    }
}

impl EntryAttributes {
    /// The empty set.
    pub fn none() -> (a: EntryAttributes)
        ensures
            a@ == ATTR_NONE,
    {
        EntryAttributes { bits: ATTR_NONE }
    }

    /// The set that holds the directory flag alone.
    pub fn directory() -> (a: EntryAttributes)
        ensures
            a@ == ATTR_DIRECTORY,
    {
        EntryAttributes { bits: ATTR_DIRECTORY }
    }

    /// The set with exactly the bits of `bits`, unless one of them names no
    /// attribute.
    pub fn from_bits(bits: u8) -> (r: Option<EntryAttributes>)
        ensures
            spec_known_bits(bits) ==> r.is_some() && r.unwrap()@ == bits,
            !spec_known_bits(bits) ==> r.is_none(),
    {
        if bits & ATTR_UNDEFINED == 0 {
            Some(EntryAttributes { bits })
        } else {
            None
        }
    }

    /// The set a record's attribute byte stands for; unknown bits give the
    /// empty set.
    pub fn decode(byte: u8) -> (a: EntryAttributes)
        ensures
            a@ == spec_decode_attributes(byte),
    {
        match EntryAttributes::from_bits(byte) {
            Some(a) => a,
            None => EntryAttributes::none(),
        }
    }

    /// The bits of the set.
    pub fn bits(&self) -> (b: u8)
        ensures
            b == self@,
    {
        self.bits
    }

    /// Whether the set is empty.
    pub fn is_empty(&self) -> (b: bool)
        ensures
            b == (self@ == ATTR_NONE),
    {
        self.bits == ATTR_NONE
    }

    /// Whether every attribute of `other` is in this set.
    pub fn contains(&self, other: EntryAttributes) -> (b: bool)
        ensures
            b == (self@ & other@ == other@),
    {
        self.bits & other.bits == other.bits
    }

    /// Whether the set holds the directory flag.
    pub fn is_directory(&self) -> (b: bool)
        ensures
            b == spec_is_directory(self@),
    {
        self.bits & ATTR_DIRECTORY != 0
    }
}

} // verus!
