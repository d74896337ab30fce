use vstd::prelude::*;

verus! {

/// The type of one schema field: a fixed-width integer, a fixed-length text
/// field (the `u16` is its length in bytes), or a single boolean flag.
#[derive(Clone, Copy, Debug)]
pub enum Type {
    UInt8,
    UInt16,
    UInt32,
    UInt64,
    UInt128,
    Int8,
    Int16,
    Int32,
    Int64,
    Int128,
    String(u16),
    Bool,
}

impl Type {
    /// The field's width in bits, as the schema accounts for it.  A boolean
    /// counts as one bit here even though it occupies a whole byte on disk.
    pub open spec fn spec_size_in_bits(self) -> int {
        match self {
            Type::UInt8 => 8,
            Type::UInt16 => 16,
            Type::UInt32 => 32,
            Type::UInt64 => 64,
            Type::UInt128 => 128,
            Type::Int8 => 8,
            Type::Int16 => 16,
            Type::Int32 => 32,
            Type::Int64 => 64,
            Type::Int128 => 128,
            Type::String(length) => (length as int) * 8,
            Type::Bool => 1,
        }
    }

    /// The number of bytes one value of this type occupies in a record.
    /// Every field takes a whole number of bytes; a boolean takes one byte.
    pub open spec fn spec_size_in_bytes(self) -> int {
        match self {
            Type::UInt8 => 1,
            Type::UInt16 => 2,
            Type::UInt32 => 4,
            Type::UInt64 => 8,
            Type::UInt128 => 16,
            Type::Int8 => 1,
            Type::Int16 => 2,
            Type::Int32 => 4,
            Type::Int64 => 8,
            Type::Int128 => 16,
            Type::String(length) => length as int,
            Type::Bool => 1,
        }
    }

    pub fn size_in_bits(&self) -> (r: u64)
        ensures
            r == self.spec_size_in_bits(),
    {
        match self {
            Self::UInt8 => 8,
            Self::UInt16 => 16,
            Self::UInt32 => 32,
            Self::UInt64 => 64,
            Self::UInt128 => 128,
            Self::Int8 => 8,
            Self::Int16 => 16,
            Self::Int32 => 32,
            Self::Int64 => 64,
            Self::Int128 => 128,
            Self::String(length) => (*length as u64) * 8,
            Self::Bool => 1,
        }
    }

    pub fn size_in_bytes(&self) -> (r: u64)
        ensures
            r == self.spec_size_in_bytes(),
    {
        match self {
            Self::UInt8 => 1,
            Self::UInt16 => 2,
            Self::UInt32 => 4,
            Self::UInt64 => 8,
            Self::UInt128 => 16,
            Self::Int8 => 1,
            Self::Int16 => 2,
            Self::Int32 => 4,
            Self::Int64 => 8,
            Self::Int128 => 16,
            Self::String(length) => *length as u64,
            Self::Bool => 1,
        }
    }
}

/// A field never occupies more bytes than the bits the schema accounts for
/// it, so a byte total is bounded by the corresponding bit total.
pub proof fn lemma_bytes_le_bits(t: Type)
    ensures
        t.spec_size_in_bytes() <= t.spec_size_in_bits(),
{
}

} // verus!
