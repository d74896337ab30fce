use vstd::prelude::*;

use vstd::string::StringExecFns;

use crate::data::_type::Type;
use crate::num::be_val;
use crate::num::signed_val;
use crate::num::be_to_u128;
use crate::render::lossy_decoded;
use crate::render::spec_sdec;
use crate::render::spec_udec;
use crate::render::trim_zeros;
use crate::render::be_signed_to_decimal;
use crate::render::trimmed;
use crate::render::u128_to_decimal;
use crate::render::utf8_lossy;

verus! {

/// The raw, fixed-size, big-endian-encoded bytes of one field occurrence:
/// one variant per field [`Type`].  Integer variants hold exactly as many
/// bytes as their width; the text variant holds at most its field's declared
/// length (padding is added when a record is encoded); a boolean holds one
/// byte.
#[derive(Debug)]
pub enum Value {
    UInt8([u8; 1]),
    UInt16([u8; 2]),
    UInt32([u8; 4]),
    UInt64([u8; 8]),
    UInt128([u8; 16]),
    Int8([u8; 1]),
    Int16([u8; 2]),
    Int32([u8; 4]),
    Int64([u8; 8]),
    Int128([u8; 16]),
    String(Vec<u8>),
    Bool([u8; 1]),
}

impl Value {
    /// The raw bytes the value holds, unpadded.
    pub open spec fn spec_bytes(self) -> Seq<u8> {
        match self {
            Value::UInt8(b) => b@,
            Value::UInt16(b) => b@,
            Value::UInt32(b) => b@,
            Value::UInt64(b) => b@,
            Value::UInt128(b) => b@,
            Value::Int8(b) => b@,
            Value::Int16(b) => b@,
            Value::Int32(b) => b@,
            Value::Int64(b) => b@,
            Value::Int128(b) => b@,
            Value::String(b) => b@,
            Value::Bool(b) => b@,
        }
    }

    /// Whether the value's variant is the one for the given field type.
    pub open spec fn matches_type(self, t: Type) -> bool {
        match (self, t) {
            (Value::UInt8(_), Type::UInt8) => true,
            (Value::UInt16(_), Type::UInt16) => true,
            (Value::UInt32(_), Type::UInt32) => true,
            (Value::UInt64(_), Type::UInt64) => true,
            (Value::UInt128(_), Type::UInt128) => true,
            (Value::Int8(_), Type::Int8) => true,
            (Value::Int16(_), Type::Int16) => true,
            (Value::Int32(_), Type::Int32) => true,
            (Value::Int64(_), Type::Int64) => true,
            (Value::Int128(_), Type::Int128) => true,
            (Value::String(_), Type::String(_)) => true,
            (Value::Bool(_), Type::Bool) => true,
            _ => false,
        }
    }

    /// Whether the value can be laid out in a field of the given type: its
    /// variant matches, and a text value is no longer than the field's
    /// declared length.
    pub open spec fn fits_type(self, t: Type) -> bool {
        &&& self.matches_type(t)
        &&& match (self, t) {
            (Value::String(b), Type::String(length)) => b@.len() <= length,
            _ => true,
        }
    }

    /// The displayable form of the value: decimal for the integer variants
    /// (signed ones by their two's-complement reading), `true`/`false` for a
    /// boolean (any non-zero byte is true), and for text the bytes with
    /// trailing zero padding removed, decoded as UTF-8 with lossy
    /// replacement.
    pub open spec fn spec_render(self) -> Seq<char> {
        match self {
            Value::UInt8(b) => spec_udec(be_val(b@)),
            Value::UInt16(b) => spec_udec(be_val(b@)),
            Value::UInt32(b) => spec_udec(be_val(b@)),
            Value::UInt64(b) => spec_udec(be_val(b@)),
            Value::UInt128(b) => spec_udec(be_val(b@)),
            Value::Int8(b) => spec_sdec(signed_val(b@)),
            Value::Int16(b) => spec_sdec(signed_val(b@)),
            Value::Int32(b) => spec_sdec(signed_val(b@)),
            Value::Int64(b) => spec_sdec(signed_val(b@)),
            Value::Int128(b) => spec_sdec(signed_val(b@)),
            Value::String(b) => lossy_decoded(trim_zeros(b@)),
            Value::Bool(b) => if b@[0] != 0 {
                "true"@
            } else {
                "false"@
            },
        }
    }

    /// Tests whether the value's variant is the one for the given field
    /// type.
    pub fn matches(&self, t: &Type) -> (r: bool)
        ensures
            r == self.matches_type(*t),
    {
        match (self, t) {
            (Self::UInt8(_), Type::UInt8) => true,
            (Self::UInt16(_), Type::UInt16) => true,
            (Self::UInt32(_), Type::UInt32) => true,
            (Self::UInt64(_), Type::UInt64) => true,
            (Self::UInt128(_), Type::UInt128) => true,
            (Self::Int8(_), Type::Int8) => true,
            (Self::Int16(_), Type::Int16) => true,
            (Self::Int32(_), Type::Int32) => true,
            (Self::Int64(_), Type::Int64) => true,
            (Self::Int128(_), Type::Int128) => true,
            (Self::String(_), Type::String(_)) => true,
            (Self::Bool(_), Type::Bool) => true,
            _ => false,
        }
    }

    /// Tests whether the value can be laid out in a field of the given type.
    pub fn fits(&self, t: &Type) -> (r: bool)
        ensures
            r == self.fits_type(*t),
    {
        let m = self.matches(t);
        match (self, t) {
            (Self::String(b), Type::String(length)) => m && b.len() <= *length as usize,
            _ => m,
        }
    }

    /// Renders the value for display; every variant has a defined output.
    pub fn to_string(&self) -> (r: String)
        ensures
            r@ == self.spec_render(),
    {
        match self {
            Self::UInt8(bytes) => u128_to_decimal(be_to_u128(bytes.as_slice())),
            Self::UInt16(bytes) => u128_to_decimal(be_to_u128(bytes.as_slice())),
            Self::UInt32(bytes) => u128_to_decimal(be_to_u128(bytes.as_slice())),
            Self::UInt64(bytes) => u128_to_decimal(be_to_u128(bytes.as_slice())),
            Self::UInt128(bytes) => u128_to_decimal(be_to_u128(bytes.as_slice())),
            Self::Int8(bytes) => be_signed_to_decimal(bytes.as_slice()),
            Self::Int16(bytes) => be_signed_to_decimal(bytes.as_slice()),
            Self::Int32(bytes) => be_signed_to_decimal(bytes.as_slice()),
            Self::Int64(bytes) => be_signed_to_decimal(bytes.as_slice()),
            Self::Int128(bytes) => be_signed_to_decimal(bytes.as_slice()),
            Self::String(bytes) => utf8_lossy(trimmed(bytes.as_slice())),
            Self::Bool(bytes) => {
                if bytes[0] != 0 {
                    String::from_str("true")
                } else {
                    String::from_str("false")
                }
            },
        }
    }
}

} // verus!
