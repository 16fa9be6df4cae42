//! Decoder for the Android Binary XML ("ABX") token-stream format, together
//! with an offset-based binary patcher that inserts or removes one attribute
//! node in the raw byte stream, using the byte ranges the decoder reports.

use vstd::prelude::*;

verus! {

/// Four-byte signature that every ABX stream must start with.
pub const PROTOCOL_MAGIC_VERSION_0: [u8; 4] = [0x41, 0x42, 0x58, 0x00];

// Command tokens (low nibble of a token byte).
pub const START_DOCUMENT: u8 = 0;
pub const END_DOCUMENT: u8 = 1;
pub const START_TAG: u8 = 2;
pub const END_TAG: u8 = 3;
pub const TEXT: u8 = 4;
pub const CDSECT: u8 = 5;
pub const ENTITY_REF: u8 = 6;
pub const IGNORABLE_WHITESPACE: u8 = 7;
pub const PROCESSING_INSTRUCTION: u8 = 8;
pub const COMMENT: u8 = 9;
pub const DOCDECL: u8 = 10;
pub const ATTRIBUTE: u8 = 15;

// Value-type tokens (high nibble of a token byte).
pub const TYPE_STRING: u8 = 2 << 4;
pub const TYPE_STRING_INTERNED: u8 = 3 << 4;
pub const TYPE_BYTES_HEX: u8 = 4 << 4;
pub const TYPE_BYTES_BASE64: u8 = 5 << 4;
pub const TYPE_INT: u8 = 6 << 4;
pub const TYPE_INT_HEX: u8 = 7 << 4;
pub const TYPE_LONG: u8 = 8 << 4;
pub const TYPE_LONG_HEX: u8 = 9 << 4;
pub const TYPE_FLOAT: u8 = 10 << 4;
pub const TYPE_DOUBLE: u8 = 11 << 4;
pub const TYPE_BOOLEAN_TRUE: u8 = 12 << 4;
pub const TYPE_BOOLEAN_FALSE: u8 = 13 << 4;

/// Error raised while parsing or converting an ABX stream.
#[derive(Debug, Clone)]
pub enum AbxError {
    /// An I/O failure reported by a caller that feeds bytes in.
    Io(String),
    /// The first four bytes of the stream were not the ABX signature.
    InvalidMagicHeader { expected: [u8; 4], actual: [u8; 4] },
    /// A fixed-width or length-prefixed field could not be read in full,
    /// or held invalid UTF-8; the payload names the field kind attempted.
    ReadError(String),
    /// A back-reference into the interned-string table was out of range.
    InvalidInternedStringIndex(u16),
    /// An attribute token carried a value-type nibble outside the known set.
    UnknownAttributeType(u8),
    /// A structural failure outside the token stream itself.
    ParseError(String),
}

/// Ghost mirror of `AbxError`, with string payloads as character sequences.
pub ghost enum GAbxError {
    Io(Seq<char>),
    InvalidMagicHeader { expected: Seq<u8>, actual: Seq<u8> },
    ReadError(Seq<char>),
    InvalidInternedStringIndex(u16),
    UnknownAttributeType(u8),
    ParseError(Seq<char>),
}

impl View for AbxError {
    type V = GAbxError;

    open spec fn view(&self) -> GAbxError {
        match self {
            AbxError::Io(s) => GAbxError::Io(s@),
            AbxError::InvalidMagicHeader { expected, actual } => GAbxError::InvalidMagicHeader {
                expected: expected@,
                actual: actual@,
            },
            AbxError::ReadError(s) => GAbxError::ReadError(s@),
            AbxError::InvalidInternedStringIndex(i) => GAbxError::InvalidInternedStringIndex(*i),
            AbxError::UnknownAttributeType(t) => GAbxError::UnknownAttributeType(*t),
            AbxError::ParseError(s) => GAbxError::ParseError(s@),
        }
    }
}

impl DeepView for AbxError {
    type V = GAbxError;

    open spec fn deep_view(&self) -> GAbxError {
        self.view()
    }
}

/// One decoded attribute, identified by name and by the exact byte range
/// `[start_offset, end_offset)` it occupied in the source stream.
#[derive(Debug)]
pub struct Policy {
    pub name: String,
    pub start_offset: u32,
    pub end_offset: u32,
}

impl Clone for Policy {
    fn clone(&self) -> (r: Self)
        ensures
            r@ == self@,
    {
        Policy {
            name: self.name.clone(),
            start_offset: self.start_offset,
            end_offset: self.end_offset,
        }
    }
}

/// Ghost mirror of `Policy`.
pub ghost struct GPolicy {
    pub name: Seq<char>,
    pub start_offset: u32,
    pub end_offset: u32,
}

impl View for Policy {
    type V = GPolicy;

    open spec fn view(&self) -> GPolicy {
        GPolicy { name: self.name@, start_offset: self.start_offset, end_offset: self.end_offset }
    }
}

impl DeepView for Policy {
    type V = GPolicy;

    open spec fn deep_view(&self) -> GPolicy {
        self.view()
    }
}

} // verus!

mod render;
mod data_input;
mod deserializer;
mod seekable_reader;
mod patcher;

pub use data_input::FastDataInput;
pub use deserializer::{BinaryXmlDeserializer, OutPiece, assemble_output};
pub use patcher::{PatchPlan, insert_policy_bytes, plan_patch, policy_to_bytes, remove_policy_bytes};
pub use render::encode_xml_entities;
pub use seekable_reader::SeekableReader;
