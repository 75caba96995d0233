//! The type registry: the fixed mapping from the numeric type identifiers
//! found in a log header to primitive type tags, together with the intrinsic
//! byte width of each tag, and the error type of the decoder.

use vstd::prelude::*;

verus! {

/// Primitive type of one logged variable, as resolved from the numeric type
/// identifier stored in the file header.
#[derive(Clone, Copy, Debug, PartialEq, Eq, Structural)]
pub enum TypeTag {
    Int8,
    UInt8,
    Int16,
    UInt16,
    Int32,
    UInt32,
    Int64,
    UInt64,
    Float32,
    Float64,
    BitField,
    UnsignedBitField,
    Bool,
}

/// The fixed identifier table: identifiers 1, 2, 4..15 and 17 are assigned;
/// 3 and 16 are reserved and resolve to nothing.  Identifiers 8 and 14 both
/// name a 64-bit signed integer, 9 and 15 both a 64-bit unsigned one.
pub open spec fn tag_of_ident(ident: u32) -> Option<TypeTag> {
    if ident == 1 {
        Some(TypeTag::Int8)
    } else if ident == 2 {
        Some(TypeTag::UInt8)
    } else if ident == 4 {
        Some(TypeTag::Int16)
    } else if ident == 5 {
        Some(TypeTag::UInt16)
    } else if ident == 6 {
        Some(TypeTag::Int32)
    } else if ident == 7 {
        Some(TypeTag::UInt32)
    } else if ident == 8 {
        Some(TypeTag::Int64)
    } else if ident == 9 {
        Some(TypeTag::UInt64)
    } else if ident == 10 {
        Some(TypeTag::Float32)
    } else if ident == 11 {
        Some(TypeTag::Float64)
    } else if ident == 12 {
        Some(TypeTag::BitField)
    } else if ident == 13 {
        Some(TypeTag::UnsignedBitField)
    } else if ident == 14 {
        Some(TypeTag::Int64)
    } else if ident == 15 {
        Some(TypeTag::UInt64)
    } else if ident == 17 {
        Some(TypeTag::Bool)
    } else {
        None
    }
}

/// Intrinsic byte width of a field of the given tag inside a row.  For the
/// two bit-field tags the width in a file is the declared byte width clamped
/// to 4; rows holding bit-fields are not decodable here, so for them this
/// returns the clamp ceiling and is never used to advance the cursor.
pub open spec fn width_of(tag: TypeTag) -> int {
    match tag {
        TypeTag::Int8 => 1,
        TypeTag::UInt8 => 1,
        TypeTag::Bool => 1,
        TypeTag::Int16 => 2,
        TypeTag::UInt16 => 2,
        TypeTag::Int32 => 4,
        TypeTag::UInt32 => 4,
        TypeTag::Float32 => 4,
        TypeTag::Int64 => 8,
        TypeTag::UInt64 => 8,
        TypeTag::Float64 => 8,
        TypeTag::BitField => 4,
        TypeTag::UnsignedBitField => 4,
    }
}

/// The tags whose row fields this decoder can turn into a 64-bit float
/// sample.  The multi-byte integer tags and the bit-field tags are recognized
/// in headers but deliberately rejected during row decoding: silently
/// mis-sizing one field would corrupt every field after it.
pub open spec fn supported(tag: TypeTag) -> bool {
    match tag {
        TypeTag::Int8 => true,
        TypeTag::UInt8 => true,
        TypeTag::Bool => true,
        TypeTag::Float32 => true,
        TypeTag::Float64 => true,
        _ => false,
    }
}

/// Why a decode failed, together with the byte offset (the start of the field
/// being read) at which the problem was detected.
#[derive(Clone, Copy, Debug, PartialEq, Eq, Structural)]
pub enum DecodeError {
    /// The header region ended before everything it declared was read.
    TruncatedHeader { offset: usize },
    /// A descriptor's type identifier is not in the fixed registry.
    UnknownType { offset: usize },
    /// A row field needs more bytes than remain, discovered mid-row.
    TruncatedRow { offset: usize },
    /// A recognized tag that row decoding does not support.
    UnsupportedType { offset: usize },
    /// A name or unit byte span is not valid UTF-8 text.
    InvalidText { offset: usize },
}

/// Mathematical image of a [`DecodeError`]: the same five kinds over
/// unbounded offsets, used by the specification-level parser.
pub enum ErrModel {
    TruncatedHeader(int),
    UnknownType(int),
    TruncatedRow(int),
    UnsupportedType(int),
    InvalidText(int),
}

impl View for DecodeError {
    type V = ErrModel;

    open spec fn view(&self) -> ErrModel {
        match *self {
            DecodeError::TruncatedHeader { offset } => ErrModel::TruncatedHeader(offset as int),
            DecodeError::UnknownType { offset } => ErrModel::UnknownType(offset as int),
            DecodeError::TruncatedRow { offset } => ErrModel::TruncatedRow(offset as int),
            DecodeError::UnsupportedType { offset } => ErrModel::UnsupportedType(offset as int),
            DecodeError::InvalidText { offset } => ErrModel::InvalidText(offset as int),
        }
    }
}

impl DecodeError {
    /// The byte offset at which the error was detected.
    pub fn offset(&self) -> (o: usize)
        ensures
            self@ == ErrModel::TruncatedHeader(o as int) || self@ == ErrModel::UnknownType(
                o as int,
            ) || self@ == ErrModel::TruncatedRow(o as int) || self@ == ErrModel::UnsupportedType(
                o as int,
            ) || self@ == ErrModel::InvalidText(o as int),
    {
        match *self {
            DecodeError::TruncatedHeader { offset } => offset,
            DecodeError::UnknownType { offset } => offset,
            DecodeError::TruncatedRow { offset } => offset,
            DecodeError::UnsupportedType { offset } => offset,
            DecodeError::InvalidText { offset } => offset,
        }
    }
}

/// One registry entry as a value: a numeric type identifier paired with the
/// C-style type name it stands for in the emitting tool.
pub struct TrickVar {
    pub ident: u32,
    pub c_type: String,
}

/// The type registry as a value, so that lookups can be injected where the
/// caller wants an explicit collaborator rather than a free function.  It is
/// stateless: every instance answers exactly per [`tag_of_ident`].
pub struct TrickVarDefs {}

impl Default for TrickVarDefs {
    fn default() -> (r: Self) {
        TrickVarDefs {  }
    }
}

impl TrickVarDefs {
    /// Resolve a numeric type identifier against the fixed table.
    pub fn lookup(&self, ident: u32) -> (r: Option<TypeTag>)
        ensures
            r == tag_of_ident(ident),
    {
        lookup_ident(ident)
    }

    /// The C-style type name the identifier stood for in the emitting tool,
    /// for diagnostics; assigned exactly for the identifiers the registry
    /// resolves.
    pub fn c_type_name(&self, ident: u32) -> (r: Option<&'static str>)
        ensures
            r is Some <==> tag_of_ident(ident) is Some,
    {
        match ident {
            1 => Some("char"),
            2 => Some("unsigned char"),
            4 => Some("short"),
            5 => Some("unsigned short"),
            6 => Some("int"),
            7 => Some("unsigned int"),
            8 => Some("long"),
            9 => Some("unsigned long"),
            10 => Some("float"),
            11 => Some("double"),
            12 => Some("bit field"),
            13 => Some("unsigned bit field"),
            14 => Some("long long"),
            15 => Some("unsigned long long"),
            17 => Some("bool"),
            _ => None,
        }
    }
}

/// Resolve a numeric type identifier against the fixed table.
pub fn lookup_ident(ident: u32) -> (r: Option<TypeTag>)
    ensures
        r == tag_of_ident(ident),
{
    match ident {
        1 => Some(TypeTag::Int8),
        2 => Some(TypeTag::UInt8),
        4 => Some(TypeTag::Int16),
        5 => Some(TypeTag::UInt16),
        6 => Some(TypeTag::Int32),
        7 => Some(TypeTag::UInt32),
        8 => Some(TypeTag::Int64),
        9 => Some(TypeTag::UInt64),
        10 => Some(TypeTag::Float32),
        11 => Some(TypeTag::Float64),
        12 => Some(TypeTag::BitField),
        13 => Some(TypeTag::UnsignedBitField),
        14 => Some(TypeTag::Int64),
        15 => Some(TypeTag::UInt64),
        17 => Some(TypeTag::Bool),
        _ => None,
    }
}

/// Intrinsic byte width of a row field of the given tag; see [`width_of`].
pub fn intrinsic_width(tag: TypeTag) -> (w: u32)
    ensures
        w as int == width_of(tag),
{
    match tag {
        TypeTag::Int8 => 1,
        TypeTag::UInt8 => 1,
        TypeTag::Bool => 1,
        TypeTag::Int16 => 2,
        TypeTag::UInt16 => 2,
        TypeTag::Int32 => 4,
        TypeTag::UInt32 => 4,
        TypeTag::Float32 => 4,
        TypeTag::Int64 => 8,
        TypeTag::UInt64 => 8,
        TypeTag::Float64 => 8,
        TypeTag::BitField => 4,
        TypeTag::UnsignedBitField => 4,
    }
}

/// Whether row decoding can produce a sample for the given tag; see
/// [`supported`].
pub fn is_supported(tag: TypeTag) -> (b: bool)
    ensures
        b == supported(tag),
{
    match tag {
        TypeTag::Int8 => true,
        TypeTag::UInt8 => true,
        TypeTag::Bool => true,
        TypeTag::Float32 => true,
        TypeTag::Float64 => true,
        _ => false,
    }
}

} // verus!
