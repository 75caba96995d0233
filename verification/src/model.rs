//! The mathematical model of the log format.
//!
//! These specification functions define, over a byte sequence, exactly what
//! the executable decoder returns: the parsed header, each row, the whole
//! dataset, or the first error with the offset at which it is detected.  The
//! executable functions in the neighbouring modules carry contracts phrased
//! as equalities against this model.

use crate::numeric::{f64_bits_of_int, widen_f32_bits};
use crate::primitives::as_i8;
use crate::text::nul_prefix;
use vstd::utf8::valid_utf8;
use crate::types::{supported, tag_of_ident, width_of, ErrModel, TypeTag};
use vstd::bytes::{spec_u32_from_le_bytes, spec_u64_from_le_bytes};
use vstd::prelude::*;

verus! {

/// Mathematical image of one parsed variable descriptor.
pub struct DescView {
    /// Declared byte length of the name span.
    pub namelen: nat,
    /// Name bytes, cut at the first NUL.
    pub name: Seq<u8>,
    /// Declared byte length of the unit span.
    pub unitlen: nat,
    /// Unit bytes, cut at the first NUL.
    pub unit: Seq<u8>,
    /// The numeric type identifier as stored.
    pub var_type_ident: u32,
    /// The tag the identifier resolves to.
    pub var_type: TypeTag,
    /// Declared byte width of the type, stored verbatim and informational
    /// only: row decoding always uses the tag's intrinsic width.
    pub size_of_type: nat,
}

/// Mathematical image of a parsed header.
pub struct HeaderView {
    /// The fixed 10-byte format/version marker, stored uninterpreted.
    pub format_tag: Seq<u8>,
    /// Declared descriptor count.
    pub num_params: u32,
    /// The descriptors, in file order.
    pub descriptors: Seq<DescView>,
    /// Offset one past the header: the first row's first byte.
    pub end: int,
}

/// Mathematical image of a decoded dataset: `columns[i]` holds one 64-bit
/// float bit pattern per row, in row order, for `descriptors[i]`.
pub struct DataView {
    pub format_tag: Seq<u8>,
    pub num_params: u32,
    pub descriptors: Seq<DescView>,
    pub columns: Seq<Seq<u64>>,
}

/// The 32-bit little-endian unsigned integer stored at `pos`.
pub open spec fn spec_u32_at(s: Seq<u8>, pos: int) -> u32 {
    spec_u32_from_le_bytes(s.subrange(pos, pos + 4))
}

/// Parse one descriptor record at `pos`: name length, name span, unit
/// length, unit span, type identifier, declared byte width.  Returns the
/// descriptor and the offset one past it, or the first error in field order.
pub open spec fn spec_read_descriptor(s: Seq<u8>, pos: int) -> Result<(DescView, int), ErrModel> {
    if pos + 4 > s.len() {
        Err(ErrModel::TruncatedHeader(pos))
    } else {
        let namelen = spec_u32_at(s, pos) as int;
        let p1 = pos + 4;
        if p1 + namelen > s.len() {
            Err(ErrModel::TruncatedHeader(p1))
        } else {
            let name = nul_prefix(s.subrange(p1, p1 + namelen));
            if !valid_utf8(name) {
                Err(ErrModel::InvalidText(p1))
            } else {
                let p2 = p1 + namelen;
                if p2 + 4 > s.len() {
                    Err(ErrModel::TruncatedHeader(p2))
                } else {
                    let unitlen = spec_u32_at(s, p2) as int;
                    let p3 = p2 + 4;
                    if p3 + unitlen > s.len() {
                        Err(ErrModel::TruncatedHeader(p3))
                    } else {
                        let unit = nul_prefix(s.subrange(p3, p3 + unitlen));
                        if !valid_utf8(unit) {
                            Err(ErrModel::InvalidText(p3))
                        } else {
                            let p4 = p3 + unitlen;
                            if p4 + 4 > s.len() {
                                Err(ErrModel::TruncatedHeader(p4))
                            } else {
                                let ident = spec_u32_at(s, p4);
                                match tag_of_ident(ident) {
                                    None => Err(ErrModel::UnknownType(p4)),
                                    Some(tag) => {
                                        let p5 = p4 + 4;
                                        if p5 + 4 > s.len() {
                                            Err(ErrModel::TruncatedHeader(p5))
                                        } else {
                                            Ok(
                                                (
                                                    DescView {
                                                        namelen: namelen as nat,
                                                        name,
                                                        unitlen: unitlen as nat,
                                                        unit,
                                                        var_type_ident: ident,
                                                        var_type: tag,
                                                        size_of_type: spec_u32_at(s, p5) as nat,
                                                    },
                                                    p5 + 4,
                                                ),
                                            )
                                        }
                                    },
                                }
                            }
                        }
                    }
                }
            }
        }
    }
}

/// Parse `n` descriptor records starting at `pos`.
pub open spec fn spec_read_descs(s: Seq<u8>, pos: int, n: nat) -> Result<
    (Seq<DescView>, int),
    ErrModel,
>
    decreases n,
{
    if n == 0 {
        Ok((Seq::empty(), pos))
    } else {
        match spec_read_descriptor(s, pos) {
            Err(e) => Err(e),
            Ok((d, p)) => match spec_read_descs(s, p, (n - 1) as nat) {
                Err(e) => Err(e),
                Ok((ds, end)) => Ok((seq![d] + ds, end)),
            },
        }
    }
}

/// Parse the whole header: the 10-byte format tag, the 4-byte descriptor
/// count, and that many descriptor records.
pub open spec fn spec_read_header(s: Seq<u8>) -> Result<HeaderView, ErrModel> {
    if s.len() < 10 {
        Err(ErrModel::TruncatedHeader(0))
    } else if s.len() < 14 {
        Err(ErrModel::TruncatedHeader(10))
    } else {
        let num_params = spec_u32_at(s, 10);
        match spec_read_descs(s, 14, num_params as nat) {
            Err(e) => Err(e),
            Ok((ds, end)) => Ok(
                HeaderView {
                    format_tag: s.subrange(0, 10),
                    num_params,
                    descriptors: ds,
                    end,
                },
            ),
        }
    }
}

/// The 64-bit float bit pattern decoded from one row field of the given tag:
/// 64-bit floats are taken verbatim, 32-bit floats widened exactly, 8-bit
/// integers and booleans converted by value.  Meaningful only for supported
/// tags and a span of the tag's intrinsic width.
pub open spec fn sample_of(tag: TypeTag, field: Seq<u8>) -> u64
    recommends
        supported(tag),
        field.len() == width_of(tag),
{
    match tag {
        TypeTag::Float64 => spec_u64_from_le_bytes(field),
        TypeTag::Float32 => widen_f32_bits(spec_u32_from_le_bytes(field)),
        TypeTag::Int8 => f64_bits_of_int(as_i8(field[0])),
        TypeTag::UInt8 => f64_bits_of_int(field[0] as int),
        TypeTag::Bool => f64_bits_of_int(
            if field[0] == 0 {
                0
            } else {
                1
            },
        ),
        _ => 0,
    }
}

/// Decode the row fields for `descs[i..]` starting at `pos`: one field per
/// descriptor, back to back, each of its tag's intrinsic width.  Returns the
/// samples and the offset one past the last field.
pub open spec fn spec_read_row_from(s: Seq<u8>, pos: int, descs: Seq<DescView>, i: int) -> Result<
    (Seq<u64>, int),
    ErrModel,
>
    decreases descs.len() - i,
{
    if i < 0 || i >= descs.len() {
        Ok((Seq::empty(), pos))
    } else {
        let tag = descs[i].var_type;
        if !supported(tag) {
            Err(ErrModel::UnsupportedType(pos))
        } else if pos + width_of(tag) > s.len() {
            Err(ErrModel::TruncatedRow(pos))
        } else {
            let v = sample_of(tag, s.subrange(pos, pos + width_of(tag)));
            match spec_read_row_from(s, pos + width_of(tag), descs, i + 1) {
                Err(e) => Err(e),
                Ok((vs, end)) => Ok((seq![v] + vs, end)),
            }
        }
    }
}

/// Decode one whole row at `pos`.
pub open spec fn spec_read_row(s: Seq<u8>, pos: int, descs: Seq<DescView>) -> Result<
    (Seq<u64>, int),
    ErrModel,
> {
    spec_read_row_from(s, pos, descs, 0)
}

/// Byte width of the row fields for `descs[i..]`.
pub open spec fn row_width_from(descs: Seq<DescView>, i: int) -> int
    decreases descs.len() - i,
{
    if i < 0 || i >= descs.len() {
        0
    } else {
        width_of(descs[i].var_type) + row_width_from(descs, i + 1)
    }
}

/// Byte width of one whole row: the sum of the intrinsic widths of the
/// descriptors' tags.
pub open spec fn row_width(descs: Seq<DescView>) -> int {
    row_width_from(descs, 0)
}

/// Decode rows from `pos` until the input is exhausted.  A clean end of
/// stream is checked before each row, never inside one; trailing bytes that
/// no descriptor can consume (an empty descriptor list) are a truncated row
/// at that offset.
pub open spec fn spec_read_rows(s: Seq<u8>, pos: int, descs: Seq<DescView>) -> Result<
    Seq<Seq<u64>>,
    ErrModel,
>
    decreases s.len() - pos,
{
    if pos >= s.len() {
        Ok(Seq::empty())
    } else if descs.len() == 0 {
        Err(ErrModel::TruncatedRow(pos))
    } else {
        match spec_read_row(s, pos, descs) {
            Err(e) => Err(e),
            Ok((row, p2)) => {
                if pos < p2 <= s.len() {
                    match spec_read_rows(s, p2, descs) {
                        Err(e) => Err(e),
                        Ok(rows) => Ok(seq![row] + rows),
                    }
                } else {
                    Err(ErrModel::TruncatedRow(pos))
                }
            },
        }
    }
}

/// Transpose row-major samples into `ncols` columns: column `i` holds one
/// sample per row, in row order.
pub open spec fn columns_of(rows: Seq<Seq<u64>>, ncols: int) -> Seq<Seq<u64>> {
    Seq::new(ncols as nat, |i: int| Seq::new(rows.len(), |j: int| rows[j][i]))
}

/// Decode a whole log: the header, then rows until the input is exhausted,
/// transposed into one column per descriptor.
pub open spec fn spec_decode_log(s: Seq<u8>) -> Result<DataView, ErrModel> {
    match spec_read_header(s) {
        Err(e) => Err(e),
        Ok(h) => match spec_read_rows(s, h.end, h.descriptors) {
            Err(e) => Err(e),
            Ok(rows) => Ok(
                DataView {
                    format_tag: h.format_tag,
                    num_params: h.num_params,
                    descriptors: h.descriptors,
                    columns: columns_of(rows, h.descriptors.len() as int),
                },
            ),
        },
    }
}

/// A successfully parsed descriptor record takes at least its six fixed
/// fields' 16 bytes, ends within the input, and resolves its identifier.
pub proof fn lemma_read_descriptor_bounds(s: Seq<u8>, pos: int)
    requires
        spec_read_descriptor(s, pos) is Ok,
    ensures
        ({
            let (d, end) = spec_read_descriptor(s, pos)->Ok_0;
            &&& pos + 16 <= end <= s.len()
            &&& end == pos + 16 + d.namelen + d.unitlen
            &&& tag_of_ident(d.var_type_ident) == Some(d.var_type)
            &&& valid_utf8(d.name)
            &&& valid_utf8(d.unit)
        }),
{
}

/// Parsing `n` descriptor records yields exactly `n` of them, in order, and
/// the cursor never moves backwards nor past the end of the input.
pub proof fn lemma_read_descs_bounds(s: Seq<u8>, pos: int, n: nat)
    requires
        pos <= s.len(),
        spec_read_descs(s, pos, n) is Ok,
    ensures
        ({
            let (ds, end) = spec_read_descs(s, pos, n)->Ok_0;
            &&& ds.len() == n
            &&& pos <= end <= s.len()
        }),
    decreases n,
{
    if n != 0 {
        let (d, p) = spec_read_descriptor(s, pos)->Ok_0;
        lemma_read_descriptor_bounds(s, pos);
        lemma_read_descs_bounds(s, p, (n - 1) as nat);
    }
}

/// A successfully decoded row suffix has one sample per remaining
/// descriptor and advances the cursor by exactly the remaining row width,
/// ending within the input.
pub proof fn lemma_read_row_from_bounds(s: Seq<u8>, pos: int, descs: Seq<DescView>, i: int)
    requires
        pos <= s.len(),
        spec_read_row_from(s, pos, descs, i) is Ok,
    ensures
        ({
            let (vs, end) = spec_read_row_from(s, pos, descs, i)->Ok_0;
            &&& (0 <= i <= descs.len() ==> vs.len() == descs.len() - i)
            &&& end == pos + (if 0 <= i { row_width_from(descs, i) } else { 0 })
            &&& pos <= end <= s.len()
        }),
    decreases descs.len() - i,
{
    if 0 <= i < descs.len() {
        let tag = descs[i].var_type;
        lemma_read_row_from_bounds(s, pos + width_of(tag), descs, i + 1);
    }
}

/// Row widths are nonnegative, and positive as soon as one descriptor
/// remains: every tag's intrinsic width is at least one byte.
pub proof fn lemma_row_width_from_pos(descs: Seq<DescView>, i: int)
    ensures
        row_width_from(descs, i) >= 0,
        0 <= i < descs.len() ==> row_width_from(descs, i) >= descs.len() - i,
    decreases descs.len() - i,
{
    if 0 <= i < descs.len() {
        lemma_row_width_from_pos(descs, i + 1);
    }
}

/// Every row of a successfully decoded row region has one sample per
/// descriptor.
pub proof fn lemma_read_rows_shape(s: Seq<u8>, pos: int, descs: Seq<DescView>)
    requires
        pos <= s.len(),
        spec_read_rows(s, pos, descs) is Ok,
    ensures
        ({
            let rows = spec_read_rows(s, pos, descs)->Ok_0;
            forall|j: int| 0 <= j < rows.len() ==> (#[trigger] rows[j]).len() == descs.len()
        }),
    decreases s.len() - pos,
{
    if pos >= s.len() {
    } else {
        let (row, p2) = spec_read_row(s, pos, descs)->Ok_0;
        lemma_read_row_from_bounds(s, pos, descs, 0);
        if pos < p2 <= s.len() {
            lemma_read_rows_shape(s, p2, descs);
        }
    }
}

} // verus!
