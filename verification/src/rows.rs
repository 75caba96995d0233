//! The row decoder: turns one fixed-layout binary row into one 64-bit float
//! bit pattern per descriptor, in descriptor order.
//!
//! Each field is read as a contiguous span of exactly the intrinsic width of
//! the descriptor's tag — never its declared byte width — directly after the
//! previous field: the format has no padding or alignment.

use crate::header::{descs_view, VariableDescriptor};
use crate::model::{sample_of, spec_read_row, spec_read_row_from};
use crate::numeric::{f64_bits_of_i64, widen_f32};
use crate::primitives::{i8_from_bytes, u8_from_bytes};
use crate::types::{intrinsic_width, is_supported, DecodeError, ErrModel, TypeTag};
use vstd::bytes::{u32_from_le_bytes, u64_from_le_bytes};
use vstd::prelude::*;
use vstd::slice::slice_subrange;

verus! {

/// Decode exactly one row at `pos`, per [`spec_read_row`]: one sample per
/// descriptor in order, or the first error.  A tag outside the supported set
/// is rejected before any byte of its field is consumed; a field that needs
/// more bytes than remain is a truncated row.
pub fn read_row(bytes: &[u8], pos: usize, descriptors: &Vec<VariableDescriptor>) -> (r: Result<
    (Vec<u64>, usize),
    DecodeError,
>)
    requires
        pos <= bytes@.len(),
    ensures
        ({
            match spec_read_row(bytes@, pos as int, descs_view(descriptors@)) {
                Ok((vs, end)) => r matches Ok((row, p)) && row@ == vs && p == end,
                Err(m) => r matches Err(e) && e@ == m,
            }
        }),
{
    let ghost s = bytes@;
    let ghost dv = descs_view(descriptors@);
    let n = bytes.len();
    let k = descriptors.len();
    let mut row: Vec<u64> = Vec::new();
    let mut pos2 = pos;
    let mut i: usize = 0;
    while i < k
        invariant
            s == bytes@,
            dv == descs_view(descriptors@),
            dv.len() == descriptors@.len() == k,
            pos <= pos2 <= n == s.len(),
            0 <= i <= k,
            row@.len() == i as nat,
            spec_read_row_from(s, pos as int, dv, 0) == (match spec_read_row_from(
                s,
                pos2 as int,
                dv,
                i as int,
            ) {
                Ok((vs, end)) => Ok((row@ + vs, end)),
                Err(e) => Err::<(Seq<u64>, int), ErrModel>(e),
            }),
        decreases k - i,
    {
        let tag = descriptors[i].var_type;
        proof {
            assert(dv[i as int] == descriptors@[i as int]@);
        }
        if !is_supported(tag) {
            return Err(DecodeError::UnsupportedType { offset: pos2 });
        }
        let w = intrinsic_width(tag) as usize;
        if n - pos2 < w {
            return Err(DecodeError::TruncatedRow { offset: pos2 });
        }
        let field = slice_subrange(bytes, pos2, pos2 + w);
        let v: u64 = match tag {
            TypeTag::Float64 => u64_from_le_bytes(field),
            TypeTag::Float32 => widen_f32(u32_from_le_bytes(field)),
            TypeTag::Int8 => {
                match i8_from_bytes(field) {
                    Some(x) => f64_bits_of_i64(x as i64),
                    None => 0,
                }
            },
            TypeTag::UInt8 => {
                match u8_from_bytes(field) {
                    Some(x) => f64_bits_of_i64(x as i64),
                    None => 0,
                }
            },
            TypeTag::Bool => {
                match u8_from_bytes(field) {
                    Some(x) => f64_bits_of_i64(
                        if x != 0 {
                            1
                        } else {
                            0
                        },
                    ),
                    None => 0,
                }
            },
            _ => 0,
        };
        proof {
            assert(field@ == s.subrange(pos2 as int, pos2 + w));
            assert(field@.len() == w);
            assert(v == sample_of(tag, field@));
            let rest = spec_read_row_from(s, pos2 + w, dv, i + 1);
            if rest is Ok {
                let (vs2, end2) = rest->Ok_0;
                assert(row@ + (seq![v] + vs2) =~= row@.push(v) + vs2);
            }
        }
        row.push(v);
        pos2 = pos2 + w;
        i = i + 1;
    }
    proof {
        assert(row@ + Seq::<u64>::empty() =~= row@);
    }
    Ok((row, pos2))
}

} // verus!
