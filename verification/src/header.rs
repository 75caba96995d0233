//! The descriptor reader: parses the self-describing header into an ordered
//! list of variable descriptors, using the type registry and the primitive
//! decoders.

use crate::model::{
    lemma_read_descriptor_bounds, spec_read_descriptor, spec_read_descs, spec_read_header,
    DescView,
};
use crate::text::c_string;
use crate::types::{lookup_ident, tag_of_ident, DecodeError, TypeTag};
use vstd::bytes::u32_from_le_bytes;
use vstd::prelude::*;
use vstd::slice::{slice_subrange, slice_to_vec};

verus! {

/// One logged variable, as described by the header: its name and unit (byte
/// spans cut at their first NUL), the numeric type identifier with the tag
/// it resolves to, and the declared byte width, which is informational only.
#[derive(Debug, Clone)]
pub struct VariableDescriptor {
    /// Declared byte length of the name span.
    pub namelen: u32,
    /// Name bytes, cut at the first NUL; valid UTF-8.
    pub name: Vec<u8>,
    /// Declared byte length of the unit span.
    pub unitlen: u32,
    /// Unit bytes, cut at the first NUL; valid UTF-8 and possibly empty.
    pub unit: Vec<u8>,
    /// The numeric type identifier as stored in the file.
    pub var_type_ident: u32,
    /// The tag [`var_type_ident`](Self::var_type_ident) resolves to.
    pub var_type: TypeTag,
    /// Declared byte width, stored verbatim; row decoding ignores it and
    /// uses the tag's intrinsic width.
    pub size_of_type: u32,
}

impl View for VariableDescriptor {
    type V = DescView;

    open spec fn view(&self) -> DescView {
        DescView {
            namelen: self.namelen as nat,
            name: self.name@,
            unitlen: self.unitlen as nat,
            unit: self.unit@,
            var_type_ident: self.var_type_ident,
            var_type: self.var_type,
            size_of_type: self.size_of_type as nat,
        }
    }
}

/// The descriptor sequence a descriptor vector stands for.
pub open spec fn descs_view(ds: Seq<VariableDescriptor>) -> Seq<DescView> {
    ds.map_values(|d: VariableDescriptor| d@)
}

impl Default for VariableDescriptor {
    /// A placeholder descriptor: a one-byte blank name, an empty unit, the
    /// first identifier of the registry, and a declared width of one.
    fn default() -> (r: Self)
        ensures
            r@.namelen == 1,
            r@.name == seq![32u8],
            r@.unitlen == 1,
            r@.unit == Seq::<u8>::empty(),
            r@.var_type_ident == 1,
            r@.var_type == TypeTag::Int8,
            r@.size_of_type == 1,
    {
        VariableDescriptor {
            namelen: 1,
            name: vec![32u8],
            unitlen: 1,
            unit: Vec::new(),
            var_type_ident: 1,
            var_type: TypeTag::Int8,
            size_of_type: 1,
        }
    }
}

/// Parse one descriptor record at `pos`, exactly per
/// [`spec_read_descriptor`]: on success the descriptor and the offset one
/// past its last field, otherwise the first error in field order.
pub fn read_descriptor(bytes: &[u8], pos: usize) -> (r: Result<
    (VariableDescriptor, usize),
    DecodeError,
>)
    requires
        pos <= bytes@.len(),
    ensures
        ({
            match spec_read_descriptor(bytes@, pos as int) {
                Ok((d, end)) => r matches Ok((desc, p)) && desc@ == d && p == end,
                Err(m) => r matches Err(e) && e@ == m,
            }
        }),
{
    let n = bytes.len();
    if n - pos < 4 {
        return Err(DecodeError::TruncatedHeader { offset: pos });
    }
    let namelen = u32_from_le_bytes(slice_subrange(bytes, pos, pos + 4));
    let p1 = pos + 4;
    if n - p1 < namelen as usize {
        return Err(DecodeError::TruncatedHeader { offset: p1 });
    }
    let name = match c_string(slice_subrange(bytes, p1, p1 + namelen as usize)) {
        Some(v) => v,
        None => {
            return Err(DecodeError::InvalidText { offset: p1 });
        },
    };
    let p2 = p1 + namelen as usize;
    if n - p2 < 4 {
        return Err(DecodeError::TruncatedHeader { offset: p2 });
    }
    let unitlen = u32_from_le_bytes(slice_subrange(bytes, p2, p2 + 4));
    let p3 = p2 + 4;
    if n - p3 < unitlen as usize {
        return Err(DecodeError::TruncatedHeader { offset: p3 });
    }
    let unit = match c_string(slice_subrange(bytes, p3, p3 + unitlen as usize)) {
        Some(v) => v,
        None => {
            return Err(DecodeError::InvalidText { offset: p3 });
        },
    };
    let p4 = p3 + unitlen as usize;
    if n - p4 < 4 {
        return Err(DecodeError::TruncatedHeader { offset: p4 });
    }
    let ident = u32_from_le_bytes(slice_subrange(bytes, p4, p4 + 4));
    let tag = match lookup_ident(ident) {
        Some(t) => t,
        None => {
            return Err(DecodeError::UnknownType { offset: p4 });
        },
    };
    let p5 = p4 + 4;
    if n - p5 < 4 {
        return Err(DecodeError::TruncatedHeader { offset: p5 });
    }
    let size_of_type = u32_from_le_bytes(slice_subrange(bytes, p5, p5 + 4));
    Ok(
        (
            VariableDescriptor {
                namelen,
                name,
                unitlen,
                unit,
                var_type_ident: ident,
                var_type: tag,
                size_of_type,
            },
            p5 + 4,
        ),
    )
}

/// Parse the whole header, exactly per [`spec_read_header`]: the 10-byte
/// format tag (stored, not interpreted), the descriptor count, and exactly
/// that many descriptors in file order.  On success the returned offset is
/// the first row's first byte: the header is neither over- nor under-read.
pub fn read_header(bytes: &[u8]) -> (r: Result<
    (Vec<u8>, Vec<VariableDescriptor>, usize),
    DecodeError,
>)
    ensures
        ({
            match spec_read_header(bytes@) {
                Ok(h) => r matches Ok((tag, ds, end)) && tag@ == h.format_tag && descs_view(ds@)
                    == h.descriptors && end == h.end,
                Err(m) => r matches Err(e) && e@ == m,
            }
        }),
        r matches Ok((tag, ds, end)) ==> ds@.len() == crate::model::spec_u32_at(bytes@, 10) as nat,
{
    let n = bytes.len();
    if n < 10 {
        return Err(DecodeError::TruncatedHeader { offset: 0 });
    }
    if n < 14 {
        return Err(DecodeError::TruncatedHeader { offset: 10 });
    }
    let format_tag = slice_to_vec(slice_subrange(bytes, 0, 10));
    let num_params = u32_from_le_bytes(slice_subrange(bytes, 10, 14));
    let ghost s = bytes@;
    let mut descriptors: Vec<VariableDescriptor> = Vec::new();
    let mut pos: usize = 14;
    let mut i: u32 = 0;
    while i < num_params
        invariant
            s == bytes@,
            14 <= pos <= n == s.len(),
            num_params == crate::model::spec_u32_at(s, 10),
            format_tag@ == s.subrange(0, 10),
            i <= num_params,
            descriptors@.len() == i as nat,
            spec_read_descs(s, 14, num_params as nat) == (match spec_read_descs(
                s,
                pos as int,
                (num_params - i) as nat,
            ) {
                Ok((ds, end)) => Ok((descs_view(descriptors@) + ds, end)),
                Err(e) => Err::<(Seq<DescView>, int), crate::types::ErrModel>(e),
            }),
        decreases num_params - i,
    {
        match read_descriptor(bytes, pos) {
            Err(e) => {
                proof {
                    assert(spec_read_descs(s, pos as int, (num_params - i) as nat) == Err::<
                        (Seq<DescView>, int),
                        crate::types::ErrModel,
                    >(e@));
                }
                return Err(e);
            },
            Ok((d, p2)) => {
                proof {
                    lemma_read_descriptor_bounds(s, pos as int);
                    let ghost dd = spec_read_descriptor(s, pos as int)->Ok_0.0;
                    assert(descs_view(descriptors@.push(d)) =~= descs_view(descriptors@) + seq![
                        d@,
                    ]);
                    let ghost rest = spec_read_descs(s, p2 as int, (num_params - i - 1) as nat);
                    if rest is Ok {
                        let (ds2, end2) = rest->Ok_0;
                        assert((descs_view(descriptors@) + (seq![d@] + ds2)) =~= (descs_view(
                            descriptors@,
                        ) + seq![d@]) + ds2);
                    }
                }
                descriptors.push(d);
                pos = p2;
                i = i + 1;
            },
        }
    }
    proof {
        assert(descs_view(descriptors@) + Seq::<DescView>::empty() =~= descs_view(descriptors@));
    }
    Ok((format_tag, descriptors, pos))
}

} // verus!
