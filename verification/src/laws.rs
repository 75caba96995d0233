//! Laws of the decoder, proved once and for all over the model: what a valid
//! header yields, that declared byte widths never steer row decoding, how a
//! row region of exact multiple length decodes, that a header error decodes
//! no rows, and that encoding a synthetic log and decoding it again gives
//! back exactly the values that went in.

use crate::model::{
    columns_of, lemma_read_descs_bounds, lemma_row_width_from_pos, sample_of, spec_decode_log,
    spec_read_descriptor, spec_read_descs, spec_read_header, spec_read_row_from, spec_read_rows,
    spec_u32_at, row_width, row_width_from, DescView,
};
use crate::text::{lemma_nul_cut_is, nul_prefix};
use crate::types::{supported, tag_of_ident, width_of, ErrModel, TypeTag};
use vstd::arithmetic::div_mod::{
    lemma_div_by_multiple, lemma_fundamental_div_mod, lemma_fundamental_div_mod_converse,
    lemma_mod_multiples_basic,
};
use vstd::bytes::{
    lemma_auto_spec_u32_to_from_le_bytes, lemma_auto_spec_u64_to_from_le_bytes,
    spec_u32_to_le_bytes, spec_u64_to_le_bytes,
};
use vstd::prelude::*;
use vstd::utf8::valid_utf8;

verus! {

/// A valid header holds exactly as many descriptors as its count field
/// declares, and its end — the first row's first byte — lies within the
/// input.
pub proof fn lemma_header_yields_declared_count(s: Seq<u8>)
    requires
        spec_read_header(s) is Ok,
    ensures
        ({
            let h = spec_read_header(s)->Ok_0;
            &&& h.descriptors.len() == h.num_params as nat
            &&& h.num_params == spec_u32_at(s, 10)
            &&& 14 <= h.end <= s.len()
        }),
{
    let h = spec_read_header(s)->Ok_0;
    lemma_read_descs_bounds(s, 14, h.num_params as nat);
}

/// Row decoding depends on the descriptors' resolved tags alone: two
/// descriptor lists whose tags agree index by index — whatever their names,
/// units, identifiers or declared byte widths — decode every row suffix
/// identically.  The declared width is informational only.
pub proof fn lemma_row_ignores_declared_width(
    s: Seq<u8>,
    pos: int,
    d1: Seq<DescView>,
    d2: Seq<DescView>,
    i: int,
)
    requires
        d1.len() == d2.len(),
        forall|j: int| 0 <= j < d1.len() ==> (#[trigger] d1[j]).var_type == (#[trigger] d2[j]).var_type,
    ensures
        spec_read_row_from(s, pos, d1, i) == spec_read_row_from(s, pos, d2, i),
    decreases d1.len() - i,
{
    if 0 <= i < d1.len() {
        let tag = d1[i].var_type;
        if supported(tag) && pos + width_of(tag) <= s.len() {
            lemma_row_ignores_declared_width(s, pos + width_of(tag), d1, d2, i + 1);
        }
    }
}

/// The same, lifted to the whole row region: the declared byte widths never
/// influence which rows are decoded nor their values.
pub proof fn lemma_rows_ignore_declared_width(
    s: Seq<u8>,
    pos: int,
    d1: Seq<DescView>,
    d2: Seq<DescView>,
)
    requires
        d1.len() == d2.len(),
        forall|j: int| 0 <= j < d1.len() ==> (#[trigger] d1[j]).var_type == (#[trigger] d2[j]).var_type,
    ensures
        spec_read_rows(s, pos, d1) == spec_read_rows(s, pos, d2),
    decreases s.len() - pos,
{
    if pos < s.len() && d1.len() != 0 {
        lemma_row_ignores_declared_width(s, pos, d1, d2, 0);
        match spec_read_row_from(s, pos, d1, 0) {
            Err(_) => {},
            Ok((row, p2)) => {
                if pos < p2 <= s.len() {
                    lemma_rows_ignore_declared_width(s, p2, d1, d2);
                }
            },
        }
    }
}

/// The dataset invariant: every successfully decoded log has exactly one
/// column per descriptor, and all columns have the same length — each row
/// contributed exactly one sample to every column.
pub proof fn lemma_columns_parallel_and_equal(s: Seq<u8>)
    requires
        spec_decode_log(s) is Ok,
    ensures
        ({
            let m = spec_decode_log(s)->Ok_0;
            &&& m.columns.len() == m.descriptors.len()
            &&& forall|i: int, j: int|
                0 <= i < m.columns.len() && 0 <= j < m.columns.len() ==> (
                #[trigger] m.columns[i]).len() == (#[trigger] m.columns[j]).len()
        }),
{
}

/// A header error aborts the whole decode with that same error: no rows are
/// decoded and no partial dataset exists.
pub proof fn lemma_header_error_aborts(s: Seq<u8>)
    requires
        spec_read_header(s) is Err,
    ensures
        spec_decode_log(s) == Err::<crate::model::DataView, ErrModel>(
            spec_read_header(s)->Err_0,
        ),
{
}

/// When every descriptor's tag is decodable, a row suffix decodes exactly
/// when its remaining width fits in the input, and a short input fails as a
/// truncated row.
pub proof fn lemma_row_all_supported(s: Seq<u8>, pos: int, descs: Seq<DescView>, i: int)
    requires
        0 <= i <= descs.len(),
        0 <= pos <= s.len(),
        forall|j: int| 0 <= j < descs.len() ==> supported((#[trigger] descs[j]).var_type),
    ensures
        pos + row_width_from(descs, i) <= s.len() ==> (spec_read_row_from(s, pos, descs, i)
            matches Ok(p) && p.1 == pos + row_width_from(descs, i)),
        s.len() < pos + row_width_from(descs, i) ==> (spec_read_row_from(s, pos, descs, i)
            matches Err(m) && m matches ErrModel::TruncatedRow(_)),
    decreases descs.len() - i,
{
    lemma_row_width_from_pos(descs, i);
    if i < descs.len() {
        lemma_row_width_from_pos(descs, i + 1);
        let tag = descs[i].var_type;
        if pos + width_of(tag) <= s.len() {
            lemma_row_all_supported(s, pos + width_of(tag), descs, i + 1);
        }
    }
}

/// Clean end of stream: when every descriptor's tag is decodable and the
/// row region's length is an exact multiple of the row width, decoding
/// succeeds with exactly `region / row_width` rows.
pub proof fn lemma_clean_end_of_stream(s: Seq<u8>, pos: int, descs: Seq<DescView>)
    requires
        0 <= pos <= s.len(),
        descs.len() >= 1,
        forall|j: int| 0 <= j < descs.len() ==> supported((#[trigger] descs[j]).var_type),
        (s.len() - pos) % row_width(descs) == 0,
    ensures
        spec_read_rows(s, pos, descs) matches Ok(rows) && rows.len() == (s.len() - pos)
            / row_width(descs),
    decreases s.len() - pos,
{
    let w = row_width(descs);
    let r = s.len() - pos;
    lemma_row_width_from_pos(descs, 0);
    if pos >= s.len() {
        assert(r == 0);
        lemma_div_by_multiple(0, w);
    } else {
        lemma_fundamental_div_mod(r, w);
        let q = r / w;
        assert(r == w * q);
        assert(q >= 1) by (nonlinear_arith)
            requires
                r == w * q,
                r > 0,
                w > 0,
        ;
        assert(r >= w) by (nonlinear_arith)
            requires
                r == w * q,
                q >= 1,
                w > 0,
        ;
        lemma_row_all_supported(s, pos, descs, 0);
        let (row, p2) = spec_read_row_from(s, pos, descs, 0)->Ok_0;
        assert(p2 == pos + w);
        assert(w * (q - 1) == w * q - w) by (nonlinear_arith);
        assert((s.len() - p2) == w * (q - 1));
        lemma_mod_multiples_basic(q - 1, w);
        assert((q - 1) * w == w * (q - 1)) by (nonlinear_arith);
        assert((w * (q - 1)) % w == 0);
        lemma_clean_end_of_stream(s, p2, descs);
        let rest = spec_read_rows(s, p2, descs)->Ok_0;
        lemma_div_by_multiple(q - 1, w);
        assert(((q - 1) * w) / w == q - 1);
        assert((q - 1) * w == w * (q - 1)) by (nonlinear_arith);
        assert(rest.len() == q - 1);
        lemma_div_by_multiple(q, w);
        assert((q * w) / w == q);
        assert(q * w == w * q) by (nonlinear_arith);
        assert((seq![row] + rest).len() == q);
    }
}

/// A row region whose length is not a multiple of the row width fails as a
/// truncated row, never as a silently short column.
pub proof fn lemma_truncated_mid_row(s: Seq<u8>, pos: int, descs: Seq<DescView>)
    requires
        0 <= pos <= s.len(),
        descs.len() >= 1,
        forall|j: int| 0 <= j < descs.len() ==> supported((#[trigger] descs[j]).var_type),
        (s.len() - pos) % row_width(descs) != 0,
    ensures
        spec_read_rows(s, pos, descs) matches Err(m) && m matches ErrModel::TruncatedRow(_),
    decreases s.len() - pos,
{
    let w = row_width(descs);
    let r = s.len() - pos;
    lemma_row_width_from_pos(descs, 0);
    if pos >= s.len() {
        lemma_mod_multiples_basic(0, w);
        assert(false);
    }
    lemma_fundamental_div_mod(r, w);
    let q = r / w;
    let rr = r % w;
    assert(r == w * q + rr);
    assert(0 < rr < w);
    lemma_row_all_supported(s, pos, descs, 0);
    if r < w {
        assert(s.len() < pos + row_width_from(descs, 0));
    } else {
        assert(q >= 1) by (nonlinear_arith)
            requires
                r == w * q + rr,
                r >= w,
                0 <= rr < w,
                w > 0,
        ;
        let (row, p2) = spec_read_row_from(s, pos, descs, 0)->Ok_0;
        assert(p2 == pos + w);
        assert(w * (q - 1) == w * q - w) by (nonlinear_arith);
        assert((s.len() - p2) == w * (q - 1) + rr);
        lemma_fundamental_div_mod_converse(s.len() - p2, w, q - 1, rr);
        lemma_truncated_mid_row(s, p2, descs);
    }
}

/// End-of-stream handling for a whole file: after a valid header whose tags
/// are all decodable, a row region of exact multiple length decodes cleanly
/// into columns of exactly `region / row_width` samples, and one truncated
/// mid-row fails with a truncated-row error — never a silently short column.
pub proof fn lemma_decode_log_row_count(s: Seq<u8>)
    requires
        spec_read_header(s) is Ok,
        spec_read_header(s)->Ok_0.descriptors.len() >= 1,
        forall|j: int|
            0 <= j < spec_read_header(s)->Ok_0.descriptors.len() ==> supported(
                (#[trigger] spec_read_header(s)->Ok_0.descriptors[j]).var_type,
            ),
    ensures
        ({
            let h = spec_read_header(s)->Ok_0;
            let w = row_width(h.descriptors);
            &&& (s.len() - h.end) % w == 0 ==> spec_decode_log(s) is Ok && (forall|i: int|
                0 <= i < h.descriptors.len() ==> (#[trigger] spec_decode_log(
                    s,
                )->Ok_0.columns[i]).len() == (s.len() - h.end) / w)
            &&& (s.len() - h.end) % w != 0 ==> (spec_decode_log(s) matches Err(m) && m matches
                ErrModel::TruncatedRow(_))
        }),
{
    let h = spec_read_header(s)->Ok_0;
    lemma_header_yields_declared_count(s);
    if (s.len() - h.end) % row_width(h.descriptors) == 0 {
        lemma_clean_end_of_stream(s, h.end, h.descriptors);
    } else {
        lemma_truncated_mid_row(s, h.end, h.descriptors);
    }
}

/// Serialize a 32-bit unsigned integer as four little-endian bytes.
pub open spec fn enc_u32(x: u32) -> Seq<u8> {
    spec_u32_to_le_bytes(x)
}

/// Serialize a 64-bit float bit pattern as eight little-endian bytes.
pub open spec fn enc_u64(x: u64) -> Seq<u8> {
    spec_u64_to_le_bytes(x)
}

/// Serialize one descriptor record in file layout: name length, name bytes,
/// unit length, unit bytes, type identifier, declared byte width.
pub open spec fn encode_descriptor(d: DescView) -> Seq<u8> {
    enc_u32(d.namelen as u32) + d.name + enc_u32(d.unitlen as u32) + d.unit + enc_u32(
        d.var_type_ident,
    ) + enc_u32(d.size_of_type as u32)
}

/// A descriptor a writer can serialize so that parsing gives it back
/// unchanged: the declared lengths equal the spans, the spans hold no NUL
/// and are valid text, the identifier resolves to the stored tag, and every
/// count fits its 32-bit field.
pub open spec fn synth_desc_wf(d: DescView) -> bool {
    &&& d.namelen == d.name.len()
    &&& d.name.len() < 0x100000000
    &&& d.unitlen == d.unit.len()
    &&& d.unit.len() < 0x100000000
    &&& (forall|i: int| 0 <= i < d.name.len() ==> d.name[i] != 0)
    &&& (forall|i: int| 0 <= i < d.unit.len() ==> d.unit[i] != 0)
    &&& valid_utf8(d.name)
    &&& valid_utf8(d.unit)
    &&& tag_of_ident(d.var_type_ident) == Some(d.var_type)
    &&& d.size_of_type < 0x100000000
}

/// Serialize descriptor records back to back.
pub open spec fn encode_descs(ds: Seq<DescView>) -> Seq<u8>
    decreases ds.len(),
{
    if ds.len() == 0 {
        Seq::empty()
    } else {
        encode_descriptor(ds[0]) + encode_descs(ds.skip(1))
    }
}

/// Serialize a whole header: the 10-byte format tag, the descriptor count,
/// and the descriptor records.
pub open spec fn encode_header(tag10: Seq<u8>, ds: Seq<DescView>) -> Seq<u8> {
    tag10 + enc_u32(ds.len() as u32) + encode_descs(ds)
}

/// Serialize one row of 64-bit float bit patterns, eight bytes per value.
pub open spec fn encode_f64_row(row: Seq<u64>) -> Seq<u8>
    decreases row.len(),
{
    if row.len() == 0 {
        Seq::empty()
    } else {
        enc_u64(row[0]) + encode_f64_row(row.skip(1))
    }
}

/// Serialize rows back to back.
pub open spec fn encode_f64_rows(rows: Seq<Seq<u64>>) -> Seq<u8>
    decreases rows.len(),
{
    if rows.len() == 0 {
        Seq::empty()
    } else {
        encode_f64_row(rows[0]) + encode_f64_rows(rows.skip(1))
    }
}

pub proof fn lemma_encode_f64_row_len(row: Seq<u64>)
    ensures
        encode_f64_row(row).len() == 8 * row.len(),
    decreases row.len(),
{
    lemma_auto_spec_u64_to_from_le_bytes();
    if row.len() != 0 {
        lemma_encode_f64_row_len(row.skip(1));
    }
}


/// Parsing an encoded descriptor record gives back exactly the descriptor
/// that was serialized, and consumes exactly its bytes.
pub proof fn lemma_parse_encoded_descriptor(s: Seq<u8>, pos: int, d: DescView)
    requires
        synth_desc_wf(d),
        0 <= pos,
        pos + encode_descriptor(d).len() <= s.len(),
        s.subrange(pos, pos + encode_descriptor(d).len()) == encode_descriptor(d),
    ensures
        spec_read_descriptor(s, pos) == Ok::<(DescView, int), ErrModel>(
            (d, pos + encode_descriptor(d).len()),
        ),
{
    lemma_auto_spec_u32_to_from_le_bytes();
    let e = encode_descriptor(d);
    let nl = d.name.len() as int;
    let ul = d.unit.len() as int;
    let na = enc_u32(d.namelen as u32);
    let ua = enc_u32(d.unitlen as u32);
    let ia = enc_u32(d.var_type_ident);
    let sa = enc_u32(d.size_of_type as u32);
    assert(e.len() == 16 + nl + ul);
    let p1 = pos + 4;
    let p2 = p1 + nl;
    let p3 = p2 + 4;
    let p4 = p3 + ul;
    let p5 = p4 + 4;
    assert forall|i: int| 0 <= i < 4 implies s.subrange(pos, pos + 4)[i] == #[trigger] na[i] by {
        assert(s.subrange(pos, pos + e.len())[i] == e[i]);
        assert(e[i] == na[i]);
    }
    assert(s.subrange(pos, pos + 4) =~= na);
    assert(spec_u32_at(s, pos) == d.namelen as u32);
    assert forall|i: int| 0 <= i < nl implies s.subrange(p1, p2)[i] == #[trigger] d.name[i] by {
        assert(s.subrange(pos, pos + e.len())[4 + i] == e[4 + i]);
        assert(e[4 + i] == d.name[i]);
    }
    assert(s.subrange(p1, p2) =~= d.name);
    lemma_nul_cut_is(d.name, nl);
    assert(nul_prefix(d.name) =~= d.name);
    assert forall|i: int| 0 <= i < 4 implies s.subrange(p2, p2 + 4)[i] == #[trigger] ua[i] by {
        assert(s.subrange(pos, pos + e.len())[4 + nl + i] == e[4 + nl + i]);
        assert(e[4 + nl + i] == ua[i]);
    }
    assert(s.subrange(p2, p2 + 4) =~= ua);
    assert(spec_u32_at(s, p2) == d.unitlen as u32);
    assert forall|i: int| 0 <= i < ul implies s.subrange(p3, p3 + ul)[i] == #[trigger] d.unit[i] by {
        assert(s.subrange(pos, pos + e.len())[8 + nl + i] == e[8 + nl + i]);
        assert(e[8 + nl + i] == d.unit[i]);
    }
    assert(s.subrange(p3, p3 + ul) =~= d.unit);
    lemma_nul_cut_is(d.unit, ul);
    assert(nul_prefix(d.unit) =~= d.unit);
    assert forall|i: int| 0 <= i < 4 implies s.subrange(p4, p4 + 4)[i] == #[trigger] ia[i] by {
        assert(s.subrange(pos, pos + e.len())[8 + nl + ul + i] == e[8 + nl + ul + i]);
        assert(e[8 + nl + ul + i] == ia[i]);
    }
    assert(s.subrange(p4, p4 + 4) =~= ia);
    assert(spec_u32_at(s, p4) == d.var_type_ident);
    assert forall|i: int| 0 <= i < 4 implies s.subrange(p5, p5 + 4)[i] == #[trigger] sa[i] by {
        assert(s.subrange(pos, pos + e.len())[12 + nl + ul + i] == e[12 + nl + ul + i]);
        assert(e[12 + nl + ul + i] == sa[i]);
    }
    assert(s.subrange(p5, p5 + 4) =~= sa);
    assert(spec_u32_at(s, p5) == d.size_of_type as u32);
    let parsed = spec_read_descriptor(s, pos)->Ok_0.0;
    assert(parsed == d);
}

/// Parsing an encoded descriptor list gives back exactly the list that was
/// serialized, and consumes exactly its bytes.
pub proof fn lemma_parse_encoded_descs(s: Seq<u8>, pos: int, ds: Seq<DescView>)
    requires
        forall|j: int| 0 <= j < ds.len() ==> synth_desc_wf(#[trigger] ds[j]),
        0 <= pos,
        pos + encode_descs(ds).len() <= s.len(),
        s.subrange(pos, pos + encode_descs(ds).len()) == encode_descs(ds),
    ensures
        spec_read_descs(s, pos, ds.len()) == Ok::<(Seq<DescView>, int), ErrModel>(
            (ds, pos + encode_descs(ds).len()),
        ),
    decreases ds.len(),
{
    if ds.len() == 0 {
        assert(ds =~= Seq::<DescView>::empty());
    } else {
        let e = encode_descs(ds);
        let e0 = encode_descriptor(ds[0]);
        let er = encode_descs(ds.skip(1));
        assert(e == e0 + er);
        assert forall|i: int| 0 <= i < e0.len() implies s.subrange(pos, pos + e0.len())[i]
            == #[trigger] e0[i] by {
            assert(s.subrange(pos, pos + e.len())[i] == e[i]);
            assert(e[i] == e0[i]);
        }
        assert(s.subrange(pos, pos + e0.len()) =~= e0);
        lemma_parse_encoded_descriptor(s, pos, ds[0]);
        let pr = pos + e0.len();
        assert forall|i: int| 0 <= i < er.len() implies s.subrange(pr, pr + er.len())[i]
            == #[trigger] er[i] by {
            assert(s.subrange(pos, pos + e.len())[e0.len() + i] == e[e0.len() + i]);
            assert(e[e0.len() + i] == er[i]);
        }
        assert(s.subrange(pr, pr + er.len()) =~= er);
        assert forall|j: int| 0 <= j < ds.skip(1).len() implies synth_desc_wf(
            #[trigger] ds.skip(1)[j],
        ) by {
            assert(ds.skip(1)[j] == ds[j + 1]);
        }
        lemma_parse_encoded_descs(s, pr, ds.skip(1));
        assert(seq![ds[0]] + ds.skip(1) =~= ds);
    }
}

/// Parsing an encoded row of 64-bit float bit patterns against descriptors
/// that are all 64-bit floats gives back exactly the values serialized.
pub proof fn lemma_parse_encoded_row(
    s: Seq<u8>,
    pos: int,
    row: Seq<u64>,
    ds: Seq<DescView>,
    i: int,
)
    requires
        0 <= i <= ds.len(),
        row.len() == ds.len() - i,
        forall|j: int| 0 <= j < ds.len() ==> (#[trigger] ds[j]).var_type == TypeTag::Float64,
        0 <= pos,
        pos + 8 * row.len() <= s.len(),
        s.subrange(pos, pos + 8 * row.len()) == encode_f64_row(row),
    ensures
        spec_read_row_from(s, pos, ds, i) == Ok::<(Seq<u64>, int), ErrModel>(
            (row, pos + 8 * row.len()),
        ),
    decreases row.len(),
{
    lemma_auto_spec_u64_to_from_le_bytes();
    lemma_encode_f64_row_len(row);
    if row.len() == 0 {
        assert(row =~= Seq::<u64>::empty());
    } else {
        let e = encode_f64_row(row);
        let e0 = enc_u64(row[0]);
        let er = encode_f64_row(row.skip(1));
        lemma_encode_f64_row_len(row.skip(1));
        assert(e == e0 + er);
        assert forall|k: int| 0 <= k < 8 implies s.subrange(pos, pos + 8)[k] == #[trigger] e0[k] by {
            assert(s.subrange(pos, pos + e.len())[k] == e[k]);
            assert(e[k] == e0[k]);
        }
        assert(s.subrange(pos, pos + 8) =~= e0);
        assert(sample_of(TypeTag::Float64, s.subrange(pos, pos + 8)) == row[0]);
        let pr = pos + 8;
        assert forall|k: int| 0 <= k < er.len() implies s.subrange(pr, pr + er.len())[k]
            == #[trigger] er[k] by {
            assert(s.subrange(pos, pos + e.len())[8 + k] == e[8 + k]);
            assert(e[8 + k] == er[k]);
        }
        assert(s.subrange(pr, pr + er.len()) =~= er);
        lemma_parse_encoded_row(s, pr, row.skip(1), ds, i + 1);
        assert(seq![row[0]] + row.skip(1) =~= row);
    }
}

/// Parsing an encoded row region that reaches exactly the end of the input
/// gives back exactly the rows serialized.
pub proof fn lemma_parse_encoded_rows(s: Seq<u8>, pos: int, rows: Seq<Seq<u64>>, ds: Seq<DescView>)
    requires
        ds.len() >= 1,
        forall|j: int| 0 <= j < ds.len() ==> (#[trigger] ds[j]).var_type == TypeTag::Float64,
        forall|j: int| 0 <= j < rows.len() ==> (#[trigger] rows[j]).len() == ds.len(),
        0 <= pos,
        pos + encode_f64_rows(rows).len() == s.len(),
        s.subrange(pos, s.len() as int) == encode_f64_rows(rows),
    ensures
        spec_read_rows(s, pos, ds) == Ok::<Seq<Seq<u64>>, ErrModel>(rows),
    decreases rows.len(),
{
    if rows.len() == 0 {
        assert(rows =~= Seq::<Seq<u64>>::empty());
    } else {
        let e = encode_f64_rows(rows);
        let e0 = encode_f64_row(rows[0]);
        let er = encode_f64_rows(rows.skip(1));
        lemma_encode_f64_row_len(rows[0]);
        assert(e == e0 + er);
        assert(e0.len() == 8 * ds.len());
        assert(pos < s.len());
        assert forall|k: int| 0 <= k < e0.len() implies s.subrange(pos, pos + e0.len())[k]
            == #[trigger] e0[k] by {
            assert(s.subrange(pos, s.len() as int)[k] == e[k]);
            assert(e[k] == e0[k]);
        }
        assert(s.subrange(pos, pos + e0.len()) =~= e0);
        lemma_parse_encoded_row(s, pos, rows[0], ds, 0);
        let pr = pos + e0.len();
        assert forall|k: int| 0 <= k < er.len() implies s.subrange(pr, s.len() as int)[k]
            == #[trigger] er[k] by {
            assert(s.subrange(pos, s.len() as int)[e0.len() + k] == e[e0.len() + k]);
            assert(e[e0.len() + k] == er[k]);
        }
        assert(s.subrange(pr, s.len() as int) =~= er);
        assert forall|j: int| 0 <= j < rows.skip(1).len() implies (#[trigger] rows.skip(
            1,
        )[j]).len() == ds.len() by {
            assert(rows.skip(1)[j] == rows[j + 1]);
        }
        lemma_parse_encoded_rows(s, pr, rows.skip(1), ds);
        assert(seq![rows[0]] + rows.skip(1) =~= rows);
    }
}

/// Round trip: serializing a synthetic header and rows of 64-bit float
/// values, then decoding the whole byte string, reproduces the descriptors
/// and every value exactly, bit for bit, with `columns[i][j]` holding row
/// `j`'s value for descriptor `i`.
pub proof fn lemma_round_trip(tag10: Seq<u8>, ds: Seq<DescView>, rows: Seq<Seq<u64>>)
    requires
        tag10.len() == 10,
        1 <= ds.len() < 0x100000000,
        forall|j: int| 0 <= j < ds.len() ==> synth_desc_wf(#[trigger] ds[j]),
        forall|j: int| 0 <= j < ds.len() ==> (#[trigger] ds[j]).var_type == TypeTag::Float64,
        forall|j: int| 0 <= j < rows.len() ==> (#[trigger] rows[j]).len() == ds.len(),
    ensures
        ({
            let s = encode_header(tag10, ds) + encode_f64_rows(rows);
            &&& spec_decode_log(s) is Ok
            &&& spec_decode_log(s)->Ok_0.format_tag == tag10
            &&& spec_decode_log(s)->Ok_0.num_params == ds.len() as u32
            &&& spec_decode_log(s)->Ok_0.descriptors == ds
            &&& spec_decode_log(s)->Ok_0.columns.len() == ds.len()
            &&& forall|i: int|
                0 <= i < ds.len() ==> (#[trigger] spec_decode_log(s)->Ok_0.columns[i]).len()
                    == rows.len()
            &&& forall|i: int, j: int|
                0 <= i < ds.len() && 0 <= j < rows.len() ==> spec_decode_log(
                    s,
                )->Ok_0.columns[i][j] == rows[j][i]
        }),
{
    lemma_auto_spec_u32_to_from_le_bytes();
    let hd = encode_header(tag10, ds);
    let np = enc_u32(ds.len() as u32);
    let dd = encode_descs(ds);
    let dl = dd.len() as int;
    let r = encode_f64_rows(rows);
    let s = hd + r;
    assert(hd.len() == 14 + dl);
    assert forall|i: int| 0 <= i < 10 implies s.subrange(0, 10)[i] == #[trigger] tag10[i] by {
        assert(s[i] == hd[i]);
        assert(hd[i] == tag10[i]);
    }
    assert(s.subrange(0, 10) =~= tag10);
    assert forall|i: int| 0 <= i < 4 implies s.subrange(10, 14)[i] == #[trigger] np[i] by {
        assert(s[10 + i] == hd[10 + i]);
        assert(hd[10 + i] == np[i]);
    }
    assert(s.subrange(10, 14) =~= np);
    assert(spec_u32_at(s, 10) == ds.len() as u32);
    assert forall|i: int| 0 <= i < dl implies s.subrange(14, 14 + dl)[i] == #[trigger] dd[i] by {
        assert(s[14 + i] == hd[14 + i]);
        assert(hd[14 + i] == dd[i]);
    }
    assert(s.subrange(14, 14 + dl) =~= dd);
    lemma_parse_encoded_descs(s, 14, ds);
    assert(spec_read_header(s) is Ok);
    let h = spec_read_header(s)->Ok_0;
    assert(h.descriptors == ds);
    assert(h.end == 14 + dl);
    assert forall|k: int| 0 <= k < r.len() implies s.subrange(14 + dl, s.len() as int)[k]
        == #[trigger] r[k] by {
        assert(s[hd.len() + k] == r[k]);
    }
    assert(s.subrange(14 + dl, s.len() as int) =~= r);
    lemma_parse_encoded_rows(s, 14 + dl, rows, ds);
    let m = spec_decode_log(s)->Ok_0;
    assert(m.columns == columns_of(rows, ds.len() as int));
}

} // verus!

