//! The log assembler: drives the descriptor reader once, then the row
//! decoder until the input is exhausted, and transposes the row-major values
//! into one column of 64-bit float bit patterns per descriptor.

use crate::header::{descs_view, read_header, VariableDescriptor};
use crate::model::{
    columns_of, lemma_read_descs_bounds, lemma_read_row_from_bounds, lemma_read_rows_shape,
    lemma_row_width_from_pos, spec_decode_log, spec_read_header, spec_read_row, spec_read_rows,
    DataView, HeaderView,
};
use crate::rows::read_row;
use crate::types::{DecodeError, ErrModel};
use vstd::prelude::*;
use vstd::slice::slice_to_vec;
use vstd::utf8::encode_utf8;

verus! {

/// One column of the decoded dataset: one 64-bit float bit pattern per row,
/// in row (time) order, for one descriptor.
#[derive(Debug, Clone)]
pub struct TrickColumn {
    /// The samples, as IEEE 754 binary64 bit patterns.
    pub data: Vec<u64>,
}

impl View for TrickColumn {
    type V = Seq<u64>;

    open spec fn view(&self) -> Seq<u64> {
        self.data@
    }
}

impl Default for TrickColumn {
    fn default() -> (r: Self)
        ensures
            r@ == Seq::<u64>::empty(),
    {
        TrickColumn { data: Vec::new() }
    }
}

/// The column sequence a column vector stands for.
pub open spec fn cols_view(cs: Seq<TrickColumn>) -> Seq<Seq<u64>> {
    cs.map_values(|c: TrickColumn| c@)
}

/// The row sequence a vector of decoded rows stands for.
pub open spec fn rows_view(rs: Seq<Vec<u64>>) -> Seq<Seq<u64>> {
    rs.map_values(|v: Vec<u64>| v@)
}

/// Where a log lives on disk: the companion header file's name, the binary
/// log file's name, and the log file's full path, all held as byte strings.
/// This subsystem records these names; it never opens them itself.
#[derive(Debug, Clone)]
pub struct LogFileInfo {
    pub header_file_name: Vec<u8>,
    pub log_file_name: Vec<u8>,
    pub full_path: Vec<u8>,
}

impl Default for LogFileInfo {
    fn default() -> (r: Self)
        ensures
            r.header_file_name@ == Seq::<u8>::empty(),
            r.log_file_name@ == Seq::<u8>::empty(),
            r.full_path@ == Seq::<u8>::empty(),
    {
        LogFileInfo { header_file_name: Vec::new(), log_file_name: Vec::new(), full_path: Vec::new() }
    }
}

/// What the caller hands in to name a log: the log's base name and the
/// directory it lives in.
pub struct InputArgs {
    pub name: String,
    pub path: String,
}

/// The bytes of the `.header` file name suffix.
pub open spec fn dot_header_bytes() -> Seq<u8> {
    seq![0x2eu8, 0x68u8, 0x65u8, 0x61u8, 0x64u8, 0x65u8, 0x72u8]
}

/// The bytes of the `.trk` file name suffix.
pub open spec fn dot_trk_bytes() -> Seq<u8> {
    seq![0x2eu8, 0x74u8, 0x72u8, 0x6bu8]
}

/// A decoded log: where it lives, its 10-byte format tag, its descriptors,
/// and one column of samples per descriptor, in the same order.
#[derive(Debug, Clone)]
pub struct TrickData {
    /// File names, recorded for the caller; not consulted while decoding.
    pub log_file: LogFileInfo,
    /// The header's opaque 10-byte format/version marker.
    pub format_tag: Vec<u8>,
    /// The descriptors, in file order; this order is authoritative for the
    /// columns.
    pub descriptors: Vec<VariableDescriptor>,
    /// `data[i]` holds the samples of `descriptors[i]`; all columns have
    /// equal length.
    pub data: Vec<TrickColumn>,
    /// The descriptor count as declared by the header.
    pub num_params: u32,
}

impl View for TrickData {
    type V = DataView;

    open spec fn view(&self) -> DataView {
        DataView {
            format_tag: self.format_tag@,
            num_params: self.num_params,
            descriptors: descs_view(self.descriptors@),
            columns: cols_view(self.data@),
        }
    }
}

impl Default for TrickData {
    fn default() -> (r: Self)
        ensures
            r@.descriptors == Seq::<crate::model::DescView>::empty(),
            r@.columns == Seq::<Seq<u64>>::empty(),
            r@.num_params == 0,
            r@.format_tag == Seq::<u8>::empty(),
            r.log_file.full_path@ == Seq::<u8>::empty(),
    {
        let r = TrickData {
            log_file: LogFileInfo::default(),
            format_tag: Vec::new(),
            descriptors: Vec::new(),
            data: Vec::new(),
            num_params: 0,
        };
        proof {
            assert(descs_view(r.descriptors@) =~= Seq::<crate::model::DescView>::empty());
            assert(cols_view(r.data@) =~= Seq::<Seq<u64>>::empty());
        }
        r
    }
}

impl TrickData {
    /// Record where a log lives: the header file is `{name}.header`, the
    /// binary log `{name}.trk`, and its full path `{path}/{name}.trk`, by
    /// plain concatenation.  No file is opened; the dataset starts empty.
    pub fn new(input: InputArgs) -> (r: Self)
        ensures
            r.log_file.header_file_name@ == encode_utf8(input.name@) + dot_header_bytes(),
            r.log_file.log_file_name@ == encode_utf8(input.name@) + dot_trk_bytes(),
            r.log_file.full_path@ == encode_utf8(input.path@) + seq![0x2fu8] + encode_utf8(
                input.name@,
            ) + dot_trk_bytes(),
            r@.descriptors == Seq::<crate::model::DescView>::empty(),
            r@.columns == Seq::<Seq<u64>>::empty(),
            r@.num_params == 0,
    {
        let name_bytes = input.name.as_str().as_bytes();
        let path_bytes = input.path.as_str().as_bytes();

        let mut header_file_name = slice_to_vec(name_bytes);
        header_file_name.push(0x2e);
        header_file_name.push(0x68);
        header_file_name.push(0x65);
        header_file_name.push(0x61);
        header_file_name.push(0x64);
        header_file_name.push(0x65);
        header_file_name.push(0x72);
        proof {
            assert(header_file_name@ =~= encode_utf8(input.name@) + dot_header_bytes());
        }

        let mut log_file_name = slice_to_vec(name_bytes);
        log_file_name.push(0x2e);
        log_file_name.push(0x74);
        log_file_name.push(0x72);
        log_file_name.push(0x6b);
        proof {
            assert(log_file_name@ =~= encode_utf8(input.name@) + dot_trk_bytes());
        }

        let mut full_path = slice_to_vec(path_bytes);
        full_path.push(0x2f);
        full_path.extend_from_slice(log_file_name.as_slice());
        proof {
            assert(full_path@ =~= encode_utf8(input.path@) + seq![0x2fu8] + encode_utf8(
                input.name@,
            ) + dot_trk_bytes());
        }

        let mut r = TrickData::default();
        r.log_file = LogFileInfo { header_file_name, log_file_name, full_path };
        r
    }

    /// Decode the given bytes as a whole log, per [`spec_decode_log`], and
    /// store the result here.  On an error nothing of the dataset changes:
    /// no partial dataset is ever exposed.  The recorded file names are kept
    /// either way.
    pub fn read(&mut self, bytes: &[u8]) -> (r: Result<(), DecodeError>)
        ensures
            ({
                match spec_decode_log(bytes@) {
                    Ok(m) => r is Ok && final(self)@ == m && final(self).log_file == old(
                        self,
                    ).log_file,
                    Err(e) => r matches Err(err) && err@ == e && *final(self) == *old(self),
                }
            }),
    {
        match decode_log(bytes) {
            Ok(d) => {
                self.format_tag = d.format_tag;
                self.descriptors = d.descriptors;
                self.data = d.data;
                self.num_params = d.num_params;
                Ok(())
            },
            Err(e) => Err(e),
        }
    }

    /// Index of the first descriptor whose name equals `name`, if any: how
    /// the consumer finds a named variable's column for plotting.
    pub fn find_index(&self, name: &[u8]) -> (r: Option<usize>)
        ensures
            ({
                match r {
                    Some(i) => i < self.descriptors@.len() && self.descriptors@[i as int]@.name
                        == name@ && (forall|j: int|
                        0 <= j < i ==> (#[trigger] self.descriptors@[j])@.name != name@),
                    None => forall|j: int|
                        0 <= j < self.descriptors@.len() ==> (#[trigger] self.descriptors@[j])@.name
                            != name@,
                }
            }),
    {
        let k = self.descriptors.len();
        let mut i: usize = 0;
        while i < k
            invariant
                0 <= i <= k == self.descriptors@.len(),
                forall|j: int| 0 <= j < i ==> (#[trigger] self.descriptors@[j])@.name != name@,
            decreases k - i,
        {
            if bytes_eq(self.descriptors[i].name.as_slice(), name) {
                return Some(i);
            }
            i = i + 1;
        }
        None
    }
}

/// Whether two byte spans hold the same bytes.
pub fn bytes_eq(a: &[u8], b: &[u8]) -> (r: bool)
    ensures
        r == (a@ == b@),
{
    if a.len() != b.len() {
        return false;
    }
    let n = a.len();
    let mut i: usize = 0;
    while i < n
        invariant
            0 <= i <= n == a@.len() == b@.len(),
            forall|j: int| 0 <= j < i ==> a@[j] == b@[j],
        decreases n - i,
    {
        if a[i] != b[i] {
            return false;
        }
        i = i + 1;
    }
    proof {
        assert(a@ =~= b@);
    }
    true
}

/// Decode a whole log from resident bytes, per [`spec_decode_log`]: parse
/// the header, then decode rows until the input is exhausted, and transpose
/// them into one column per descriptor.  On success every column has exactly
/// one sample per row; any error aborts the call and no partial dataset is
/// returned.
pub fn decode_log(bytes: &[u8]) -> (r: Result<TrickData, DecodeError>)
    ensures
        ({
            match spec_decode_log(bytes@) {
                Ok(m) => r matches Ok(d) && d@ == m && d.log_file.full_path@ == Seq::<
                    u8,
                >::empty(),
                Err(e) => r matches Err(err) && err@ == e,
            }
        }),
{
    let ghost s = bytes@;
    let n = bytes.len();
    let (format_tag, descriptors, hdr_end) = match read_header(bytes) {
        Ok(t) => t,
        Err(e) => {
            return Err(e);
        },
    };
    let ghost h = spec_read_header(s)->Ok_0;
    let ghost dv = h.descriptors;
    proof {
        lemma_read_descs_bounds(s, 14, h.num_params as nat);
    }
    let k = descriptors.len();
    let mut rows: Vec<Vec<u64>> = Vec::new();
    let mut pos = hdr_end;
    while pos < n
        invariant
            s == bytes@,
            spec_read_header(s) == Ok::<HeaderView, ErrModel>(h),
            hdr_end as int == h.end,
            dv == h.descriptors,
            dv == descs_view(descriptors@),
            format_tag@ == h.format_tag,
            k as int == h.num_params as int,
            k == descriptors@.len() == dv.len(),
            hdr_end <= pos <= n == s.len(),
            spec_read_rows(s, hdr_end as int, dv) == (match spec_read_rows(s, pos as int, dv) {
                Ok(rest) => Ok(rows_view(rows@) + rest),
                Err(e) => Err::<Seq<Seq<u64>>, ErrModel>(e),
            }),
        decreases n - pos,
    {
        if k == 0 {
            return Err(DecodeError::TruncatedRow { offset: pos });
        }
        match read_row(bytes, pos, &descriptors) {
            Err(e) => {
                return Err(e);
            },
            Ok((rowv, p2)) => {
                proof {
                    lemma_read_row_from_bounds(s, pos as int, dv, 0);
                    lemma_row_width_from_pos(dv, 0);
                    let rest2 = spec_read_rows(s, p2 as int, dv);
                    if rest2 is Ok {
                        assert(rows_view(rows@) + (seq![rowv@] + rest2->Ok_0) =~= rows_view(
                            rows@.push(rowv),
                        ) + rest2->Ok_0);
                    }
                }
                rows.push(rowv);
                pos = p2;
            },
        }
    }
    proof {
        assert(rows_view(rows@) + Seq::<Seq<u64>>::empty() =~= rows_view(rows@));
        lemma_read_rows_shape(s, hdr_end as int, dv);
    }
    let ghost all_rows = spec_read_rows(s, hdr_end as int, dv)->Ok_0;
    proof {
        assert forall|j: int| 0 <= j < rows@.len() implies (#[trigger] rows@[j])@.len() == k by {
            assert(rows_view(rows@)[j] == rows@[j]@);
            assert(all_rows[j].len() == dv.len());
        }
    }
    let rcount = rows.len();
    let mut data: Vec<TrickColumn> = Vec::new();
    let mut c: usize = 0;
    while c < k
        invariant
            0 <= c <= k,
            data@.len() == c as nat,
            rcount == rows@.len(),
            s == bytes@,
            spec_read_header(s) == Ok::<HeaderView, ErrModel>(h),
            dv == h.descriptors,
            dv == descs_view(descriptors@),
            format_tag@ == h.format_tag,
            k as int == h.num_params as int,
            k == descriptors@.len() == dv.len(),
            spec_read_rows(s, h.end, dv) == Ok::<Seq<Seq<u64>>, ErrModel>(all_rows),
            all_rows == rows_view(rows@),
            forall|j: int| 0 <= j < rows@.len() ==> (#[trigger] rows@[j])@.len() == k,
            forall|ci: int|
                0 <= ci < c ==> (#[trigger] data@[ci])@ == Seq::new(
                    rows@.len(),
                    |j: int| rows@[j]@[ci],
                ),
        decreases k - c,
    {
        let mut col: Vec<u64> = Vec::new();
        let mut j: usize = 0;
        while j < rcount
            invariant
                0 <= j <= rcount == rows@.len(),
                0 <= c < k,
                col@.len() == j as nat,
                forall|jj: int| 0 <= jj < rows@.len() ==> (#[trigger] rows@[jj])@.len() == k,
                forall|jj: int| 0 <= jj < j ==> col@[jj] == rows@[jj]@[c as int],
            decreases rcount - j,
        {
            let rj = &rows[j];
            col.push(rj[c]);
            j = j + 1;
        }
        proof {
            assert(col@ =~= Seq::new(rows@.len(), |jj: int| rows@[jj]@[c as int]));
        }
        data.push(TrickColumn { data: col });
        c = c + 1;
    }
    proof {
        assert forall|ci: int| 0 <= ci < k implies #[trigger] cols_view(data@)[ci] =~= columns_of(
            all_rows,
            k as int,
        )[ci] by {
            assert(data@[ci]@ == Seq::new(rows@.len(), |j: int| rows@[j]@[ci]));
        }
        assert(cols_view(data@) =~~= columns_of(all_rows, k as int));
    }
    let num_params: u32 = k as u32;
    Ok(
        TrickData {
            log_file: LogFileInfo::default(),
            format_tag,
            descriptors,
            data,
            num_params,
        },
    )
}

} // verus!
