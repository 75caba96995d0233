//! NUL-terminated text spans.
//!
//! Names and units in a log header are stored as length-prefixed byte spans
//! holding NUL-terminated text.  This module cuts a span at its first NUL and
//! decides, executably and against vstd's UTF-8 specification, whether the
//! prefix is valid text.

use vstd::prelude::*;
use vstd::slice::{slice_subrange, slice_to_vec};
use vstd::utf8::{
    codepoint_width_2, codepoint_width_3, codepoint_width_4, decode_first_codepoint,
    is_continuation_byte, is_leading_byte_width_1, is_leading_byte_width_2,
    is_leading_byte_width_3, is_leading_byte_width_4, length_of_first_codepoint, not_overlong_encoding,
    not_surrogate, partial_valid_partial_invalid_utf8, partial_valid_utf8, partial_valid_utf8_extend,
    valid_first_scalar, valid_leading_and_continuation_bytes_first_codepoint, valid_utf8,
};

verus! {

/// Index of the first NUL byte of `s`, or `s.len()` if there is none.
pub open spec fn nul_cut(s: Seq<u8>) -> int
    decreases s.len(),
{
    if s.len() == 0 {
        0
    } else if s[0] == 0 {
        0
    } else {
        1 + nul_cut(s.skip(1))
    }
}

/// The prefix of `s` up to (excluding) its first NUL byte, or all of `s` if
/// no NUL is present.
pub open spec fn nul_prefix(s: Seq<u8>) -> Seq<u8> {
    s.subrange(0, nul_cut(s))
}

pub proof fn lemma_nul_cut(s: Seq<u8>)
    ensures
        0 <= nul_cut(s) <= s.len(),
        forall|j: int| 0 <= j < nul_cut(s) ==> s[j] != 0,
        nul_cut(s) < s.len() ==> s[nul_cut(s)] == 0,
    decreases s.len(),
{
    if s.len() == 0 {
    } else if s[0] == 0 {
    } else {
        lemma_nul_cut(s.skip(1));
        assert forall|j: int| 0 <= j < nul_cut(s) implies s[j] != 0 by {
            if j > 0 {
                assert(s.skip(1)[j - 1] != 0);
            }
        }
        if nul_cut(s) < s.len() {
            assert(s.skip(1)[nul_cut(s) - 1] == 0);
        }
    }
}

pub proof fn lemma_nul_cut_is(s: Seq<u8>, i: int)
    requires
        0 <= i <= s.len(),
        forall|j: int| 0 <= j < i ==> s[j] != 0,
        i < s.len() ==> s[i] == 0,
    ensures
        nul_cut(s) == i,
    decreases i,
{
    if i == 0 {
    } else {
        assert(s[0] != 0);
        let t = s.skip(1);
        assert forall|j: int| 0 <= j < i - 1 implies t[j] != 0 by {
            assert(t[j] == s[j + 1]);
        }
        assert(i - 1 < t.len() ==> t[i - 1] == 0);
        lemma_nul_cut_is(t, i - 1);
    }
}

/// Index of the first NUL byte, or the span's length if there is none.
pub fn nul_cut_index(bytes: &[u8]) -> (i: usize)
    ensures
        i as int == nul_cut(bytes@),
{
    let n = bytes.len();
    let mut i: usize = 0;
    while i < n && bytes[i] != 0
        invariant
            0 <= i <= n == bytes@.len(),
            forall|j: int| 0 <= j < i ==> bytes@[j] != 0,
        decreases n - i,
    {
        i = i + 1;
    }
    proof {
        lemma_nul_cut_is(bytes@, i as int);
    }
    i
}

/// Whether `bytes` is valid UTF-8 text, decided executably against vstd's
/// UTF-8 specification.
pub fn is_valid_text(bytes: &[u8]) -> (b: bool)
    ensures
        b == valid_utf8(bytes@),
{
    let ghost s = bytes@;
    let n = bytes.len();
    let mut i: usize = 0;
    while i < n
        invariant
            0 <= i <= n == s.len(),
            s == bytes@,
            partial_valid_utf8(s, i as int),
        decreases n - i,
    {
        let ghost suffix = s.subrange(i as int, n as int);
        let b0 = bytes[i];
        let rem = n - i;
        let w: usize;
        if b0 < 0x80 {
            w = 1;
            proof {
                assert(is_leading_byte_width_1(suffix[0]));
                assert(valid_first_scalar(suffix));
            }
        } else if 0xc0 <= b0 && b0 <= 0xdf {
            if rem < 2 || !(0x80 <= bytes[i + 1] && bytes[i + 1] <= 0xbf) {
                proof {
                    assert(!valid_leading_and_continuation_bytes_first_codepoint(suffix));
                    partial_valid_partial_invalid_utf8(s, i as int);
                }
                return false;
            }
            let b1 = bytes[i + 1];
            let cp: u32 = (((b0 & 0x1f) as u32) << 6u32) | ((b1 & 0x3f) as u32);
            if cp < 0x80 {
                proof {
                    assert(decode_first_codepoint(suffix) == cp);
                    assert(!valid_first_scalar(suffix));
                    partial_valid_partial_invalid_utf8(s, i as int);
                }
                return false;
            }
            w = 2;
            proof {
                assert(decode_first_codepoint(suffix) == cp);
                assert(cp <= 0x7ff) by (bit_vector)
                    requires
                        cp == (((b0 & 0x1f) as u32) << 6u32) | ((b1 & 0x3f) as u32),
                ;
                assert(valid_first_scalar(suffix));
            }
        } else if 0xe0 <= b0 && b0 <= 0xef {
            if rem < 3 || !(0x80 <= bytes[i + 1] && bytes[i + 1] <= 0xbf) || !(0x80 <= bytes[i + 2]
                && bytes[i + 2] <= 0xbf) {
                proof {
                    assert(!valid_leading_and_continuation_bytes_first_codepoint(suffix));
                    partial_valid_partial_invalid_utf8(s, i as int);
                }
                return false;
            }
            let cp: u32 = (((b0 & 0x0f) as u32) << 12u32) | (((bytes[i + 1] & 0x3f) as u32)
                << 6u32) | ((bytes[i + 2] & 0x3f) as u32);
            if cp < 0x800 || (0xd800 <= cp && cp <= 0xdfff) {
                proof {
                    assert(decode_first_codepoint(suffix) == cp);
                    assert(!valid_first_scalar(suffix));
                    partial_valid_partial_invalid_utf8(s, i as int);
                }
                return false;
            }
            w = 3;
            proof {
                assert(decode_first_codepoint(suffix) == cp);
                assert(valid_first_scalar(suffix));
            }
        } else if 0xf0 <= b0 && b0 <= 0xf7 {
            if rem < 4 || !(0x80 <= bytes[i + 1] && bytes[i + 1] <= 0xbf) || !(0x80 <= bytes[i + 2]
                && bytes[i + 2] <= 0xbf) || !(0x80 <= bytes[i + 3] && bytes[i + 3] <= 0xbf) {
                proof {
                    assert(!valid_leading_and_continuation_bytes_first_codepoint(suffix));
                    partial_valid_partial_invalid_utf8(s, i as int);
                }
                return false;
            }
            let cp: u32 = (((b0 & 0x07) as u32) << 18u32) | (((bytes[i + 1] & 0x3f) as u32)
                << 12u32) | (((bytes[i + 2] & 0x3f) as u32) << 6u32) | ((bytes[i + 3]
                & 0x3f) as u32);
            if cp < 0x10000 || cp > 0x10ffff {
                proof {
                    assert(decode_first_codepoint(suffix) == cp);
                    assert(!valid_first_scalar(suffix));
                    partial_valid_partial_invalid_utf8(s, i as int);
                }
                return false;
            }
            w = 4;
            proof {
                assert(decode_first_codepoint(suffix) == cp);
                assert(valid_first_scalar(suffix));
            }
        } else {
            proof {
                assert(!valid_leading_and_continuation_bytes_first_codepoint(suffix));
                partial_valid_partial_invalid_utf8(s, i as int);
            }
            return false;
        }
        proof {
            assert(length_of_first_codepoint(suffix) == w);
            partial_valid_utf8_extend(s, i as int);
        }
        i = i + w;
    }
    proof {
        assert(s.subrange(0, n as int) =~= s);
    }
    true
}

/// Cut a byte span at its first NUL and return the prefix if it is valid
/// text, as the emitting tool's C strings are read: the whole span counts
/// when no NUL is present.
pub fn c_string(bytes: &[u8]) -> (r: Option<Vec<u8>>)
    ensures
        match r {
            Some(v) => valid_utf8(nul_prefix(bytes@)) && v@ == nul_prefix(bytes@),
            None => !valid_utf8(nul_prefix(bytes@)),
        },
{
    proof {
        lemma_nul_cut(bytes@);
    }
    let cut = nul_cut_index(bytes);
    let prefix = slice_subrange(bytes, 0, cut);
    if is_valid_text(prefix) {
        Some(slice_to_vec(prefix))
    } else {
        None
    }
}

} // verus!
