//! Decoding of the path strings held in the archive's metadata streams:
//! a 4-byte length prefix, then a NUL-terminated UTF-16LE string whose
//! separator characters are normalised.

use vstd::prelude::*;
use crate::bytes::{read_le_u16, spec_le_u16};
use crate::utf16::{decode_utf16_units_vec, spec_utf16_decode, string_from_chars};

verus! {

/// The UTF-16 units of a path stream: everything after the 4-byte length
/// prefix, less the trailing NUL unit.
pub open spec fn spec_path_units(d: Seq<u8>) -> Seq<u16>
    recommends
        d.len() >= 6,
{
    Seq::new(((d.len() - 4) / 2 - 1) as nat, |i: int| spec_le_u16(d, 4 + 2 * i))
}

/// Separator normalisation: a DEL character or either slash becomes `_`
/// when the string names a single path component, and `/` otherwise.
pub open spec fn spec_path_map_char(c: char, as_single_component: bool) -> char {
    if c == '\x7f' || c == '\\' || c == '/' {
        if as_single_component {
            '_'
        } else {
            '/'
        }
    } else {
        c
    }
}

/// The characters denoted by a path stream.
pub open spec fn spec_path_chars(d: Seq<u8>, as_single_component: bool) -> Seq<char> {
    spec_utf16_decode(spec_path_units(d)).map_values(
        |c: char| spec_path_map_char(c, as_single_component),
    )
}

/// Decodes the content of a path metadata stream.  Yields nothing when
/// the stream is too short to hold the length prefix and the NUL unit.
pub fn decode_path_string(bytes: &Vec<u8>, as_single_component: bool) -> (r: Option<String>)
    ensures
        match r {
            Some(s) => bytes@.len() >= 6 && s@ == spec_path_chars(bytes@, as_single_component),
            None => bytes@.len() < 6,
        },
{
    let blen = bytes.len();
    if blen < 6 {
        return None;
    }
    let count: usize = (blen - 4) / 2 - 1;
    let ghost want = spec_path_units(bytes@);
    proof {
        assert(count as int == want.len());
    }
    let mut units: Vec<u16> = Vec::new();
    let mut k: usize = 0;
    while k < count
        invariant
            k <= count,
            count == (blen - 4) / 2 - 1,
            6 <= blen,
            blen == bytes@.len(),
            want == spec_path_units(bytes@),
            count as int == want.len(),
            units@ == want.take(k as int),
        decreases count - k,
    {
        let u = read_le_u16(bytes, 4 + 2 * k);
        units.push(u);
        proof {
            assert(units@ =~= want.take(k as int + 1));
        }
        k = k + 1;
    }
    proof {
        assert(units@ =~= want);
    }
    let chars = decode_utf16_units_vec(&units);
    let ghost mapped_want = spec_path_chars(bytes@, as_single_component);
    let n = chars.len();
    let mut mapped: Vec<char> = Vec::new();
    let mut i: usize = 0;
    while i < n
        invariant
            i <= n,
            n == chars@.len(),
            chars@ == spec_utf16_decode(spec_path_units(bytes@)),
            mapped_want == spec_path_chars(bytes@, as_single_component),
            mapped@ == mapped_want.take(i as int),
        decreases n - i,
    {
        let c = chars[i];
        let out_c = if c == '\x7f' || c == '\\' || c == '/' {
            if as_single_component {
                '_'
            } else {
                '/'
            }
        } else {
            c
        };
        mapped.push(out_c);
        proof {
            assert(mapped@ =~= mapped_want.take(i as int + 1));
        }
        i = i + 1;
    }
    proof {
        assert(mapped@ =~= mapped_want);
    }
    Some(string_from_chars(&mapped))
}

} // verus!
