//! UTF-16 decoding with replacement of unpaired surrogates.

use vstd::prelude::*;

verus! {

/// A Unicode scalar value: any code point except the surrogate range.
pub open spec fn is_unicode_scalar(x: u32) -> bool {
    x < 0xD800 || (0xE000 <= x && x < 0x11_0000)
}

pub open spec fn is_high_surrogate(u: u16) -> bool {
    0xD800 <= u && u < 0xDC00
}

pub open spec fn is_low_surrogate(u: u16) -> bool {
    0xDC00 <= u && u < 0xE000
}

/// The scalar value encoded by a surrogate pair.
pub open spec fn spec_surrogate_pair(hi: u16, lo: u16) -> u32
    recommends
        is_high_surrogate(hi),
        is_low_surrogate(lo),
{
    (0x1_0000 + (hi - 0xD800) * 0x400 + (lo - 0xDC00)) as u32
}

/// The characters denoted by a sequence of UTF-16 code units, where every
/// unpaired surrogate becomes the replacement character U+FFFD.
pub open spec fn spec_utf16_decode(u: Seq<u16>) -> Seq<char>
    decreases u.len(),
{
    if u.len() == 0 {
        Seq::empty()
    } else if is_high_surrogate(u[0]) {
        if u.len() >= 2 && is_low_surrogate(u[1]) {
            seq![(spec_surrogate_pair(u[0], u[1])) as char] + spec_utf16_decode(u.skip(2))
        } else {
            seq!['\u{FFFD}'] + spec_utf16_decode(u.skip(1))
        }
    } else if is_low_surrogate(u[0]) {
        seq!['\u{FFFD}'] + spec_utf16_decode(u.skip(1))
    } else {
        seq![(u[0] as u32) as char] + spec_utf16_decode(u.skip(1))
    }
}

/// Relies on char::from_u32, which returns Some exactly on Unicode scalar
/// values, there giving the char with that value.
#[verifier::external_body]
fn char_from_scalar(x: u32) -> (r: char)
    requires
        is_unicode_scalar(x),
    ensures
        r == (x as char),
{
    char::from_u32(x).unwrap_or('\u{FFFD}')
}

/// Relies on String's FromIterator over char: collecting yields the string
/// of exactly those characters, in order.
#[verifier::external_body]
pub(crate) fn string_from_chars(v: &Vec<char>) -> (r: String)
    ensures
        r@ == v@,
{
    v.iter().collect()
}

/// Decodes a sequence of UTF-16 code units, mapping unpaired surrogates
/// to the replacement character.
pub fn decode_utf16_units_vec(units: &Vec<u16>) -> (r: Vec<char>)
    ensures
        r@ == spec_utf16_decode(units@),
{
    let n = units.len();
    let mut out: Vec<char> = Vec::new();
    let mut i: usize = 0;
    proof {
        assert(units@.skip(0) =~= units@);
        assert(out@ + spec_utf16_decode(units@) =~= spec_utf16_decode(units@));
    }
    while i < n
        invariant
            n == units@.len(),
            i <= n,
            spec_utf16_decode(units@) == out@ + spec_utf16_decode(units@.skip(i as int)),
        decreases n - i,
    {
        let u0 = units[i];
        let ghost rest = units@.skip(i as int);
        proof {
            assert(rest[0] == units@[i as int]);
        }
        if 0xD800 <= u0 && u0 < 0xDC00 {
            if i + 1 < n && 0xDC00 <= units[i + 1] && units[i + 1] < 0xE000 {
                let u1 = units[i + 1];
                proof {
                    assert(rest[1] == units@[i as int + 1]);
                    assert(rest.skip(2) =~= units@.skip(i as int + 2));
                }
                let hi = (u0 - 0xD800) as u32;
                let lo = (u1 - 0xDC00) as u32;
                let scalar = 0x1_0000 + hi * 0x400 + lo;
                let c = char_from_scalar(scalar);
                out.push(c);
                i = i + 2;
            } else {
                proof {
                    assert(rest.skip(1) =~= units@.skip(i as int + 1));
                    if i + 1 < n {
                        assert(rest[1] == units@[i as int + 1]);
                    }
                }
                out.push('\u{FFFD}');
                i = i + 1;
            }
        } else {
            proof {
                assert(rest.skip(1) =~= units@.skip(i as int + 1));
            }
            if 0xDC00 <= u0 && u0 < 0xE000 {
                out.push('\u{FFFD}');
            } else {
                let c = char_from_scalar(u0 as u32);
                out.push(c);
            }
            i = i + 1;
        }
    }
    proof {
        assert(units@.skip(n as int) =~= Seq::<u16>::empty());
        assert(out@ + Seq::<char>::empty() =~= out@);
    }
    out
}

/// Decodes a sequence of UTF-16 code units into a string, mapping
/// unpaired surrogates to the replacement character.
pub fn decode_utf16_units(units: &Vec<u16>) -> (r: String)
    ensures
        r@ == spec_utf16_decode(units@),
{
    let chars = decode_utf16_units_vec(units);
    string_from_chars(&chars)
}

} // verus!
