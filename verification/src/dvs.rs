//! The DVS archive envelope: a fixed header wrapping one zlib-compressed
//! payload whose plaintext is a container file.

use vstd::prelude::*;
use vstd::slice::slice_subrange;
use crate::bytes::{read_le_u32, spec_le_u32};

verus! {

/// How reading a DVS envelope can fail.
#[derive(Clone, Copy, PartialEq, Eq, Structural, Debug)]
pub enum DvsError {
    /// Fewer bytes than the fixed header and payload id demand.
    TruncatedHeader,
    /// The magic number is not FF EE EE DD.
    BadMagic,
    /// The declared payload length cannot even hold the payload id.
    MissingPayloadLength,
    /// The file ends before the declared payload does.
    TruncatedPayload,
    /// The compressed payload cannot be decoded.
    BadPayload,
    /// Bytes remain after the compressed payload ends.
    TrailingData,
}

/// What inflating a byte sequence as a zlib stream yields: the decoded
/// bytes and the count of trailing input bytes the decoder left unread,
/// or nothing when the stream cannot be decoded.
pub uninterp spec fn zlib_inflate(input: Seq<u8>) -> Option<(Seq<u8>, nat)>;

/// Relies on libflate's zlib::Decoder: what a byte slice inflates to is a
/// function of those bytes alone.  On success returns the decoded bytes
/// and how many trailing input bytes the decoder left unread.
#[verifier::external_body]
fn zlib_decode(input: &[u8]) -> (r: Option<(Vec<u8>, usize)>)
    ensures
        match r {
            Some(p) => zlib_inflate(input@) == Some((p.0@, p.1 as nat)) && p.1 <= input@.len(),
            None => zlib_inflate(input@) is None,
        },
{
    let mut reader: &[u8] = input;
    let mut out: Vec<u8> = Vec::new();
    let ok = match libflate::zlib::Decoder::new(&mut reader) {
        Ok(mut dec) => std::io::Read::read_to_end(&mut dec, &mut out).is_ok(),
        Err(_) => false,
    };
    if ok {
        Some((out, reader.len()))
    } else {
        None
    }
}

/// Whether the envelope's 4 magic bytes are present.
pub open spec fn spec_dvs_magic_ok(d: Seq<u8>) -> bool
    recommends
        d.len() >= 4,
{
    &&& d[0] == 0xFF
    &&& d[1] == 0xEE
    &&& d[2] == 0xEE
    &&& d[3] == 0xDD
}

/// What decompressing an envelope with payload length `plen` yields: the
/// compressed stream occupies bytes 29 up to `25 + plen`, must decode,
/// must span its window exactly, and nothing may follow it.
pub open spec fn spec_decompress(d: Seq<u8>, plen: u32) -> Result<Seq<u8>, DvsError>
    recommends
        plen >= 4,
{
    let end = 25 + plen as int;
    if d.len() < end {
        Err(DvsError::TruncatedPayload)
    } else {
        match zlib_inflate(d.subrange(29, end)) {
            None => Err(DvsError::BadPayload),
            Some(p) => if p.1 != 0 || d.len() > end {
                Err(DvsError::TrailingData)
            } else {
                Ok(p.0)
            },
        }
    }
}

/// A DVS envelope over an in-memory byte buffer: 4 magic bytes, 17 bytes
/// of fixed header, a 4-byte payload length, then the payload, which is a
/// 4-byte id followed by a zlib stream.
pub struct File {
    data: Vec<u8>,
    payload_length: u32,
    payload_id: u32,
}

impl File {
    /// The bytes the envelope was opened over.
    pub closed spec fn bytes(&self) -> Seq<u8> {
        self.data@
    }

    /// The declared payload length: the id plus the compressed stream.
    pub closed spec fn payload_len(&self) -> u32 {
        self.payload_length
    }

    /// The id carried in the payload's first 4 bytes.
    pub closed spec fn id(&self) -> u32 {
        self.payload_id
    }

    #[verifier::type_invariant]
    spec fn wf(self) -> bool {
        &&& self.data@.len() >= 29
        &&& spec_dvs_magic_ok(self.data@)
        &&& self.payload_length == spec_le_u32(self.data@, 21)
        &&& self.payload_length >= 4
        &&& self.payload_id == spec_le_u32(self.data@, 25)
    }

    /// Opens an envelope: checks the magic number, reads the payload
    /// length (which must at least cover the payload id) and the id.
    pub fn new(data: Vec<u8>) -> (r: Result<File, DvsError>)
        ensures
            data@.len() < 25 ==> r == Err::<File, DvsError>(DvsError::TruncatedHeader),
            data@.len() >= 25 && !spec_dvs_magic_ok(data@) ==> r == Err::<File, DvsError>(
                DvsError::BadMagic,
            ),
            data@.len() >= 25 && spec_dvs_magic_ok(data@) && spec_le_u32(data@, 21) < 4 ==> r
                == Err::<File, DvsError>(DvsError::MissingPayloadLength),
            data@.len() >= 25 && spec_dvs_magic_ok(data@) && spec_le_u32(data@, 21) >= 4
                && data@.len() < 29 ==> r == Err::<File, DvsError>(DvsError::TruncatedHeader),
            data@.len() >= 29 && spec_dvs_magic_ok(data@) && spec_le_u32(data@, 21) >= 4 ==> (
            r matches Ok(f) && f.bytes() == data@ && f.payload_len() == spec_le_u32(data@, 21)
                && f.id() == spec_le_u32(data@, 25)),
    {
        if data.len() < 25 {
            return Err(DvsError::TruncatedHeader);
        }
        if !(data[0] == 0xFF && data[1] == 0xEE && data[2] == 0xEE && data[3] == 0xDD) {
            return Err(DvsError::BadMagic);
        }
        let payload_length = read_le_u32(&data, 21);
        if payload_length < 4 {
            return Err(DvsError::MissingPayloadLength);
        }
        if data.len() < 29 {
            return Err(DvsError::TruncatedHeader);
        }
        let payload_id = read_le_u32(&data, 25);
        Ok(File { data, payload_length, payload_id })
    }

    /// Decompresses the payload: the zlib stream must decode, span its
    /// declared window exactly, and be the last thing in the file.
    pub fn decompress(&self) -> (r: Result<Vec<u8>, DvsError>)
        ensures
            match r {
                Ok(v) => spec_decompress(self.bytes(), self.payload_len()) == Ok::<
                    Seq<u8>,
                    DvsError,
                >(v@),
                Err(e) => spec_decompress(self.bytes(), self.payload_len()) == Err::<
                    Seq<u8>,
                    DvsError,
                >(e),
            },
    {
        proof {
            use_type_invariant(&*self);
        }
        let dlen: usize = self.data.len();
        let end64: u64 = 25 + self.payload_length as u64;
        if (dlen as u64) < end64 {
            return Err(DvsError::TruncatedPayload);
        }
        let end = end64 as usize;
        let window = slice_subrange(self.data.as_slice(), 29, end);
        match zlib_decode(window) {
            None => Err(DvsError::BadPayload),
            Some((out, remaining)) => {
                if remaining != 0 || dlen > end {
                    Err(DvsError::TrailingData)
                } else {
                    Ok(out)
                }
            },
        }
    }
}

} // verus!
