//! The length-prefixed section codec.
//!
//! A backup file is a sequence of sections. Each section is a 5-byte
//! big-endian length prefix followed by that many payload bytes. Five bytes
//! can express lengths up to 2^40 - 1.

use vstd::prelude::*;

use crate::types::BackupError;
use crate::types::BackupResult;
use crate::types::IoErrorKind;

verus! {

/// The length of the size portion of each section of data.
pub const LEN_SIZE: usize = 5;

/// One more than the largest length a 5-byte big-endian prefix can encode.
pub const MAX_SECTION_LEN: u64 = 0x100_0000_0000;

/// The value that a 5-byte big-endian length prefix denotes.
pub open spec fn decode_len_spec(s: Seq<u8>) -> nat
    recommends
        s.len() == 5,
{
    ((((s[0] as nat * 256 + s[1] as nat) * 256 + s[2] as nat) * 256 + s[3] as nat) * 256
        + s[4] as nat)
}

/// The 5-byte big-endian encoding of a section length.
pub open spec fn encode_len_spec(n: nat) -> Seq<u8> {
    seq![
        ((n / 0x1_0000_0000) % 256) as u8,
        ((n / 0x100_0000) % 256) as u8,
        ((n / 0x1_0000) % 256) as u8,
        ((n / 0x100) % 256) as u8,
        (n % 256) as u8,
    ]
}

/// Decoding inverts encoding for every length below 2^40.
pub proof fn lemma_decode_of_encode(n: nat)
    requires
        n < 0x100_0000_0000,
    ensures
        encode_len_spec(n).len() == 5,
        decode_len_spec(encode_len_spec(n)) == n,
{
    let s = encode_len_spec(n);
    assert(s[0] as nat == n / 0x1_0000_0000) by {
        assert(n / 0x1_0000_0000 < 256);
    }
    assert(decode_len_spec(s) == n) by {
        assert(n / 0x1_0000_0000 * 0x1_0000_0000 + n % 0x1_0000_0000 == n);
        assert(n % 0x1_0000_0000 / 0x100_0000 == n / 0x100_0000 % 256);
        assert(n % 0x100_0000 / 0x1_0000 == n / 0x1_0000 % 256);
        assert(n % 0x1_0000 / 0x100 == n / 0x100 % 256);
        assert(n / 0x100_0000 % 256 * 0x100_0000 + n % 0x100_0000 == n % 0x1_0000_0000);
        assert(n / 0x1_0000 % 256 * 0x1_0000 + n % 0x1_0000 == n % 0x100_0000);
        assert(n / 0x100 % 256 * 0x100 + n % 0x100 == n % 0x1_0000);
    }
}

/// Encodes the size portion of a section of data.
pub fn encode_section_size(size: usize) -> (r: [u8; 5])
    requires
        size < MAX_SECTION_LEN,
    ensures
        r@ == encode_len_spec(size as nat),
        decode_len_spec(r@) == size,
{
    let wide = size as u64;
    let b0 = ((wide / 0x1_0000_0000) % 256) as u8;
    let b1 = ((wide / 0x100_0000) % 256) as u8;
    let b2 = ((wide / 0x1_0000) % 256) as u8;
    let b3 = ((wide / 0x100) % 256) as u8;
    let b4 = (wide % 256) as u8;
    let r = [b0, b1, b2, b3, b4];
    proof {
        assert(r@ =~= encode_len_spec(size as nat));
        lemma_decode_of_encode(size as nat);
    }
    r
}

/// Decodes a 5-byte big-endian length prefix found at `pos` in `data`.
pub fn decode_section_size_at(data: &[u8], pos: usize) -> (r: u64)
    requires
        pos + 5 <= data@.len(),
    ensures
        r == decode_len_spec(data@.subrange(pos as int, pos as int + 5)),
        r < MAX_SECTION_LEN,
{
    let b0 = data[pos] as u64;
    let b1 = data[pos + 1] as u64;
    let b2 = data[pos + 2] as u64;
    let b3 = data[pos + 3] as u64;
    let b4 = data[pos + 4] as u64;
    (((b0 * 256 + b1) * 256 + b2) * 256 + b3) * 256 + b4
}

/// Decodes the size portion of a section of data.
pub fn decode_section_size(encoded_size: &[u8; 5]) -> (r: u64)
    ensures
        r == decode_len_spec(encoded_size@),
        r < MAX_SECTION_LEN,
{
    let s = encoded_size.as_slice();
    let r = decode_section_size_at(s, 0);
    proof {
        assert(s@.subrange(0, 5) =~= encoded_size@);
    }
    r
}

/// A section frame: the encoded length prefix followed by the payload.
pub open spec fn frame_bytes(payload: Seq<u8>) -> Seq<u8> {
    encode_len_spec(payload.len()) + payload
}

/// The byte stream that a sequence of section payloads produces.
pub open spec fn sections_bytes(payloads: Seq<Seq<u8>>) -> Seq<u8>
    decreases payloads.len(),
{
    if payloads.len() == 0 {
        Seq::empty()
    } else {
        frame_bytes(payloads.first()) + sections_bytes(payloads.drop_first())
    }
}

/// Appending one payload to a section stream appends one frame.
pub proof fn lemma_sections_bytes_push(payloads: Seq<Seq<u8>>, payload: Seq<u8>)
    ensures
        sections_bytes(payloads.push(payload)) == sections_bytes(payloads) + frame_bytes(payload),
    decreases payloads.len(),
{
    if payloads.len() == 0 {
        assert(payloads.push(payload).drop_first() =~= payloads);
        assert(payloads.push(payload).first() == payload);
        assert(sections_bytes(payloads.push(payload)) =~= sections_bytes(payloads) + frame_bytes(
            payload,
        ));
    } else {
        lemma_sections_bytes_push(payloads.drop_first(), payload);
        assert(payloads.push(payload).drop_first() =~= payloads.drop_first().push(payload));
        assert(sections_bytes(payloads.push(payload)) =~= sections_bytes(payloads) + frame_bytes(
            payload,
        ));
    }
}

/// What reading one section from the front of a byte stream yields.
pub enum SectionParse {
    /// The stream is empty: a clean end.
    End,
    /// The stream ends inside a length prefix or inside a declared payload.
    Short,
    /// A whole section: its payload and the length of the frame read.
    Frame(Seq<u8>, int),
}

/// Parses the first section frame of a byte stream.
pub open spec fn section_parse(data: Seq<u8>) -> SectionParse {
    if data.len() == 0 {
        SectionParse::End
    } else if data.len() < 5 {
        SectionParse::Short
    } else {
        let l = decode_len_spec(data.take(5)) as int;
        if data.len() < 5 + l {
            SectionParse::Short
        } else {
            SectionParse::Frame(data.subrange(5, 5 + l), 5 + l)
        }
    }
}

/// Parsing a stream that begins with a whole frame recovers its payload, and
/// skipping the frame leaves the rest of the stream.
pub proof fn lemma_parse_frame(payload: Seq<u8>, rest: Seq<u8>)
    requires
        payload.len() < 0x100_0000_0000,
    ensures
        section_parse(frame_bytes(payload) + rest) == SectionParse::Frame(
            payload,
            5 + payload.len() as int,
        ),
        (frame_bytes(payload) + rest).skip(5 + payload.len() as int) == rest,
{
    let data = frame_bytes(payload) + rest;
    lemma_decode_of_encode(payload.len());
    assert(data.take(5) =~= encode_len_spec(payload.len()));
    assert(data.len() == 5 + payload.len() + rest.len());
    assert(data.subrange(5, 5 + payload.len() as int) =~= payload);
    assert(data.skip(5 + payload.len() as int) =~= rest);
}

/// Writes a section of data onto the end of a byte buffer.
pub fn write_section(out: &mut Vec<u8>, data: &[u8])
    requires
        data@.len() < MAX_SECTION_LEN,
    ensures
        final(out)@ == old(out)@ + frame_bytes(data@),
{
    let encoded_size = encode_section_size(data.len());
    out.extend_from_slice(encoded_size.as_slice());
    out.extend_from_slice(data);
    proof {
        assert(final(out)@ =~= old(out)@ + frame_bytes(data@));
    }
}

/// Reads the section that starts at `pos` in a byte buffer.
///
/// Returns `Ok(None)` when `pos` is the clean end of the buffer,
/// `Ok(Some((payload, next)))` for a whole section ending at `next`, and an
/// unexpected-end-of-file error when the buffer ends inside the length prefix
/// or inside the declared payload.
pub fn read_section(data: &[u8], pos: usize) -> (r: BackupResult<Option<(Vec<u8>, usize)>>)
    requires
        pos <= data@.len(),
    ensures
        match r {
            Ok(None) => section_parse(data@.skip(pos as int)) == SectionParse::End,
            Ok(Some((payload, next))) => {
                &&& section_parse(data@.skip(pos as int)) == SectionParse::Frame(
                    payload@,
                    next - pos,
                )
                &&& pos + 5 <= next <= data@.len()
            },
            Err(e) => {
                &&& section_parse(data@.skip(pos as int)) == SectionParse::Short
                &&& e == BackupError::IoError(IoErrorKind::UnexpectedEof)
            },
        },
{
    let ghost suffix = data@.skip(pos as int);
    if pos == data.len() {
        return Ok(None);
    }
    if data.len() - pos < 5 {
        return Err(BackupError::IoError(IoErrorKind::UnexpectedEof));
    }
    let l = decode_section_size_at(data, pos);
    proof {
        assert(data@.subrange(pos as int, pos as int + 5) =~= suffix.take(5));
    }
    if ((data.len() - pos - 5) as u64) < l {
        return Err(BackupError::IoError(IoErrorKind::UnexpectedEof));
    }
    let next = pos + 5 + (l as usize);
    let payload = vstd::slice::slice_to_vec(vstd::slice::slice_subrange(data, pos + 5, next));
    proof {
        assert(payload@ =~= suffix.subrange(5, 5 + l));
    }
    Ok(Some((payload, next)))
}

/// Gets the chunk size declared by a backup byte stream: the decoded value of
/// its very first 5-byte length prefix.
pub fn get_chunk_size(data: &[u8]) -> (r: BackupResult<u64>)
    ensures
        match r {
            Ok(size) => data@.len() >= 5 && size == decode_len_spec(data@.take(5)),
            Err(e) => data@.len() < 5 && e == BackupError::IoError(IoErrorKind::UnexpectedEof),
        },
{
    if data.len() < 5 {
        return Err(BackupError::IoError(IoErrorKind::UnexpectedEof));
    }
    let r = decode_section_size_at(data, 0);
    proof {
        assert(data@.subrange(0, 5) =~= data@.take(5));
    }
    Ok(r)
}

} // verus!
