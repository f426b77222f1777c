//! Length-prefixed UTF-8 strings: a VarInt byte count followed by that
//! many bytes. Writing always emits well-formed UTF-8; reading replaces
//! invalid sequences lossily and refuses byte counts over a hard cap.

use vstd::prelude::*;
use vstd::slice::slice_subrange;
use vstd::string::StrSliceExecFns;
use vstd::utf8::{decode_utf8, encode_utf8, encode_utf8_decode_utf8, encode_utf8_valid_utf8,
    valid_utf8};

use crate::error::CodecError;
use crate::varint::{read_varint, varint_bytes, varint_decode, write_varint, VarIntDecode,
    lemma_varint_round_trip};

verus! {

/// The hard cap on the byte length a reader accepts for one string field.
pub const MAX_STRING_LENGTH: usize = 32767;

/// What `String::from_utf8_lossy` yields on bytes that are not valid
/// UTF-8. On valid UTF-8 the function is `decode_utf8` instead, so this
/// name is only ever applied to invalid bytes.
pub uninterp spec fn lossy_decoded(bytes: Seq<u8>) -> Seq<char>;

/// The characters a reader recovers from raw string-field bytes.
pub open spec fn recovered_chars(bytes: Seq<u8>) -> Seq<char> {
    if valid_utf8(bytes) {
        decode_utf8(bytes)
    } else {
        lossy_decoded(bytes)
    }
}

/// Relies on `String::from_utf8_lossy`: valid UTF-8 decodes exactly to
/// its characters, and any other input is replaced lossily, as a pure
/// function of the bytes alone.
#[verifier::external_body]
fn bytes_to_string_lossy(bytes: &[u8]) -> (r: String)
    ensures
        valid_utf8(bytes@) ==> r@ == decode_utf8(bytes@),
        !valid_utf8(bytes@) ==> r@ == lossy_decoded(bytes@),
{
    String::from_utf8_lossy(bytes).into_owned()
}

/// The wire form of a string field: the VarInt byte count of the UTF-8
/// encoding, then the encoding itself.
pub open spec fn string_bytes(s: Seq<char>) -> Seq<u8> {
    varint_bytes(encode_utf8(s).len() as i32) + encode_utf8(s)
}

/// What reading a string field from the front of `bytes` yields: the
/// recovered characters and the total number of bytes consumed.
pub open spec fn string_decode(bytes: Seq<u8>) -> Result<(Seq<char>, int), CodecError> {
    match varint_decode(bytes) {
        VarIntDecode::Done { value, length } => {
            if value < 0 {
                Err(CodecError::MalformedPacket)
            } else if value > MAX_STRING_LENGTH {
                Err(CodecError::StringTooLong)
            } else if length + value > bytes.len() {
                Err(CodecError::Incomplete)
            } else {
                Ok((recovered_chars(bytes.subrange(length, length + value)), length + value))
            }
        },
        VarIntDecode::TooLong => Err(CodecError::MalformedVarInt),
        VarIntDecode::NeedMore => Err(CodecError::Incomplete),
    }
}

/// Append the wire form of `s` to `out`.
pub fn write_string(out: &mut Vec<u8>, s: &str)
    requires
        encode_utf8(s@).len() <= 0x7fff_ffff,
    ensures
        final(out)@ == old(out)@ + string_bytes(s@),
{
    let bytes: &[u8] = s.as_bytes();
    let len: usize = bytes.len();
    let prefix = write_varint(len as i32);
    out.extend_from_slice(prefix.as_slice());
    out.extend_from_slice(bytes);
    proof {
        assert(out@ =~= old(out)@ + string_bytes(s@));
    }
}

/// Read a string field from `data` beginning at `start`; on success the
/// returned offset points just past the field.
pub fn read_string(data: &[u8], start: usize) -> (r: Result<(String, usize), CodecError>)
    requires
        start <= data@.len(),
    ensures
        match r {
            Ok((s, end)) => {
                &&& string_decode(data@.skip(start as int)) matches Ok((chars, used)) && s@
                    == chars && end as int == start + used
                &&& start <= end <= data@.len()
            },
            Err(e) => string_decode(data@.skip(start as int)) == Err::<(Seq<char>, int), CodecError>(e),
        },
{
    let ghost tail = data@.skip(start as int);
    let vi = match read_varint(data, start) {
        Ok(vi) => vi,
        Err(e) => {
            return Err(e);
        },
    };
    if vi.value < 0 {
        return Err(CodecError::MalformedPacket);
    }
    if vi.value > MAX_STRING_LENGTH as i32 {
        return Err(CodecError::StringTooLong);
    }
    let n: usize = vi.value as usize;
    let p: usize = vi.length as usize;
    let total = data.len();
    if n > total - (start + p) {
        proof {
            assert(vi.length + vi.value > tail.len());
        }
        return Err(CodecError::Incomplete);
    }
    let body: &[u8] = slice_subrange(data, start + p, start + p + n);
    proof {
        assert(body@ =~= tail.subrange(vi.length as int, vi.length as int + vi.value as int));
    }
    let s = bytes_to_string_lossy(body);
    Ok((s, start + p + n))
}

/// String round trip: a written string followed by anything at all
/// reads back as exactly the same characters, consuming exactly the
/// written bytes.
pub proof fn lemma_string_round_trip(s: Seq<char>, rest: Seq<u8>)
    requires
        encode_utf8(s).len() <= MAX_STRING_LENGTH,
    ensures
        string_decode(string_bytes(s) + rest) == Ok::<(Seq<char>, int), CodecError>(
            (s, string_bytes(s).len() as int),
        ),
{
    let enc = encode_utf8(s);
    let prefix = varint_bytes(enc.len() as i32);
    lemma_varint_round_trip(enc.len() as i32, enc + rest);
    let whole = string_bytes(s) + rest;
    assert(whole =~= prefix + (enc + rest));
    let len = prefix.len() as int;
    assert(varint_decode(whole) == (VarIntDecode::Done {
        value: enc.len() as int,
        length: len,
    }));
    assert(whole.subrange(len, len + enc.len()) =~= enc);
    encode_utf8_valid_utf8(s);
    encode_utf8_decode_utf8(s);
}

} // verus!
