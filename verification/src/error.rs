use vstd::prelude::*;

verus! {

/// A framing-level failure while reading or writing protocol data.
///
/// Every reader in the codec returns one of these instead of panicking:
/// a peer can send arbitrary bytes, and the contracts below say exactly
/// which bytes produce which error.
#[derive(Clone, Copy, Debug, PartialEq, Eq, Structural)]
pub enum CodecError {
    /// A VarInt encoding demanded a sixth byte.
    MalformedVarInt,
    /// A packet's declared lengths are inconsistent or out of bounds.
    MalformedPacket,
    /// A packet arrived with an id other than the one the phase expects.
    UnexpectedPacket,
    /// A length-prefixed string declared more bytes than the reader allows.
    StringTooLong,
    /// The buffer ends before the item is complete; the caller should
    /// supply more bytes and retry.
    Incomplete,
}

impl CodecError {
    /// A short, stable name for the error, for logs and messages.
    pub fn describe(&self) -> (r: &'static str)
        ensures
            r@ == self.spec_describe(),
    {
        proof {
            reveal_strlit("malformed VarInt");
            reveal_strlit("malformed packet");
            reveal_strlit("unexpected packet");
            reveal_strlit("string too long");
            reveal_strlit("incomplete data");
        }
        match self {
            CodecError::MalformedVarInt => "malformed VarInt",
            CodecError::MalformedPacket => "malformed packet",
            CodecError::UnexpectedPacket => "unexpected packet",
            CodecError::StringTooLong => "string too long",
            CodecError::Incomplete => "incomplete data",
        }
    }

    pub open spec fn spec_describe(&self) -> Seq<char> {
        match self {
            CodecError::MalformedVarInt => "malformed VarInt"@,
            CodecError::MalformedPacket => "malformed packet"@,
            CodecError::UnexpectedPacket => "unexpected packet"@,
            CodecError::StringTooLong => "string too long"@,
            CodecError::Incomplete => "incomplete data"@,
        }
    }
}

} // verus!
