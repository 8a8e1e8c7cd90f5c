//! STUN error kinds and the ERROR-CODE attribute value.

use vstd::prelude::*;
use crate::util::{spec_be16, spec_as_u16, as_u16, put_u16, put_bytes};

verus! {

/// The error kinds the relay emits, mapped to STUN error codes.
#[derive(Clone, Copy, PartialEq, Eq, Structural, Debug)]
pub enum ErrKind {
    TryAlternate,
    BadRequest,
    Unauthorized,
    Forbidden,
    RequestTimedout,
    UnknownAttribute,
    AllocationMismatch,
    StaleNonce,
    AddressFamilyNotSupported,
    WrongCredentials,
    UnsupportedTransportAddress,
    AllocationQuotaReached,
    ServerError,
    InsufficientCapacity,
}

/// The 16-bit code carried on the wire for each error kind: the class
/// in the high byte, the number in the low byte.
pub open spec fn spec_err_code(k: ErrKind) -> u16 {
    match k {
        ErrKind::TryAlternate => 0x0300,
        ErrKind::BadRequest => 0x0400,
        ErrKind::Unauthorized => 0x0401,
        ErrKind::Forbidden => 0x0403,
        ErrKind::RequestTimedout => 0x0408,
        ErrKind::UnknownAttribute => 0x0420,
        ErrKind::AllocationMismatch => 0x0437,
        ErrKind::StaleNonce => 0x0438,
        ErrKind::AddressFamilyNotSupported => 0x0440,
        ErrKind::WrongCredentials => 0x0441,
        ErrKind::UnsupportedTransportAddress => 0x0442,
        ErrKind::AllocationQuotaReached => 0x0486,
        ErrKind::ServerError => 0x0500,
        ErrKind::InsufficientCapacity => 0x0508,
    }
}

/// The reason phrase for each error kind.
pub open spec fn spec_err_reason(k: ErrKind) -> Seq<u8> {
    match k {
        ErrKind::TryAlternate => seq![84u8, 114, 121, 32, 65, 108, 116, 101, 114, 110, 97, 116, 101],
        ErrKind::BadRequest => seq![66u8, 97, 100, 32, 82, 101, 113, 117, 101, 115, 116],
        ErrKind::Unauthorized => seq![85u8, 110, 97, 117, 116, 104, 111, 114, 105, 122, 101, 100],
        ErrKind::Forbidden => seq![70u8, 111, 114, 98, 105, 100, 100, 101, 110],
        ErrKind::RequestTimedout => seq![82u8, 101, 113, 117, 101, 115, 116, 32, 84, 105, 109, 101, 100, 32, 111, 117, 116],
        ErrKind::UnknownAttribute => seq![85u8, 110, 107, 110, 111, 119, 110, 32, 65, 116, 116, 114, 105, 98, 117, 116, 101],
        ErrKind::AllocationMismatch => seq![65u8, 108, 108, 111, 99, 97, 116, 105, 111, 110, 32, 77, 105, 115, 109, 97, 116, 99, 104],
        ErrKind::StaleNonce => seq![83u8, 116, 97, 108, 101, 32, 78, 111, 110, 99, 101],
        ErrKind::AddressFamilyNotSupported => seq![65u8, 100, 100, 114, 101, 115, 115, 32, 70, 97, 109, 105, 108, 121, 32, 110, 111, 116, 32, 83, 117, 112, 112, 111, 114, 116, 101, 100],
        ErrKind::WrongCredentials => seq![87u8, 114, 111, 110, 103, 32, 67, 114, 101, 100, 101, 110, 116, 105, 97, 108, 115],
        ErrKind::UnsupportedTransportAddress => seq![85u8, 110, 115, 117, 112, 112, 111, 114, 116, 101, 100, 32, 84, 114, 97, 110, 115, 112, 111, 114, 116, 32, 65, 100, 100, 114, 101, 115, 115],
        ErrKind::AllocationQuotaReached => seq![65u8, 108, 108, 111, 99, 97, 116, 105, 111, 110, 32, 81, 117, 111, 116, 97, 32, 82, 101, 97, 99, 104, 101, 100],
        ErrKind::ServerError => seq![83u8, 101, 114, 118, 101, 114, 32, 69, 114, 114, 111, 114],
        ErrKind::InsufficientCapacity => seq![73u8, 110, 115, 117, 102, 102, 105, 99, 105, 101, 110, 116, 32, 67, 97, 112, 97, 99, 105, 116, 121],
    }
}

impl ErrKind {
    /// The wire code of this kind.
    pub fn code(&self) -> (r: u16)
        ensures
            r == spec_err_code(*self),
    {
        match self {
            ErrKind::TryAlternate => 0x0300,
            ErrKind::BadRequest => 0x0400,
            ErrKind::Unauthorized => 0x0401,
            ErrKind::Forbidden => 0x0403,
            ErrKind::RequestTimedout => 0x0408,
            ErrKind::UnknownAttribute => 0x0420,
            ErrKind::AllocationMismatch => 0x0437,
            ErrKind::StaleNonce => 0x0438,
            ErrKind::AddressFamilyNotSupported => 0x0440,
            ErrKind::WrongCredentials => 0x0441,
            ErrKind::UnsupportedTransportAddress => 0x0442,
            ErrKind::AllocationQuotaReached => 0x0486,
            ErrKind::ServerError => 0x0500,
            ErrKind::InsufficientCapacity => 0x0508,
        }
    }

    /// The reason phrase of this kind.
    pub fn reason(&self) -> (r: Vec<u8>)
        ensures
            r@ == spec_err_reason(*self),
    {
        match self {
            ErrKind::TryAlternate => vec![84u8, 114, 121, 32, 65, 108, 116, 101, 114, 110, 97, 116, 101],
            ErrKind::BadRequest => vec![66u8, 97, 100, 32, 82, 101, 113, 117, 101, 115, 116],
            ErrKind::Unauthorized => vec![85u8, 110, 97, 117, 116, 104, 111, 114, 105, 122, 101, 100],
            ErrKind::Forbidden => vec![70u8, 111, 114, 98, 105, 100, 100, 101, 110],
            ErrKind::RequestTimedout => vec![82u8, 101, 113, 117, 101, 115, 116, 32, 84, 105, 109, 101, 100, 32, 111, 117, 116],
            ErrKind::UnknownAttribute => vec![85u8, 110, 107, 110, 111, 119, 110, 32, 65, 116, 116, 114, 105, 98, 117, 116, 101],
            ErrKind::AllocationMismatch => vec![65u8, 108, 108, 111, 99, 97, 116, 105, 111, 110, 32, 77, 105, 115, 109, 97, 116, 99, 104],
            ErrKind::StaleNonce => vec![83u8, 116, 97, 108, 101, 32, 78, 111, 110, 99, 101],
            ErrKind::AddressFamilyNotSupported => vec![65u8, 100, 100, 114, 101, 115, 115, 32, 70, 97, 109, 105, 108, 121, 32, 110, 111, 116, 32, 83, 117, 112, 112, 111, 114, 116, 101, 100],
            ErrKind::WrongCredentials => vec![87u8, 114, 111, 110, 103, 32, 67, 114, 101, 100, 101, 110, 116, 105, 97, 108, 115],
            ErrKind::UnsupportedTransportAddress => vec![85u8, 110, 115, 117, 112, 112, 111, 114, 116, 101, 100, 32, 84, 114, 97, 110, 115, 112, 111, 114, 116, 32, 65, 100, 100, 114, 101, 115, 115],
            ErrKind::AllocationQuotaReached => vec![65u8, 108, 108, 111, 99, 97, 116, 105, 111, 110, 32, 81, 117, 111, 116, 97, 32, 82, 101, 97, 99, 104, 101, 100],
            ErrKind::ServerError => vec![83u8, 101, 114, 118, 101, 114, 32, 69, 114, 114, 111, 114],
            ErrKind::InsufficientCapacity => vec![73u8, 110, 115, 117, 102, 102, 105, 99, 105, 101, 110, 116, 32, 67, 97, 112, 97, 99, 105, 116, 121],
        }
    }
}

/// A decoded ERROR-CODE attribute value: the 16-bit code and the
/// reason phrase.
#[derive(Clone, Debug)]
pub struct Error {
    pub code: u16,
    pub message: Vec<u8>,
}

/// Mathematical value of an [`Error`].
#[verifier::ext_equal]
pub ghost struct ErrorV {
    pub code: u16,
    pub message: Seq<u8>,
}

impl View for Error {
    type V = ErrorV;

    open spec fn view(&self) -> ErrorV {
        ErrorV { code: self.code, message: self.message@ }
    }
}

/// The wire form of an ERROR-CODE value: two reserved zero bytes, the
/// code big-endian, then the reason phrase.
pub open spec fn spec_error_wire(e: ErrorV) -> Seq<u8> {
    seq![0u8, 0u8] + spec_be16(e.code) + e.message
}

/// Parse of an ERROR-CODE value. At least six bytes are required, and
/// the reserved bytes must be zero; anything shorter is malformed.
pub open spec fn spec_error_parse(v: Seq<u8>) -> Option<ErrorV> {
    if v.len() >= 6 && v[0] == 0 && v[1] == 0 {
        Some(ErrorV { code: spec_as_u16(v.subrange(2, 4)), message: v.subrange(4, v.len() as int) })
    } else {
        None
    }
}

impl Error {
    /// The error value for a kind: its code and its reason phrase.
    pub fn from(kind: ErrKind) -> (r: Error)
        ensures
            r@.code == spec_err_code(kind),
            r@.message == spec_err_reason(kind),
    {
        Error { code: kind.code(), message: kind.reason() }
    }

    /// Append the wire form of this error to a buffer.
    pub fn as_bytes(&self, buf: &mut Vec<u8>)
        ensures
            final(buf)@ == old(buf)@ + spec_error_wire(self@),
    {
        buf.push(0u8);
        buf.push(0u8);
        put_u16(buf, self.code);
        put_bytes(buf, self.message.as_slice());
        assert(buf@ =~= old(buf)@ + spec_error_wire(self@));
    }

    /// Decode an ERROR-CODE value from its wire form.
    pub fn from_bytes(v: &[u8]) -> (r: Option<Error>)
        ensures
            match r {
                Some(e) => spec_error_parse(v@) == Some(e@),
                None => spec_error_parse(v@) is None,
            },
    {
        if v.len() < 6 || v[0] != 0 || v[1] != 0 {
            return None;
        }
        let code = as_u16(&v[2..4]);
        let mut message: Vec<u8> = Vec::new();
        put_bytes(&mut message, &v[4..v.len()]);
        let e = Error { code, message };
        assert(e@ =~= ErrorV {
            code: spec_as_u16(v@.subrange(2, 4)),
            message: v@.subrange(4, v@.len() as int),
        });
        Some(e)
    }
}

/// Parsing the wire form of an error value gives the value back,
/// provided the reason phrase has at least two bytes.
pub proof fn lemma_error_wire_parse(e: ErrorV)
    requires
        e.message.len() >= 2,
    ensures
        spec_error_parse(spec_error_wire(e)) == Some(e),
{
    let w = spec_error_wire(e);
    assert(w.len() == 4 + e.message.len());
    assert(w.subrange(2, 4) =~= spec_be16(e.code));
    assert(w.subrange(4, w.len() as int) =~= e.message);
    crate::util::lemma_be16_as_u16(e.code);
    assert(spec_error_parse(w) == Some(ErrorV { code: e.code, message: e.message }));
    assert(ErrorV { code: e.code, message: e.message } =~= e);
}

} // verus!
