//! Typed message attributes with their per-kind wire encodings.

use vstd::prelude::*;
use crate::addr::{
    Addr, AddrV, addr_wf, spec_addr_wire, spec_addr_parse, addr_to_bytes, addr_from_bytes,
    lemma_addr_wire_parse,
};
use crate::error::{
    Error, ErrorV, spec_error_wire, spec_error_parse, lemma_error_wire_parse,
};
use crate::util::{
    spec_be16, spec_be32, spec_as_u16, spec_as_u32, spec_utf8_valid, as_u16, as_u32, put_u16,
    put_u32, put_bytes, copy_bytes, is_utf8,
};

verus! {

/// Attribute type.
#[derive(Clone, Copy, PartialEq, Eq, Structural, Debug)]
pub enum AttrKind {
    UserName,
    Data,
    Realm,
    Nonce,
    XorPeerAddress,
    XorRelayedAddress,
    XorMappedAddress,
    MappedAddress,
    ResponseOrigin,
    Software,
    MessageIntegrity,
    ErrorAttrKind,
    Lifetime,
    RequestedTransport,
    Fingerprint,
    ChannelNumber,
}

/// The 16-bit type code of each attribute kind.
pub open spec fn spec_attr_code(k: AttrKind) -> u16 {
    match k {
        AttrKind::MappedAddress => 0x0001,
        AttrKind::UserName => 0x0006,
        AttrKind::MessageIntegrity => 0x0008,
        AttrKind::ErrorAttrKind => 0x0009,
        AttrKind::ChannelNumber => 0x000C,
        AttrKind::Lifetime => 0x000D,
        AttrKind::XorPeerAddress => 0x0012,
        AttrKind::Data => 0x0013,
        AttrKind::Realm => 0x0014,
        AttrKind::Nonce => 0x0015,
        AttrKind::XorRelayedAddress => 0x0016,
        AttrKind::RequestedTransport => 0x0019,
        AttrKind::XorMappedAddress => 0x0020,
        AttrKind::Software => 0x8022,
        AttrKind::Fingerprint => 0x8028,
        AttrKind::ResponseOrigin => 0x802B,
    }
}

/// The attribute kind with a given type code, if the code is known.
pub open spec fn spec_attr_kind_of(code: u16) -> Option<AttrKind> {
    if code == 0x0001 {
        Some(AttrKind::MappedAddress)
    } else if code == 0x0006 {
        Some(AttrKind::UserName)
    } else if code == 0x0008 {
        Some(AttrKind::MessageIntegrity)
    } else if code == 0x0009 {
        Some(AttrKind::ErrorAttrKind)
    } else if code == 0x000C {
        Some(AttrKind::ChannelNumber)
    } else if code == 0x000D {
        Some(AttrKind::Lifetime)
    } else if code == 0x0012 {
        Some(AttrKind::XorPeerAddress)
    } else if code == 0x0013 {
        Some(AttrKind::Data)
    } else if code == 0x0014 {
        Some(AttrKind::Realm)
    } else if code == 0x0015 {
        Some(AttrKind::Nonce)
    } else if code == 0x0016 {
        Some(AttrKind::XorRelayedAddress)
    } else if code == 0x0019 {
        Some(AttrKind::RequestedTransport)
    } else if code == 0x0020 {
        Some(AttrKind::XorMappedAddress)
    } else if code == 0x8022 {
        Some(AttrKind::Software)
    } else if code == 0x8028 {
        Some(AttrKind::Fingerprint)
    } else if code == 0x802B {
        Some(AttrKind::ResponseOrigin)
    } else {
        None
    }
}

/// Looking an attribute kind's code back up gives the kind.
pub proof fn lemma_attr_code_of(k: AttrKind)
    ensures
        spec_attr_kind_of(spec_attr_code(k)) == Some(k),
{
}

impl AttrKind {
    /// The 16-bit type code of this kind.
    pub fn code(&self) -> (r: u16)
        ensures
            r == spec_attr_code(*self),
    {
        match self {
            AttrKind::MappedAddress => 0x0001,
            AttrKind::UserName => 0x0006,
            AttrKind::MessageIntegrity => 0x0008,
            AttrKind::ErrorAttrKind => 0x0009,
            AttrKind::ChannelNumber => 0x000C,
            AttrKind::Lifetime => 0x000D,
            AttrKind::XorPeerAddress => 0x0012,
            AttrKind::Data => 0x0013,
            AttrKind::Realm => 0x0014,
            AttrKind::Nonce => 0x0015,
            AttrKind::XorRelayedAddress => 0x0016,
            AttrKind::RequestedTransport => 0x0019,
            AttrKind::XorMappedAddress => 0x0020,
            AttrKind::Software => 0x8022,
            AttrKind::Fingerprint => 0x8028,
            AttrKind::ResponseOrigin => 0x802B,
        }
    }

    /// The attribute kind with a given type code; `None` when the code
    /// is not a kind this relay knows.
    pub fn from_code(code: u16) -> (r: Option<AttrKind>)
        ensures
            r == spec_attr_kind_of(code),
    {
        if code == 0x0001 {
            Some(AttrKind::MappedAddress)
        } else if code == 0x0006 {
            Some(AttrKind::UserName)
        } else if code == 0x0008 {
            Some(AttrKind::MessageIntegrity)
        } else if code == 0x0009 {
            Some(AttrKind::ErrorAttrKind)
        } else if code == 0x000C {
            Some(AttrKind::ChannelNumber)
        } else if code == 0x000D {
            Some(AttrKind::Lifetime)
        } else if code == 0x0012 {
            Some(AttrKind::XorPeerAddress)
        } else if code == 0x0013 {
            Some(AttrKind::Data)
        } else if code == 0x0014 {
            Some(AttrKind::Realm)
        } else if code == 0x0015 {
            Some(AttrKind::Nonce)
        } else if code == 0x0016 {
            Some(AttrKind::XorRelayedAddress)
        } else if code == 0x0019 {
            Some(AttrKind::RequestedTransport)
        } else if code == 0x0020 {
            Some(AttrKind::XorMappedAddress)
        } else if code == 0x8022 {
            Some(AttrKind::Software)
        } else if code == 0x8028 {
            Some(AttrKind::Fingerprint)
        } else if code == 0x802B {
            Some(AttrKind::ResponseOrigin)
        } else {
            None
        }
    }
}

/// A decoded message attribute.
#[derive(Clone, Debug)]
pub enum Property {
    UserName(Vec<u8>),
    Data(Vec<u8>),
    Realm(Vec<u8>),
    Nonce(Vec<u8>),
    Software(Vec<u8>),
    MessageIntegrity(Vec<u8>),
    ErrorCode(Error),
    Lifetime(u32),
    RequestedTransport,
    Fingerprint(u32),
    ChannelNumber(u16),
    XorPeerAddress(Addr),
    XorRelayedAddress(Addr),
    XorMappedAddress(Addr),
    MappedAddress(Addr),
    ResponseOrigin(Addr),
}

/// Mathematical value of a [`Property`].
#[verifier::ext_equal]
pub ghost enum PropV {
    UserName(Seq<u8>),
    Data(Seq<u8>),
    Realm(Seq<u8>),
    Nonce(Seq<u8>),
    Software(Seq<u8>),
    MessageIntegrity(Seq<u8>),
    ErrorCode(ErrorV),
    Lifetime(u32),
    RequestedTransport,
    Fingerprint(u32),
    ChannelNumber(u16),
    XorPeerAddress(AddrV),
    XorRelayedAddress(AddrV),
    XorMappedAddress(AddrV),
    MappedAddress(AddrV),
    ResponseOrigin(AddrV),
}

impl View for Property {
    type V = PropV;

    open spec fn view(&self) -> PropV {
        match self {
            Property::UserName(v) => PropV::UserName(v@),
            Property::Data(v) => PropV::Data(v@),
            Property::Realm(v) => PropV::Realm(v@),
            Property::Nonce(v) => PropV::Nonce(v@),
            Property::Software(v) => PropV::Software(v@),
            Property::MessageIntegrity(v) => PropV::MessageIntegrity(v@),
            Property::ErrorCode(e) => PropV::ErrorCode(e@),
            Property::Lifetime(v) => PropV::Lifetime(*v),
            Property::RequestedTransport => PropV::RequestedTransport,
            Property::Fingerprint(v) => PropV::Fingerprint(*v),
            Property::ChannelNumber(v) => PropV::ChannelNumber(*v),
            Property::XorPeerAddress(a) => PropV::XorPeerAddress(a@),
            Property::XorRelayedAddress(a) => PropV::XorRelayedAddress(a@),
            Property::XorMappedAddress(a) => PropV::XorMappedAddress(a@),
            Property::MappedAddress(a) => PropV::MappedAddress(a@),
            Property::ResponseOrigin(a) => PropV::ResponseOrigin(a@),
        }
    }
}

/// The attribute kind a property value belongs to.
pub open spec fn spec_prop_kind(p: PropV) -> AttrKind {
    match p {
        PropV::UserName(_) => AttrKind::UserName,
        PropV::Data(_) => AttrKind::Data,
        PropV::Realm(_) => AttrKind::Realm,
        PropV::Nonce(_) => AttrKind::Nonce,
        PropV::Software(_) => AttrKind::Software,
        PropV::MessageIntegrity(_) => AttrKind::MessageIntegrity,
        PropV::ErrorCode(_) => AttrKind::ErrorAttrKind,
        PropV::Lifetime(_) => AttrKind::Lifetime,
        PropV::RequestedTransport => AttrKind::RequestedTransport,
        PropV::Fingerprint(_) => AttrKind::Fingerprint,
        PropV::ChannelNumber(_) => AttrKind::ChannelNumber,
        PropV::XorPeerAddress(_) => AttrKind::XorPeerAddress,
        PropV::XorRelayedAddress(_) => AttrKind::XorRelayedAddress,
        PropV::XorMappedAddress(_) => AttrKind::XorMappedAddress,
        PropV::MappedAddress(_) => AttrKind::MappedAddress,
        PropV::ResponseOrigin(_) => AttrKind::ResponseOrigin,
    }
}

/// The body bytes an attribute contributes to a message. The
/// MESSAGE-INTEGRITY and FINGERPRINT bodies are not written here: the
/// codec computes and appends them itself.
pub open spec fn spec_attr_body(p: PropV, token: Seq<u8>) -> Seq<u8> {
    match p {
        PropV::UserName(v) => v,
        PropV::Data(v) => v,
        PropV::Realm(v) => v,
        PropV::Nonce(v) => v,
        PropV::Software(v) => v,
        PropV::MessageIntegrity(_) => Seq::empty(),
        PropV::ErrorCode(e) => spec_error_wire(e),
        PropV::Lifetime(v) => spec_be32(v),
        PropV::RequestedTransport => seq![0x11u8],
        PropV::Fingerprint(_) => Seq::empty(),
        PropV::ChannelNumber(v) => spec_be16(v),
        PropV::XorPeerAddress(a) => spec_addr_wire(a, token, true),
        PropV::XorRelayedAddress(a) => spec_addr_wire(a, token, true),
        PropV::XorMappedAddress(a) => spec_addr_wire(a, token, true),
        PropV::MappedAddress(a) => spec_addr_wire(a, token, false),
        PropV::ResponseOrigin(a) => spec_addr_wire(a, token, false),
    }
}

/// A property that can stand in an encoded message: its text values
/// are well-formed UTF-8, its addresses are well formed, an error
/// reason has at least two bytes, and its body fits an attribute
/// header's 16-bit length.
pub open spec fn spec_prop_wf(p: PropV, token: Seq<u8>) -> bool {
    &&& match p {
        PropV::UserName(v) => spec_utf8_valid(v),
        PropV::Realm(v) => spec_utf8_valid(v),
        PropV::Nonce(v) => spec_utf8_valid(v),
        PropV::Software(v) => spec_utf8_valid(v),
        PropV::ErrorCode(e) => e.message.len() >= 2,
        PropV::XorPeerAddress(a) => addr_wf(a),
        PropV::XorRelayedAddress(a) => addr_wf(a),
        PropV::XorMappedAddress(a) => addr_wf(a),
        PropV::MappedAddress(a) => addr_wf(a),
        PropV::ResponseOrigin(a) => addr_wf(a),
        _ => true,
    }
    &&& spec_attr_body(p, token).len() <= 0xFFFF
}

/// What an attribute needs of the transaction id: only the XOR address
/// kinds read it (twelve bytes cover even an IPv6 address).
pub open spec fn spec_prop_token_ok(p: PropV, token: Seq<u8>) -> bool {
    match p {
        PropV::XorPeerAddress(a) => a.ip.len() <= token.len() + 4,
        PropV::XorRelayedAddress(a) => a.ip.len() <= token.len() + 4,
        PropV::XorMappedAddress(a) => a.ip.len() <= token.len() + 4,
        _ => true,
    }
}

/// What decoding a kind needs of the transaction id: only the XOR
/// address kinds read it.
pub open spec fn spec_kind_token_ok(k: AttrKind, token: Seq<u8>) -> bool {
    match k {
        AttrKind::XorPeerAddress => token.len() >= 12,
        AttrKind::XorRelayedAddress => token.len() >= 12,
        AttrKind::XorMappedAddress => token.len() >= 12,
        _ => true,
    }
}

impl Property {
    /// The attribute kind this property belongs to.
    pub fn kind(&self) -> (r: AttrKind)
        ensures
            r == spec_prop_kind(self@),
    {
        match self {
            Property::UserName(_) => AttrKind::UserName,
            Property::Data(_) => AttrKind::Data,
            Property::Realm(_) => AttrKind::Realm,
            Property::Nonce(_) => AttrKind::Nonce,
            Property::Software(_) => AttrKind::Software,
            Property::MessageIntegrity(_) => AttrKind::MessageIntegrity,
            Property::ErrorCode(_) => AttrKind::ErrorAttrKind,
            Property::Lifetime(_) => AttrKind::Lifetime,
            Property::RequestedTransport => AttrKind::RequestedTransport,
            Property::Fingerprint(_) => AttrKind::Fingerprint,
            Property::ChannelNumber(_) => AttrKind::ChannelNumber,
            Property::XorPeerAddress(_) => AttrKind::XorPeerAddress,
            Property::XorRelayedAddress(_) => AttrKind::XorRelayedAddress,
            Property::XorMappedAddress(_) => AttrKind::XorMappedAddress,
            Property::MappedAddress(_) => AttrKind::MappedAddress,
            Property::ResponseOrigin(_) => AttrKind::ResponseOrigin,
        }
    }

    /// Append this attribute's body bytes to a buffer.
    pub fn into_bytes(&self, buf: &mut Vec<u8>, token: &[u8])
        requires
            spec_prop_wf(self@, token@),
            spec_prop_token_ok(self@, token@),
        ensures
            final(buf)@ == old(buf)@ + spec_attr_body(self@, token@),
    {
        match self {
            Property::UserName(v) => put_bytes(buf, v.as_slice()),
            Property::Data(v) => put_bytes(buf, v.as_slice()),
            Property::Realm(v) => put_bytes(buf, v.as_slice()),
            Property::Nonce(v) => put_bytes(buf, v.as_slice()),
            Property::Software(v) => put_bytes(buf, v.as_slice()),
            Property::MessageIntegrity(_) => (),
            Property::ErrorCode(e) => e.as_bytes(buf),
            Property::Lifetime(v) => put_u32(buf, *v),
            Property::RequestedTransport => buf.push(0x11u8),
            Property::Fingerprint(_) => (),
            Property::ChannelNumber(v) => put_u16(buf, *v),
            Property::XorPeerAddress(a) => addr_to_bytes(a, token, true, buf),
            Property::XorRelayedAddress(a) => addr_to_bytes(a, token, true, buf),
            Property::XorMappedAddress(a) => addr_to_bytes(a, token, true, buf),
            Property::MappedAddress(a) => addr_to_bytes(a, token, false, buf),
            Property::ResponseOrigin(a) => addr_to_bytes(a, token, false, buf),
        }
        proof {
            if self is MessageIntegrity || self is Fingerprint || self is RequestedTransport {
                assert(buf@ =~= old(buf)@ + spec_attr_body(self@, token@));
            }
        }
    }
}

/// Decode of an attribute body for a known kind; `None` when the body
/// is malformed for that kind. Text kinds must be well-formed UTF-8;
/// DATA carries its raw bytes; REQUESTED-TRANSPORT must name UDP
/// (0x11).
pub open spec fn spec_decode_body(k: AttrKind, v: Seq<u8>, token: Seq<u8>) -> Option<PropV> {
    match k {
        AttrKind::UserName => if spec_utf8_valid(v) {
            Some(PropV::UserName(v))
        } else {
            None
        },
        AttrKind::Data => Some(PropV::Data(v)),
        AttrKind::Realm => if spec_utf8_valid(v) {
            Some(PropV::Realm(v))
        } else {
            None
        },
        AttrKind::Nonce => if spec_utf8_valid(v) {
            Some(PropV::Nonce(v))
        } else {
            None
        },
        AttrKind::Software => if spec_utf8_valid(v) {
            Some(PropV::Software(v))
        } else {
            None
        },
        AttrKind::MessageIntegrity => Some(PropV::MessageIntegrity(v)),
        AttrKind::ErrorAttrKind => match spec_error_parse(v) {
            Some(e) => Some(PropV::ErrorCode(e)),
            None => None,
        },
        AttrKind::Lifetime => if v.len() >= 4 {
            Some(PropV::Lifetime(spec_as_u32(v.subrange(0, 4))))
        } else {
            None
        },
        AttrKind::RequestedTransport => if v.len() >= 1 && v[0] == 0x11 {
            Some(PropV::RequestedTransport)
        } else {
            None
        },
        AttrKind::Fingerprint => if v.len() >= 4 {
            Some(PropV::Fingerprint(spec_as_u32(v.subrange(0, 4))))
        } else {
            None
        },
        AttrKind::ChannelNumber => if v.len() >= 2 {
            Some(PropV::ChannelNumber(spec_as_u16(v.subrange(0, 2))))
        } else {
            None
        },
        AttrKind::XorPeerAddress => match spec_addr_parse(v, token, true) {
            Some(a) => Some(PropV::XorPeerAddress(a)),
            None => None,
        },
        AttrKind::XorRelayedAddress => match spec_addr_parse(v, token, true) {
            Some(a) => Some(PropV::XorRelayedAddress(a)),
            None => None,
        },
        AttrKind::XorMappedAddress => match spec_addr_parse(v, token, true) {
            Some(a) => Some(PropV::XorMappedAddress(a)),
            None => None,
        },
        AttrKind::MappedAddress => match spec_addr_parse(v, token, false) {
            Some(a) => Some(PropV::MappedAddress(a)),
            None => None,
        },
        AttrKind::ResponseOrigin => match spec_addr_parse(v, token, false) {
            Some(a) => Some(PropV::ResponseOrigin(a)),
            None => None,
        },
    }
}

impl AttrKind {
    /// Decode an attribute body of this kind into a property; `None`
    /// when the body is malformed for the kind.
    pub fn from(self, token: &[u8], v: &[u8]) -> (r: Option<Property>)
        requires
            spec_kind_token_ok(self, token@),
        ensures
            match r {
                Some(p) => spec_decode_body(self, v@, token@) == Some(p@),
                None => spec_decode_body(self, v@, token@) is None,
            },
    {
        match self {
            AttrKind::UserName => if is_utf8(v) {
                Some(Property::UserName(copy_bytes(v)))
            } else {
                None
            },
            AttrKind::Data => Some(Property::Data(copy_bytes(v))),
            AttrKind::Realm => if is_utf8(v) {
                Some(Property::Realm(copy_bytes(v)))
            } else {
                None
            },
            AttrKind::Nonce => if is_utf8(v) {
                Some(Property::Nonce(copy_bytes(v)))
            } else {
                None
            },
            AttrKind::Software => if is_utf8(v) {
                Some(Property::Software(copy_bytes(v)))
            } else {
                None
            },
            AttrKind::MessageIntegrity => Some(Property::MessageIntegrity(copy_bytes(v))),
            AttrKind::ErrorAttrKind => match Error::from_bytes(v) {
                Some(e) => Some(Property::ErrorCode(e)),
                None => None,
            },
            AttrKind::Lifetime => if v.len() >= 4 {
                Some(Property::Lifetime(as_u32(&v[0..4])))
            } else {
                None
            },
            AttrKind::RequestedTransport => if v.len() >= 1 && v[0] == 0x11 {
                Some(Property::RequestedTransport)
            } else {
                None
            },
            AttrKind::Fingerprint => if v.len() >= 4 {
                Some(Property::Fingerprint(as_u32(&v[0..4])))
            } else {
                None
            },
            AttrKind::ChannelNumber => if v.len() >= 2 {
                Some(Property::ChannelNumber(as_u16(&v[0..2])))
            } else {
                None
            },
            AttrKind::XorPeerAddress => match addr_from_bytes(v, token, true) {
                Some(a) => Some(Property::XorPeerAddress(a)),
                None => None,
            },
            AttrKind::XorRelayedAddress => match addr_from_bytes(v, token, true) {
                Some(a) => Some(Property::XorRelayedAddress(a)),
                None => None,
            },
            AttrKind::XorMappedAddress => match addr_from_bytes(v, token, true) {
                Some(a) => Some(Property::XorMappedAddress(a)),
                None => None,
            },
            AttrKind::MappedAddress => match addr_from_bytes(v, token, false) {
                Some(a) => Some(Property::MappedAddress(a)),
                None => None,
            },
            AttrKind::ResponseOrigin => match addr_from_bytes(v, token, false) {
                Some(a) => Some(Property::ResponseOrigin(a)),
                None => None,
            },
        }
    }
}

/// Decoding the body an attribute writes gives the property back.
/// MESSAGE-INTEGRITY and FINGERPRINT are exempt: their bodies are
/// written by the codec, not by the attribute itself.
pub proof fn lemma_body_roundtrip(p: PropV, token: Seq<u8>)
    requires
        spec_prop_wf(p, token),
        token.len() >= 12,
        spec_prop_kind(p) != AttrKind::MessageIntegrity,
        spec_prop_kind(p) != AttrKind::Fingerprint,
    ensures
        spec_decode_body(spec_prop_kind(p), spec_attr_body(p, token), token) == Some(p),
{
    let k = spec_prop_kind(p);
    let b = spec_attr_body(p, token);
    match p {
        PropV::ErrorCode(e) => {
            lemma_error_wire_parse(e);
        },
        PropV::Lifetime(v) => {
            assert(b.subrange(0, 4) =~= spec_be32(v));
            crate::util::lemma_be32_as_u32(v);
        },
        PropV::ChannelNumber(v) => {
            assert(b.subrange(0, 2) =~= spec_be16(v));
            crate::util::lemma_be16_as_u16(v);
        },
        PropV::XorPeerAddress(a) => {
            lemma_addr_wire_parse(a, token, true);
        },
        PropV::XorRelayedAddress(a) => {
            lemma_addr_wire_parse(a, token, true);
        },
        PropV::XorMappedAddress(a) => {
            lemma_addr_wire_parse(a, token, true);
        },
        PropV::MappedAddress(a) => {
            lemma_addr_wire_parse(a, token, false);
        },
        PropV::ResponseOrigin(a) => {
            lemma_addr_wire_parse(a, token, false);
        },
        _ => (),
    }
}

} // verus!
