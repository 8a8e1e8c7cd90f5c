//! STUN-framed message codec: parsing, serialization, and the
//! MESSAGE-INTEGRITY / FINGERPRINT trailer, together with the
//! channel-data codec.

use vstd::prelude::*;
use crate::attribute::{
    AttrKind, Property, PropV, spec_attr_code, spec_attr_kind_of, spec_attr_body,
    spec_decode_body, spec_prop_kind, spec_prop_wf,
};
use crate::kind::{Kind, spec_kind_code, spec_kind_of};
use crate::util::{
    spec_be16, spec_be32, spec_as_u16, spec_as_u32, spec_pad_size, zero_bytes, spec_fingerprint,
    hmac_sha1_of, as_u16, as_u32, put_u16, put_u32, put_bytes, put_zeros, set_u16, pad_size,
    hmac_sha1, fingerprint, eq_bytes, MAGIC_COOKIE,
};

verus! {

/// Why a buffer failed to decode, or an integrity check could not run.
#[derive(Clone, Copy, PartialEq, Eq, Structural, Debug)]
pub enum CodecError {
    /// Fewer than the 20 header bytes (or 4 channel-data bytes).
    TooShort,
    /// The magic cookie is absent.
    BadCookie,
    /// The declared length exceeds what the buffer holds.
    LengthMismatch,
    /// No usable MESSAGE-INTEGRITY attribute.
    MissingIntegrity,
}

/// A decoded message: kind, transaction id, decoded attributes in wire
/// order, the raw bytes it was decoded from, and the byte offset at
/// which the MESSAGE-INTEGRITY attribute begins (zero when absent).
#[derive(Debug)]
pub struct Message {
    pub kind: Kind,
    pub token: Vec<u8>,
    pub attributes: Vec<(AttrKind, Property)>,
    pub buffer: Vec<u8>,
    pub block: usize,
}

/// Mathematical value of a [`Message`].
#[verifier::ext_equal]
pub ghost struct MessageV {
    pub kind: Kind,
    pub token: Seq<u8>,
    pub attributes: Seq<(AttrKind, PropV)>,
    pub buffer: Seq<u8>,
    pub block: int,
}

/// The mathematical value of a vector of decoded attribute pairs.
pub open spec fn view_pairs(s: Seq<(AttrKind, Property)>) -> Seq<(AttrKind, PropV)> {
    Seq::new(s.len(), |i: int| (s[i].0, s[i].1@))
}

impl View for Message {
    type V = MessageV;

    open spec fn view(&self) -> MessageV {
        MessageV {
            kind: self.kind,
            token: self.token@,
            attributes: view_pairs(self.attributes@),
            buffer: self.buffer@,
            block: self.block as int,
        }
    }
}

/// The message a decoder hands back for a type code it does not know.
pub open spec fn spec_unknown_message() -> MessageV {
    MessageV {
        kind: Kind::Unknown,
        token: Seq::empty(),
        attributes: Seq::empty(),
        buffer: Seq::empty(),
        block: 0,
    }
}

/// An attribute list fit for encoding: every pair's kind matches its
/// property, every property is well formed, and the codec-owned
/// MESSAGE-INTEGRITY and FINGERPRINT kinds do not appear.
pub open spec fn spec_attrs_wf(attrs: Seq<(AttrKind, PropV)>, token: Seq<u8>) -> bool {
    forall|i: int|
        0 <= i < attrs.len() ==> {
            &&& (#[trigger] attrs[i]).0 == spec_prop_kind(attrs[i].1)
            &&& spec_prop_wf(attrs[i].1, token)
            &&& attrs[i].0 != AttrKind::MessageIntegrity
            &&& attrs[i].0 != AttrKind::Fingerprint
        }
}

/// The wire chunk of one attribute: type, unpadded length, body,
/// padding to a four-byte boundary.
pub open spec fn spec_attr_chunk(k: AttrKind, p: PropV, token: Seq<u8>) -> Seq<u8> {
    let body = spec_attr_body(p, token);
    spec_be16(spec_attr_code(k)) + spec_be16(body.len() as u16) + body + zero_bytes(
        spec_pad_size(body.len()),
    )
}

/// The concatenated wire chunks of an attribute list.
pub open spec fn spec_attrs_bytes(attrs: Seq<(AttrKind, PropV)>, token: Seq<u8>) -> Seq<u8>
    decreases attrs.len(),
{
    if attrs.len() == 0 {
        Seq::empty()
    } else {
        spec_attr_chunk(attrs[0].0, attrs[0].1, token) + spec_attrs_bytes(
            attrs.drop_first(),
            token,
        )
    }
}

/// Appending one attribute appends its chunk.
pub proof fn lemma_attrs_bytes_push(attrs: Seq<(AttrKind, PropV)>, x: (AttrKind, PropV), token: Seq<u8>)
    ensures
        spec_attrs_bytes(attrs.push(x), token) == spec_attrs_bytes(attrs, token)
            + spec_attr_chunk(x.0, x.1, token),
    decreases attrs.len(),
{
    if attrs.len() == 0 {
        assert(spec_attrs_bytes(Seq::<(AttrKind, PropV)>::empty(), token) == Seq::<u8>::empty());
        assert(attrs.push(x)[0] == x);
        assert(attrs.push(x).drop_first() =~= Seq::<(AttrKind, PropV)>::empty());
        assert(spec_attrs_bytes(attrs.push(x), token) =~= spec_attr_chunk(x.0, x.1, token));
        assert(spec_attrs_bytes(attrs, token) + spec_attr_chunk(x.0, x.1, token)
            =~= spec_attr_chunk(x.0, x.1, token));
    } else {
        assert(attrs.push(x)[0] == attrs[0]);
        assert(attrs.push(x).drop_first() =~= attrs.drop_first().push(x));
        lemma_attrs_bytes_push(attrs.drop_first(), x, token);
        assert(spec_attrs_bytes(attrs.push(x), token) =~= spec_attrs_bytes(attrs, token)
            + spec_attr_chunk(x.0, x.1, token));
    }
}

/// The bytes of a whole message before any integrity trailer: header
/// with the body length, then the attribute chunks.
pub open spec fn spec_message_bytes(kind: Kind, token: Seq<u8>, attrs: Seq<(AttrKind, PropV)>) -> Seq<u8> {
    let body = spec_attrs_bytes(attrs, token);
    spec_be16(spec_kind_code(kind)) + spec_be16(body.len() as u16) + spec_be32(MAGIC_COOKIE)
        + token + body
}

/// The buffer with its length field (bytes two and three) rewritten.
pub open spec fn spec_set_len(b: Seq<u8>, n: u16) -> Seq<u8> {
    b.update(2, spec_be16(n)[0]).update(3, spec_be16(n)[1])
}

/// A message buffer with the MESSAGE-INTEGRITY and FINGERPRINT trailer:
/// the length is rewritten to cover the integrity attribute, the
/// HMAC-SHA1 tag over that buffer is appended as MESSAGE-INTEGRITY,
/// the length is rewritten again for FINGERPRINT, and the CRC32 of the
/// buffer so far, masked, is appended as FINGERPRINT.
pub open spec fn spec_signed_bytes(base: Seq<u8>, key: Seq<u8>) -> Seq<u8> {
    let b1 = spec_set_len(base, (base.len() + 4) as u16);
    let tag = hmac_sha1_of(key, b1);
    let b2 = b1 + spec_be16(0x0008) + spec_be16(20) + tag;
    let b3 = spec_set_len(b2, (base.len() + 12) as u16);
    b3 + spec_be16(0x8028) + spec_be16(4) + spec_be32(spec_fingerprint(b3))
}

/// What one pass of the attribute walk yields: the decoded attributes,
/// and where the MESSAGE-INTEGRITY attribute was first seen.
#[verifier::ext_equal]
pub ghost struct ParsedAttrs {
    pub attrs: Seq<(AttrKind, PropV)>,
    pub block: int,
    pub found: bool,
}

/// The attribute walk from `offset`. Unknown attribute kinds and
/// malformed bodies are skipped; a truncated header or body ends the
/// walk. `found`/`block` carry whether and where MESSAGE-INTEGRITY was
/// already seen.
pub open spec fn spec_parse_attrs(
    buf: Seq<u8>,
    token: Seq<u8>,
    offset: int,
    found: bool,
    block: int,
) -> ParsedAttrs
    decreases buf.len() - offset,
    when 0 <= offset <= buf.len()
{
    if buf.len() - offset < 4 {
        ParsedAttrs { attrs: Seq::empty(), block, found }
    } else {
        let key = spec_as_u16(buf.subrange(offset, offset + 2));
        let found2 = found || key == 0x0008;
        let block2 = if !found && key == 0x0008 {
            offset
        } else {
            block
        };
        let size = spec_as_u16(buf.subrange(offset + 2, offset + 4)) as int;
        let off2 = offset + 4;
        if buf.len() - off2 < size {
            ParsedAttrs { attrs: Seq::empty(), block: block2, found: found2 }
        } else {
            let body = buf.subrange(off2, off2 + size);
            let off3 = if size > 0 {
                off2 + size + spec_pad_size(size as nat)
            } else {
                off2
            };
            let off4 = if off3 > buf.len() {
                buf.len() as int
            } else {
                off3
            };
            let rest = spec_parse_attrs(buf, token, off4, found2, block2);
            match spec_attr_kind_of(key) {
                None => rest,
                Some(k) => match spec_decode_body(k, body, token) {
                    None => rest,
                    Some(p) => ParsedAttrs {
                        attrs: seq![(k, p)] + rest.attrs,
                        block: rest.block,
                        found: rest.found,
                    },
                },
            }
        }
    }
}

/// The decode of a whole buffer: header checks, then the attribute
/// walk. A type code this relay does not know yields the unknown
/// message rather than an error.
pub open spec fn spec_decode(buf: Seq<u8>) -> Result<MessageV, CodecError> {
    if buf.len() < 20 {
        Err(CodecError::TooShort)
    } else {
        let kind = spec_kind_of(spec_as_u16(buf.subrange(0, 2)));
        if kind == Kind::Unknown {
            Ok(spec_unknown_message())
        } else if spec_as_u32(buf.subrange(4, 8)) != MAGIC_COOKIE {
            Err(CodecError::BadCookie)
        } else if buf.len() < spec_as_u16(buf.subrange(2, 4)) + 20 {
            Err(CodecError::LengthMismatch)
        } else {
            let token = buf.subrange(8, 20);
            let pr = spec_parse_attrs(buf, token, 20, false, 0);
            Ok(
                MessageV {
                    kind,
                    token,
                    attributes: pr.attrs,
                    buffer: buf,
                    block: if pr.found {
                        pr.block
                    } else {
                        0
                    },
                },
            )
        }
    }
}

/// The first attribute of a given kind, if any.
pub open spec fn spec_get_attr(attrs: Seq<(AttrKind, PropV)>, kind: AttrKind) -> Option<PropV>
    decreases attrs.len(),
{
    if attrs.len() == 0 {
        None
    } else if attrs[0].0 == kind {
        Some(attrs[0].1)
    } else {
        spec_get_attr(attrs.drop_first(), kind)
    }
}

/// The bytes the integrity check recomputes the HMAC over: the type,
/// the length rewritten to end at the integrity attribute, and the
/// rest of the buffer up to that attribute.
pub open spec fn spec_verify_input(buffer: Seq<u8>, block: int) -> Seq<u8> {
    buffer.subrange(0, 2) + spec_be16((block + 4) as u16) + buffer.subrange(4, block)
}

/// The outcome of the integrity check on a decoded message: an error
/// when no usable MESSAGE-INTEGRITY attribute is present, otherwise
/// whether the stored tag equals the recomputed one.
pub open spec fn spec_verify(m: MessageV, key: Seq<u8>) -> Result<bool, CodecError> {
    match spec_get_attr(m.attributes, AttrKind::MessageIntegrity) {
        None => Err(CodecError::MissingIntegrity),
        Some(p) => if !(20 <= m.block && m.block <= m.buffer.len() && m.block + 4 <= 0xFFFF) {
            Err(CodecError::MissingIntegrity)
        } else {
            match p {
                PropV::MessageIntegrity(tag) => Ok(
                    tag == hmac_sha1_of(key, spec_verify_input(m.buffer, m.block)),
                ),
                _ => Ok(false),
            }
        },
    }
}

/// A channel-data frame: a channel number and its payload.
#[derive(Clone, Debug)]
pub struct ChannelData {
    pub number: u16,
    pub payload: Vec<u8>,
}

/// Decode of a channel-data frame: number and declared length, then
/// that many payload bytes; trailing padding is ignored.
pub open spec fn spec_decode_channel(buf: Seq<u8>) -> Result<(u16, Seq<u8>), CodecError> {
    if buf.len() < 4 {
        Err(CodecError::TooShort)
    } else if buf.len() - 4 < spec_as_u16(buf.subrange(2, 4)) {
        Err(CodecError::LengthMismatch)
    } else {
        Ok(
            (
                spec_as_u16(buf.subrange(0, 2)),
                buf.subrange(4, 4 + spec_as_u16(buf.subrange(2, 4))),
            ),
        )
    }
}

/// Decode a channel-data frame.
pub fn decode_channel(buf: &[u8]) -> (r: Result<ChannelData, CodecError>)
    ensures
        match r {
            Ok(cd) => spec_decode_channel(buf@) == Ok::<_, CodecError>((cd.number, cd.payload@)),
            Err(e) => spec_decode_channel(buf@) == Err::<(u16, Seq<u8>), _>(e),
        },
{
    let n = buf.len();
    if n < 4 {
        return Err(CodecError::TooShort);
    }
    let size = as_u16(&buf[2..4]) as usize;
    if n - 4 < size {
        return Err(CodecError::LengthMismatch);
    }
    let number = as_u16(&buf[0..2]);
    let mut payload: Vec<u8> = Vec::new();
    put_bytes(&mut payload, &buf[4..4 + size]);
    Ok(ChannelData { number, payload })
}

/// Encode a channel-data frame: number, payload length, payload, with
/// no padding over UDP.
pub fn encode_channel(number: u16, payload: &[u8]) -> (r: Vec<u8>)
    requires
        payload@.len() <= 0xFFFF,
    ensures
        r@ == spec_be16(number) + spec_be16(payload@.len() as u16) + payload@,
{
    let mut buf: Vec<u8> = Vec::new();
    put_u16(&mut buf, number);
    put_u16(&mut buf, payload.len() as u16);
    put_bytes(&mut buf, payload);
    buf
}

/// Decoding an encoded channel-data frame gives the frame back.
pub proof fn lemma_channel_roundtrip(number: u16, payload: Seq<u8>)
    requires
        payload.len() <= 0xFFFF,
    ensures
        spec_decode_channel(spec_be16(number) + spec_be16(payload.len() as u16) + payload)
            == Ok::<_, CodecError>((number, payload)),
{
    let w = spec_be16(number) + spec_be16(payload.len() as u16) + payload;
    assert(w.subrange(0, 2) =~= spec_be16(number));
    assert(w.subrange(2, 4) =~= spec_be16(payload.len() as u16));
    crate::util::lemma_be16_as_u16(number);
    crate::util::lemma_be16_as_u16(payload.len() as u16);
    assert(w.subrange(4, 4 + payload.len() as int) =~= payload);
}

impl Message {
    /// The first attribute of a given kind, if any.
    pub fn get(&self, kind: AttrKind) -> (r: Option<&Property>)
        ensures
            match r {
                Some(p) => spec_get_attr(self@.attributes, kind) == Some(p@),
                None => spec_get_attr(self@.attributes, kind) is None,
            },
    {
        let ghost full = self@.attributes;
        proof {
            assert(full.skip(0) =~= full);
        }
        let n: usize = self.attributes.len();
        let mut i: usize = 0;
        while i < n
            invariant
                i <= n,
                n == self.attributes@.len(),
                full == view_pairs(self.attributes@),
                spec_get_attr(full, kind) == spec_get_attr(full.skip(i as int), kind),
            decreases n - i,
        {
            let pair = &self.attributes[i];
            proof {
                assert(full.skip(i as int)[0] == full[i as int]);
                assert(full.skip(i as int).drop_first() =~= full.skip(i + 1));
            }
            if pair.0 == kind {
                return Some(&pair.1);
            }
            i = i + 1;
        }
        proof {
            assert(full.skip(n as int) =~= Seq::<(AttrKind, PropV)>::empty());
        }
        None
    }
}

/// Decode a STUN-framed message. A type code this relay does not know
/// yields the unknown message; header faults yield the matching error;
/// otherwise the attribute walk runs, skipping unknown attribute kinds
/// and malformed bodies, and recording where MESSAGE-INTEGRITY begins.
pub fn decode_message(buffer: &[u8]) -> (r: Result<Message, CodecError>)
    ensures
        match r {
            Ok(m) => spec_decode(buffer@) == Ok::<MessageV, CodecError>(m@),
            Err(e) => spec_decode(buffer@) == Err::<MessageV, CodecError>(e),
        },
{
    let n: usize = buffer.len();
    if n < 20 {
        return Err(CodecError::TooShort);
    }
    let kind = Kind::from_code(as_u16(&buffer[0..2]));
    if kind == Kind::Unknown {
        let m = Message {
            kind: Kind::Unknown,
            token: Vec::new(),
            attributes: Vec::new(),
            buffer: Vec::new(),
            block: 0,
        };
        assert(m@ =~= spec_unknown_message());
        return Ok(m);
    }
    if as_u32(&buffer[4..8]) != MAGIC_COOKIE {
        return Err(CodecError::BadCookie);
    }
    let size = as_u16(&buffer[2..4]) as usize;
    if n < size + 20 {
        return Err(CodecError::LengthMismatch);
    }
    let mut token: Vec<u8> = Vec::new();
    put_bytes(&mut token, &buffer[8..20]);
    let ghost tok = buffer@.subrange(8, 20);
    let ghost pr0 = spec_parse_attrs(buffer@, tok, 20, false, 0);
    let mut attributes: Vec<(AttrKind, Property)> = Vec::new();
    let mut offset: usize = 20;
    let mut found: bool = false;
    let mut block: usize = 0;
    let mut done: bool = false;
    while !done && n - offset >= 4
        invariant
            n == buffer@.len(),
            20 <= offset <= n,
            block <= n,
            token@ == tok,
            tok.len() == 12,
            pr0 == spec_parse_attrs(buffer@, tok, 20, false, 0),
            done ==> {
                &&& pr0.attrs == view_pairs(attributes@)
                &&& pr0.block == block as int
                &&& pr0.found == found
            },
            !done ==> {
                let pr = spec_parse_attrs(buffer@, tok, offset as int, found, block as int);
                &&& pr0.attrs == view_pairs(attributes@) + pr.attrs
                &&& pr0.block == pr.block
                &&& pr0.found == pr.found
            },
        decreases (if done { 0int } else { 1int }), n - offset,
    {
        let ghost o0 = offset as int;
        let ghost f0 = found;
        let ghost b0 = block as int;
        let ghost pr_cur = spec_parse_attrs(buffer@, tok, o0, f0, b0);
        let ghost acc0 = view_pairs(attributes@);
        let key = as_u16(&buffer[offset..offset + 2]);
        if key == 0x0008 {
            if !found {
                block = offset;
            }
            found = true;
        }
        let size_a = as_u16(&buffer[offset + 2..offset + 4]) as usize;
        let body_start = offset + 4;
        if n - body_start < size_a {
            done = true;
        } else {
            let value = &buffer[body_start..body_start + size_a];
            let psize = pad_size(size_a);
            let mut noff: usize = body_start;
            if size_a > 0 {
                let rem = n - (body_start + size_a);
                if psize <= rem {
                    noff = body_start + size_a + psize;
                } else {
                    noff = n;
                }
            }
            proof {
                let off3 = if size_a > 0 {
                    body_start + size_a + spec_pad_size(size_a as nat)
                } else {
                    body_start as int
                };
                let off4 = if off3 > buffer@.len() {
                    buffer@.len() as int
                } else {
                    off3
                };
                assert(noff as int == off4);
            }
            match AttrKind::from_code(key) {
                None => (),
                Some(k) => match k.from(token.as_slice(), value) {
                    None => (),
                    Some(p) => {
                        let ghost pv = p@;
                        attributes.push((k, p));
                        proof {
                            assert(view_pairs(attributes@) =~= acc0.push((k, pv)));
                        }
                    },
                },
            }
            offset = noff;
        }
        proof {
            let pr_next = spec_parse_attrs(buffer@, tok, offset as int, found, block as int);
            if done {
                assert(pr_cur.attrs =~= Seq::<(AttrKind, PropV)>::empty());
                assert(acc0 + pr_cur.attrs =~= acc0);
            } else {
                if pr_cur.attrs != pr_next.attrs {
                    // an attribute was decoded and pushed
                    assert(acc0 + pr_cur.attrs =~= view_pairs(attributes@) + pr_next.attrs);
                } else {
                    assert(acc0 + pr_cur.attrs =~= view_pairs(attributes@) + pr_next.attrs);
                }
            }
        }
    }
    proof {
        if !done {
            assert(spec_parse_attrs(buffer@, tok, offset as int, found, block as int)
                == ParsedAttrs { attrs: Seq::<(AttrKind, PropV)>::empty(), block: block as int, found });
            assert(pr0.attrs =~= view_pairs(attributes@) + Seq::<(AttrKind, PropV)>::empty());
            assert(view_pairs(attributes@) + Seq::<(AttrKind, PropV)>::empty()
                =~= view_pairs(attributes@));
        }
    }
    let mut raw: Vec<u8> = Vec::new();
    put_bytes(&mut raw, buffer);
    let m = Message {
        kind,
        token,
        attributes,
        buffer: raw,
        block: if found {
            block
        } else {
            0
        },
    };
    proof {
        let s = spec_decode(buffer@);
        assert(s is Ok);
        assert(m@ =~= s->Ok_0);
    }
    Ok(m)
}

/// Serialize a message: header with a length placeholder, each
/// attribute with its four-byte header and padding, the length
/// rewritten to the body size; when a key is supplied the
/// MESSAGE-INTEGRITY and FINGERPRINT trailer is appended.
pub fn encode_message(message: &Message, key: Option<&Vec<u8>>) -> (r: Vec<u8>)
    requires
        message@.kind != Kind::Unknown,
        message@.token.len() == 12,
        spec_attrs_wf(message@.attributes, message@.token),
        spec_attrs_bytes(message@.attributes, message@.token).len() + 32 <= 0xFFFF,
    ensures
        match key {
            None => r@ == spec_message_bytes(message@.kind, message@.token, message@.attributes),
            Some(k) => r@ == spec_signed_bytes(
                spec_message_bytes(message@.kind, message@.token, message@.attributes),
                k@,
            ),
        },
{
    let ghost tok = message@.token;
    let ghost attrs = message@.attributes;
    let mut buf: Vec<u8> = Vec::new();
    put_u16(&mut buf, message.kind.code());
    put_u16(&mut buf, 0);
    put_u32(&mut buf, MAGIC_COOKIE);
    put_bytes(&mut buf, message.token.as_slice());
    let ghost header0 = spec_be16(spec_kind_code(message@.kind)) + spec_be16(0) + spec_be32(
        MAGIC_COOKIE,
    ) + tok;
    assert(buf@ =~= header0);
    let count: usize = message.attributes.len();
    let mut i: usize = 0;
    while i < count
        invariant
            i <= count,
            count == message.attributes@.len(),
            tok == message@.token,
            attrs == message@.attributes,
            tok.len() == 12,
            spec_attrs_wf(attrs, tok),
            spec_attrs_bytes(attrs, tok).len() + 32 <= 0xFFFF,
            header0 == spec_be16(spec_kind_code(message@.kind)) + spec_be16(0) + spec_be32(
                MAGIC_COOKIE,
            ) + tok,
            buf@ == header0 + spec_attrs_bytes(attrs.take(i as int), tok),
            spec_attrs_bytes(attrs.take(i as int), tok).len() <= spec_attrs_bytes(
                attrs,
                tok,
            ).len(),
        decreases count - i,
    {
        let ghost before = buf@;
        let pair = &message.attributes[i];
        proof {
            assert(attrs[i as int] == (pair.0, pair.1@));
        }
        put_u16(&mut buf, pair.0.code());
        let os = buf.len();
        put_u16(&mut buf, 0);
        pair.1.into_bytes(&mut buf, message.token.as_slice());
        let size_a = buf.len() - os - 2;
        proof {
            assert(size_a as int == spec_attr_body(pair.1@, tok).len());
        }
        set_u16(&mut buf, os, size_a as u16);
        let ghost body = spec_attr_body(pair.1@, tok);
        assert(buf@ =~= before + spec_be16(spec_attr_code(pair.0)) + spec_be16(
            body.len() as u16,
        ) + body);
        let psize = pad_size(size_a);
        put_zeros(&mut buf, psize);
        proof {
            assert(buf@ =~= before + spec_attr_chunk(attrs[i as int].0, attrs[i as int].1, tok));
            assert(attrs.take(i + 1) =~= attrs.take(i as int).push(attrs[i as int]));
            lemma_attrs_bytes_push(attrs.take(i as int), attrs[i as int], tok);
            assert(buf@ =~= header0 + spec_attrs_bytes(attrs.take(i + 1), tok));
            lemma_attrs_bytes_take_len(attrs, tok, i + 1);
        }
        i = i + 1;
    }
    proof {
        assert(attrs.take(count as int) =~= attrs);
    }
    let body_len = buf.len() - 20;
    set_u16(&mut buf, 2, body_len as u16);
    assert(buf@ =~= spec_message_bytes(message@.kind, tok, attrs));
    match key {
        None => buf,
        Some(k) => {
            encoder_integrity(&mut buf, k.as_slice());
            buf
        },
    }
}

/// The bytes of an attribute-list prefix never exceed those of the
/// whole list.
pub proof fn lemma_attrs_bytes_take_len(attrs: Seq<(AttrKind, PropV)>, token: Seq<u8>, i: int)
    requires
        0 <= i <= attrs.len(),
    ensures
        spec_attrs_bytes(attrs.take(i), token).len() <= spec_attrs_bytes(attrs, token).len(),
    decreases i,
{
    if i == attrs.len() {
        assert(attrs.take(i) =~= attrs);
    } else {
        lemma_attrs_bytes_snoc_le(attrs, token, i);
    }
}

/// Auxiliary step: the bytes of `take(i)` are a prefix of the bytes of
/// `take(i + 1)`, which in turn never exceed the whole list's bytes.
proof fn lemma_attrs_bytes_snoc_le(attrs: Seq<(AttrKind, PropV)>, token: Seq<u8>, i: int)
    requires
        0 <= i < attrs.len(),
    ensures
        spec_attrs_bytes(attrs.take(i), token).len() <= spec_attrs_bytes(attrs, token).len(),
    decreases attrs.len() - i,
{
    assert(attrs.take(i + 1) =~= attrs.take(i).push(attrs[i]));
    lemma_attrs_bytes_push(attrs.take(i), attrs[i], token);
    if i + 1 == attrs.len() {
        assert(attrs.take(i + 1) =~= attrs);
    } else {
        lemma_attrs_bytes_snoc_le(attrs, token, i + 1);
        assert(attrs.take(i + 1).take(i) =~= attrs.take(i));
        lemma_attrs_bytes_push(attrs.take(i), attrs[i], token);
    }
}

/// Append the MESSAGE-INTEGRITY and FINGERPRINT trailer to an encoded
/// message: rewrite the length to cover the integrity attribute,
/// append the HMAC-SHA1 tag, rewrite the length for FINGERPRINT and
/// append the masked CRC32.
pub fn encoder_integrity(buffer: &mut Vec<u8>, key: &[u8])
    requires
        old(buffer)@.len() >= 20,
        old(buffer)@.len() + 12 <= 0xFFFF,
    ensures
        final(buffer)@ == spec_signed_bytes(old(buffer)@, key@),
{
    let ghost base = old(buffer)@;
    let base_len = buffer.len();
    set_u16(buffer, 2, (base_len + 4) as u16);
    let ghost b1 = spec_set_len(base, (base.len() + 4) as u16);
    assert(buffer@ =~= b1);
    let tag = hmac_sha1(key, buffer.as_slice());
    put_u16(buffer, 0x0008);
    put_u16(buffer, 20);
    put_bytes(buffer, tag.as_slice());
    let ghost b2 = b1 + spec_be16(0x0008) + spec_be16(20) + hmac_sha1_of(key@, b1);
    assert(buffer@ =~= b2);
    set_u16(buffer, 2, (base_len + 12) as u16);
    let ghost b3 = spec_set_len(b2, (base.len() + 12) as u16);
    assert(buffer@ =~= b3);
    let fp = fingerprint(buffer.as_slice());
    put_u16(buffer, 0x8028);
    put_u16(buffer, 4);
    put_u32(buffer, fp);
    assert(buffer@ =~= spec_signed_bytes(base, key@));
}

/// Check the MESSAGE-INTEGRITY attribute of a decoded message: rewrite
/// the length to end at the integrity attribute, recompute the
/// HMAC-SHA1 over the bytes up to it, and compare with the stored tag
/// without an early exit.
pub fn assert_integrity(payload: &Message, key: &[u8]) -> (r: Result<bool, CodecError>)
    ensures
        r == spec_verify(payload@, key@),
{
    let integrity = payload.get(AttrKind::MessageIntegrity);
    match integrity {
        None => Err(CodecError::MissingIntegrity),
        Some(p) => {
            if !(20 <= payload.block && payload.block <= payload.buffer.len() && payload.block
                <= 0xFFFF - 4) {
                return Err(CodecError::MissingIntegrity);
            }
            let mut body: Vec<u8> = Vec::new();
            put_bytes(&mut body, &payload.buffer[0..2]);
            put_u16(&mut body, (payload.block + 4) as u16);
            put_bytes(&mut body, &payload.buffer[4..payload.block]);
            assert(body@ =~= spec_verify_input(payload@.buffer, payload@.block));
            let tag = hmac_sha1(key, body.as_slice());
            match p {
                Property::MessageIntegrity(x) => Ok(eq_bytes(x.as_slice(), tag.as_slice())),
                _ => Ok(false),
            }
        },
    }
}

} // verus!
