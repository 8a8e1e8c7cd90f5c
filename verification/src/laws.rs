//! The codec's laws: decoding inverts encoding, the integrity check
//! accepts what the encoder signed and reads nothing past the
//! integrity attribute, and the fingerprint depends on the byte image
//! alone.

use vstd::prelude::*;
use crate::attribute::{
    AttrKind, PropV, spec_attr_code, spec_attr_body, spec_prop_kind, spec_prop_wf,
    lemma_attr_code_of, lemma_body_roundtrip,
};
use crate::codec::{
    CodecError, MessageV, ParsedAttrs, spec_attrs_wf, spec_attr_chunk, spec_attrs_bytes,
    spec_message_bytes, spec_set_len, spec_signed_bytes, spec_parse_attrs, spec_decode,
    spec_get_attr, spec_verify, spec_verify_input,
};
use crate::kind::{Kind, spec_kind_code, spec_kind_of, lemma_kind_code_of};
use crate::util::{
    spec_be16, spec_be32, spec_as_u16, spec_pad_size, spec_fingerprint, hmac_sha1_of,
    lemma_be16_as_u16, lemma_be32_as_u32, MAGIC_COOKIE,
};

verus! {

/// Only MESSAGE-INTEGRITY has the type code 0x0008, and only
/// FINGERPRINT has 0x8028.
proof fn lemma_attr_code_trailer(k: AttrKind)
    ensures
        k != AttrKind::MessageIntegrity ==> spec_attr_code(k) != 0x0008,
        k != AttrKind::Fingerprint ==> spec_attr_code(k) != 0x8028,
{
}

/// A list without a kind does not affect the first match of that kind.
proof fn lemma_get_attr_concat_absent(
    a: Seq<(AttrKind, PropV)>,
    b: Seq<(AttrKind, PropV)>,
    kind: AttrKind,
)
    requires
        forall|i: int| 0 <= i < a.len() ==> (#[trigger] a[i]).0 != kind,
    ensures
        spec_get_attr(a + b, kind) == spec_get_attr(b, kind),
    decreases a.len(),
{
    if a.len() == 0 {
        assert(a + b =~= b);
    } else {
        assert((a + b)[0] == a[0]);
        assert((a + b).drop_first() =~= a.drop_first() + b);
        assert(forall|i: int|
            0 <= i < a.drop_first().len() ==> (#[trigger] a.drop_first()[i]) == a[i + 1]);
        lemma_get_attr_concat_absent(a.drop_first(), b, kind);
    }
}

/// A window into a buffer equals the matching window of a sequence
/// the buffer is known to hold.
proof fn lemma_window(buf: Seq<u8>, offset: int, s: Seq<u8>, a: int, b: int)
    requires
        0 <= offset,
        offset + s.len() <= buf.len(),
        buf.subrange(offset, offset + s.len()) == s,
        0 <= a <= b <= s.len(),
    ensures
        buf.subrange(offset + a, offset + b) == s.subrange(a, b),
{
    let lhs = buf.subrange(offset + a, offset + b);
    let rhs = s.subrange(a, b);
    assert forall|i: int| 0 <= i < b - a implies lhs[i] == rhs[i] by {
        assert(lhs[i] == buf[offset + a + i]);
        assert(rhs[i] == s[a + i]);
        assert(buf.subrange(offset, offset + s.len())[a + i] == buf[offset + (a + i)]);
    }
    assert(lhs =~= rhs);
}

/// Walking the wire image of a well-formed attribute list yields that
/// list, followed by whatever the walk finds past it. The list holds
/// no MESSAGE-INTEGRITY, so the carried `found`/`block` state passes
/// through unchanged.
proof fn lemma_parse_prefix(
    buf: Seq<u8>,
    token: Seq<u8>,
    offset: int,
    attrs: Seq<(AttrKind, PropV)>,
    found: bool,
    block: int,
)
    requires
        token.len() == 12,
        spec_attrs_wf(attrs, token),
        0 <= offset,
        offset + spec_attrs_bytes(attrs, token).len() <= buf.len(),
        buf.subrange(offset, offset + spec_attrs_bytes(attrs, token).len())
            == spec_attrs_bytes(attrs, token),
    ensures
        ({
            let l = spec_attrs_bytes(attrs, token).len() as int;
            let rest = spec_parse_attrs(buf, token, offset + l, found, block);
            spec_parse_attrs(buf, token, offset, found, block) == (ParsedAttrs {
                attrs: attrs + rest.attrs,
                block: rest.block,
                found: rest.found,
            })
        }),
    decreases attrs.len(),
{
    let ab = spec_attrs_bytes(attrs, token);
    let l = ab.len() as int;
    if attrs.len() == 0 {
        let rest = spec_parse_attrs(buf, token, offset, found, block);
        assert(attrs + rest.attrs =~= rest.attrs);
        assert(spec_parse_attrs(buf, token, offset, found, block) =~= ParsedAttrs {
            attrs: attrs + rest.attrs,
            block: rest.block,
            found: rest.found,
        });
    } else {
        let a0 = attrs[0];
        let tail = attrs.drop_first();
        let tb = spec_attrs_bytes(tail, token);
        let body = spec_attr_body(a0.1, token);
        let blen = body.len() as int;
        let pad = spec_pad_size(body.len()) as int;
        let chunk = spec_attr_chunk(a0.0, a0.1, token);
        let clen = 4 + blen + pad;
        assert(attrs[0].0 == spec_prop_kind(attrs[0].1) && spec_prop_wf(attrs[0].1, token)
            && attrs[0].0 != AttrKind::MessageIntegrity && attrs[0].0 != AttrKind::Fingerprint);
        assert(chunk.len() == clen);
        assert(ab == chunk + tb);
        assert(clen <= l);

        let hd = spec_be16(spec_attr_code(a0.0));
        let ln = spec_be16(body.len() as u16);
        let zs = crate::util::zero_bytes(spec_pad_size(body.len()));
        assert(chunk == hd + ln + body + zs);

        // the pieces of the image, read off index by index
        assert forall|i: int| 0 <= i < 2 implies ab[i] == hd[i] by {
            assert(ab[i] == (chunk + tb)[i]);
            assert((chunk + tb)[i] == chunk[i]);
            assert(chunk[i] == (hd + ln + body + zs)[i]);
            assert((hd + ln + body + zs)[i] == hd[i]);
        }
        assert forall|i: int| 0 <= i < 2 implies ab[2 + i] == ln[i] by {
            assert(ab[2 + i] == (chunk + tb)[2 + i]);
            assert((chunk + tb)[2 + i] == chunk[2 + i]);
            assert(chunk[2 + i] == (hd + ln + body + zs)[2 + i]);
            assert((hd + ln + body + zs)[2 + i] == ln[i]);
        }
        assert forall|i: int| 0 <= i < blen implies ab[4 + i] == body[i] by {
            assert(ab[4 + i] == (chunk + tb)[4 + i]);
            assert((chunk + tb)[4 + i] == chunk[4 + i]);
            assert(chunk[4 + i] == (hd + ln + body + zs)[4 + i]);
            assert((hd + ln + body + zs)[4 + i] == body[i]);
        }
        assert forall|i: int| 0 <= i < l - clen implies ab[clen + i] == tb[i] by {
            assert(ab[clen + i] == (chunk + tb)[clen + i]);
        }

        lemma_window(buf, offset, ab, 0, 2);
        assert(buf.subrange(offset, offset + 2) == ab.subrange(0, 2));
        assert(ab.subrange(0, 2) =~= hd);
        lemma_be16_as_u16(spec_attr_code(a0.0));
        let key = spec_as_u16(buf.subrange(offset, offset + 2));
        assert(key == spec_attr_code(a0.0));
        lemma_attr_code_trailer(a0.0);
        assert(key != 0x0008);

        lemma_window(buf, offset, ab, 2, 4);
        assert(ab.subrange(2, 4) =~= ln);
        lemma_be16_as_u16(body.len() as u16);
        assert(spec_as_u16(buf.subrange(offset + 2, offset + 4)) as int == blen);

        assert(buf.len() - (offset + 4) >= blen);
        lemma_window(buf, offset, ab, 4, 4 + blen);
        assert(ab.subrange(4, 4 + blen) =~= body);
        assert(buf.subrange(offset + 4, offset + 4 + blen) == body);

        assert(blen == 0 ==> pad == 0);
        let off3 = if blen > 0 {
            offset + 4 + blen + pad
        } else {
            offset + 4
        };
        assert(off3 == offset + clen);
        assert(off3 <= buf.len());

        lemma_attr_code_of(a0.0);
        lemma_body_roundtrip(a0.1, token);

        assert forall|i: int|
            0 <= i < tail.len() implies ((#[trigger] tail[i]).0 == spec_prop_kind(tail[i].1)
            && spec_prop_wf(tail[i].1, token) && tail[i].0 != AttrKind::MessageIntegrity
            && tail[i].0 != AttrKind::Fingerprint) by {
            assert(tail[i] == attrs[i + 1]);
            assert(attrs[i + 1].0 == spec_prop_kind(attrs[i + 1].1) && spec_prop_wf(
                attrs[i + 1].1,
                token,
            ) && attrs[i + 1].0 != AttrKind::MessageIntegrity && attrs[i + 1].0
                != AttrKind::Fingerprint);
        }
        assert(spec_attrs_wf(tail, token));
        lemma_window(buf, offset, ab, clen, l);
        assert(ab.subrange(clen, l) =~= tb);
        assert(buf.subrange(offset + clen, offset + clen + tb.len()) == tb);
        lemma_parse_prefix(buf, token, offset + clen, tail, found, block);

        let rest = spec_parse_attrs(buf, token, offset + clen + tb.len(), found, block);
        assert(offset + clen + tb.len() == offset + l);
        let mid = spec_parse_attrs(buf, token, offset + clen, found, block);
        assert(mid == ParsedAttrs { attrs: tail + rest.attrs, block: rest.block, found: rest.found });
        assert(spec_parse_attrs(buf, token, offset, found, block) == ParsedAttrs {
            attrs: seq![(a0.0, a0.1)] + mid.attrs,
            block: mid.block,
            found: mid.found,
        });
        assert(seq![(a0.0, a0.1)] + (tail + rest.attrs) =~= attrs + rest.attrs);
        assert(spec_parse_attrs(buf, token, offset, found, block) =~= ParsedAttrs {
            attrs: attrs + rest.attrs,
            block: rest.block,
            found: rest.found,
        });
    }
}


/// The reads a decoder makes of an encoded message's header, and the
/// body region it walks.
proof fn lemma_message_header(kind: Kind, token: Seq<u8>, attrs: Seq<(AttrKind, PropV)>)
    requires
        token.len() == 12,
    ensures
        ({
            let ab = spec_attrs_bytes(attrs, token);
            let buf = spec_message_bytes(kind, token, attrs);
            &&& buf.len() == 20 + ab.len()
            &&& buf.subrange(0, 2) == spec_be16(spec_kind_code(kind))
            &&& buf.subrange(2, 4) == spec_be16(ab.len() as u16)
            &&& buf.subrange(4, 8) == spec_be32(MAGIC_COOKIE)
            &&& buf.subrange(8, 20) == token
            &&& buf.subrange(20, buf.len() as int) == ab
        }),
{
    let ab = spec_attrs_bytes(attrs, token);
    let buf = spec_message_bytes(kind, token, attrs);
    let h1 = spec_be16(spec_kind_code(kind));
    let h2 = spec_be16(ab.len() as u16);
    let h3 = spec_be32(MAGIC_COOKIE);
    assert(buf == h1 + h2 + h3 + token + ab);
    assert forall|j: int| 0 <= j < 2 implies buf[j] == h1[j] by {
        assert(buf[j] == ((((h1 + h2) + h3) + token) + ab)[j]);
        assert((((h1 + h2) + h3) + token)[j] == ((h1 + h2) + h3)[j]);
        assert(((h1 + h2) + h3)[j] == (h1 + h2)[j]);
        assert((h1 + h2)[j] == h1[j]);
    }
    assert forall|j: int| 0 <= j < 2 implies buf[2 + j] == h2[j] by {
        assert(buf[2 + j] == ((((h1 + h2) + h3) + token) + ab)[2 + j]);
        assert((((h1 + h2) + h3) + token)[2 + j] == ((h1 + h2) + h3)[2 + j]);
        assert(((h1 + h2) + h3)[2 + j] == (h1 + h2)[2 + j]);
        assert((h1 + h2)[2 + j] == h2[j]);
    }
    assert forall|j: int| 0 <= j < 4 implies buf[4 + j] == h3[j] by {
        assert(buf[4 + j] == ((((h1 + h2) + h3) + token) + ab)[4 + j]);
        assert((((h1 + h2) + h3) + token)[4 + j] == ((h1 + h2) + h3)[4 + j]);
        assert(((h1 + h2) + h3)[4 + j] == h3[j]);
    }
    assert forall|j: int| 0 <= j < 12 implies buf[8 + j] == token[j] by {
        assert(buf[8 + j] == ((((h1 + h2) + h3) + token) + ab)[8 + j]);
        assert((((h1 + h2) + h3) + token)[8 + j] == token[j]);
    }
    assert forall|j: int| 0 <= j < ab.len() implies buf[20 + j] == ab[j] by {
        assert(buf[20 + j] == ((((h1 + h2) + h3) + token) + ab)[20 + j]);
    }
    assert(buf.subrange(0, 2) =~= h1);
    assert(buf.subrange(2, 4) =~= h2);
    assert(buf.subrange(4, 8) =~= h3);
    assert(buf.subrange(8, 20) =~= token);
    assert(buf.subrange(20, buf.len() as int) =~= ab);
}

/// Round trip without credentials: decoding an encoded message gives
/// back its kind, transaction id and attribute list exactly, with no
/// integrity offset.
pub proof fn lemma_decode_encode(kind: Kind, token: Seq<u8>, attrs: Seq<(AttrKind, PropV)>)
    requires
        kind != Kind::Unknown,
        token.len() == 12,
        spec_attrs_wf(attrs, token),
        spec_attrs_bytes(attrs, token).len() + 32 <= 0xFFFF,
    ensures
        ({
            let buf = spec_message_bytes(kind, token, attrs);
            &&& spec_decode(buf) is Ok
            &&& spec_decode(buf)->Ok_0.kind == kind
            &&& spec_decode(buf)->Ok_0.token == token
            &&& spec_decode(buf)->Ok_0.attributes == attrs
            &&& spec_decode(buf)->Ok_0.block == 0
            &&& spec_decode(buf)->Ok_0.buffer == buf
        }),
{
    let ab = spec_attrs_bytes(attrs, token);
    let l = ab.len() as int;
    let buf = spec_message_bytes(kind, token, attrs);
    lemma_message_header(kind, token, attrs);
    lemma_be16_as_u16(spec_kind_code(kind));
    lemma_kind_code_of(kind);
    assert(spec_kind_of(spec_as_u16(buf.subrange(0, 2))) == kind);
    crate::util::lemma_be32_as_u32(MAGIC_COOKIE);
    assert(crate::util::spec_as_u32(buf.subrange(4, 8)) == MAGIC_COOKIE);
    lemma_be16_as_u16(ab.len() as u16);
    assert(spec_as_u16(buf.subrange(2, 4)) == l);
    assert(!(buf.len() < spec_as_u16(buf.subrange(2, 4)) + 20));
    lemma_parse_prefix(buf, token, 20, attrs, false, 0);
    let rest = spec_parse_attrs(buf, token, 20 + l, false, 0);
    assert(rest == ParsedAttrs { attrs: Seq::<(AttrKind, PropV)>::empty(), block: 0, found: false });
    assert(attrs + rest.attrs =~= attrs);
    assert(spec_decode(buf) is Ok);
}


/// Round trip with credentials: decoding a signed encoding gives back
/// the kind, transaction id and attribute list, followed by exactly
/// the MESSAGE-INTEGRITY and FINGERPRINT attributes the codec
/// appended; the integrity offset names where the trailer begins, and
/// the integrity check over the decoded message accepts.
#[verifier::rlimit(100)]
pub proof fn lemma_decode_encode_signed(
    kind: Kind,
    token: Seq<u8>,
    attrs: Seq<(AttrKind, PropV)>,
    key: Seq<u8>,
)
    requires
        kind != Kind::Unknown,
        token.len() == 12,
        spec_attrs_wf(attrs, token),
        spec_attrs_bytes(attrs, token).len() + 32 <= 0xFFFF,
    ensures
        ({
            let base = spec_message_bytes(kind, token, attrs);
            let b1 = spec_set_len(base, (base.len() + 4) as u16);
            let tag = hmac_sha1_of(key, b1);
            let full = spec_signed_bytes(base, key);
            &&& spec_decode(full) is Ok
            &&& ({
                let m = spec_decode(full)->Ok_0;
                &&& m.kind == kind
                &&& m.token == token
                &&& m.attributes.len() == attrs.len() + 2
                &&& m.attributes.take(attrs.len() as int) == attrs
                &&& m.attributes[attrs.len() as int] == (
                    AttrKind::MessageIntegrity,
                    PropV::MessageIntegrity(tag),
                )
                &&& m.block == base.len()
                &&& m.buffer == full
                &&& spec_verify(m, key) == Ok::<bool, CodecError>(true)
            })
        }),
{
    let ab = spec_attrs_bytes(attrs, token);
    let l = ab.len() as int;
    let base = spec_message_bytes(kind, token, attrs);
    lemma_message_header(kind, token, attrs);
    let bl = base.len() as int;
    assert(bl == 20 + l);

    let b1 = spec_set_len(base, (bl + 4) as u16);
    let tag = hmac_sha1_of(key, b1);
    let mi1 = spec_be16(0x0008);
    let mi2 = spec_be16(20);
    let b2 = b1 + mi1 + mi2 + tag;
    let b3 = spec_set_len(b2, (bl + 12) as u16);
    let fp = spec_fingerprint(b3);
    let f1 = spec_be16(0x8028);
    let f2 = spec_be16(4);
    let f3 = spec_be32(fp);
    let full = b3 + f1 + f2 + f3;
    assert(full == spec_signed_bytes(base, key));
    assert(tag.len() == 20);
    assert(b1.len() == bl);
    assert(b2.len() == bl + 24);
    assert(b3.len() == bl + 24);
    assert(full.len() == bl + 32);

    // b1 agrees with base off the length field
    assert forall|j: int| 0 <= j < bl && j != 2 && j != 3 implies b1[j] == base[j] by {}
    assert(b1[2] == spec_be16((bl + 4) as u16)[0]);
    assert(b1[3] == spec_be16((bl + 4) as u16)[1]);

    // b2 extends b1 with the integrity chunk
    assert forall|j: int| 0 <= j < bl implies b2[j] == b1[j] by {
        assert(b2[j] == (((b1 + mi1) + mi2) + tag)[j]);
        assert(((b1 + mi1) + mi2)[j] == (b1 + mi1)[j]);
        assert((b1 + mi1)[j] == b1[j]);
    }
    assert forall|j: int| 0 <= j < 2 implies b2[bl + j] == mi1[j] && b2[bl + 2 + j] == mi2[j] by {
        assert(b2[bl + j] == (((b1 + mi1) + mi2) + tag)[bl + j]);
        assert(((b1 + mi1) + mi2)[bl + j] == (b1 + mi1)[bl + j]);
        assert((b1 + mi1)[bl + j] == mi1[j]);
        assert(b2[bl + 2 + j] == (((b1 + mi1) + mi2) + tag)[bl + 2 + j]);
        assert(((b1 + mi1) + mi2)[bl + 2 + j] == mi2[j]);
    }
    assert forall|j: int| 0 <= j < 20 implies b2[bl + 4 + j] == tag[j] by {
        assert(b2[bl + 4 + j] == (((b1 + mi1) + mi2) + tag)[bl + 4 + j]);
    }

    // b3 agrees with b2 off the length field
    assert forall|j: int| 0 <= j < bl + 24 && j != 2 && j != 3 implies b3[j] == b2[j] by {}
    assert(b3[2] == spec_be16((bl + 12) as u16)[0]);
    assert(b3[3] == spec_be16((bl + 12) as u16)[1]);

    // the final image
    assert forall|j: int| 0 <= j < bl + 24 implies full[j] == b3[j] by {
        assert(full[j] == (((b3 + f1) + f2) + f3)[j]);
        assert(((b3 + f1) + f2)[j] == (b3 + f1)[j]);
        assert((b3 + f1)[j] == b3[j]);
    }
    assert forall|j: int| 0 <= j < 2 implies full[bl + 24 + j] == f1[j] && full[bl + 26 + j]
        == f2[j] by {
        assert(full[bl + 24 + j] == (((b3 + f1) + f2) + f3)[bl + 24 + j]);
        assert(((b3 + f1) + f2)[bl + 24 + j] == (b3 + f1)[bl + 24 + j]);
        assert((b3 + f1)[bl + 24 + j] == f1[j]);
        assert(full[bl + 26 + j] == (((b3 + f1) + f2) + f3)[bl + 26 + j]);
        assert(((b3 + f1) + f2)[bl + 26 + j] == f2[j]);
    }
    assert forall|j: int| 0 <= j < 4 implies full[bl + 28 + j] == f3[j] by {
        assert(full[bl + 28 + j] == (((b3 + f1) + f2) + f3)[bl + 28 + j]);
    }

    // header reads
    assert(full.subrange(0, 2) =~= base.subrange(0, 2));
    lemma_be16_as_u16(spec_kind_code(kind));
    lemma_kind_code_of(kind);
    assert(spec_kind_of(spec_as_u16(full.subrange(0, 2))) == kind);
    assert(full.subrange(4, 8) =~= base.subrange(4, 8));
    crate::util::lemma_be32_as_u32(MAGIC_COOKIE);
    assert(crate::util::spec_as_u32(full.subrange(4, 8)) == MAGIC_COOKIE);
    assert(full.subrange(2, 4) =~= spec_be16((bl + 12) as u16));
    lemma_be16_as_u16((bl + 12) as u16);
    assert(spec_as_u16(full.subrange(2, 4)) == bl + 12);
    assert(!(full.len() < spec_as_u16(full.subrange(2, 4)) + 20));
    assert(full.subrange(8, 20) =~= token);

    // the attribute region of the base is untouched
    assert(full.subrange(20, 20 + l) =~= ab);
    lemma_parse_prefix(full, token, 20, attrs, false, 0);
    let rest = spec_parse_attrs(full, token, 20 + l, false, 0);

    // the walk reads the integrity chunk
    assert(full.subrange(bl, bl + 2) =~= mi1);
    lemma_be16_as_u16(0x0008);
    assert(spec_as_u16(full.subrange(bl, bl + 2)) == 0x0008);
    assert(full.subrange(bl + 2, bl + 4) =~= mi2);
    lemma_be16_as_u16(20);
    assert(spec_as_u16(full.subrange(bl + 2, bl + 4)) == 20);
    assert(full.subrange(bl + 4, bl + 24) =~= tag);
    assert(spec_pad_size(20) == 0);

    // and then the fingerprint chunk
    assert(full.subrange(bl + 24, bl + 26) =~= f1);
    lemma_be16_as_u16(0x8028);
    assert(spec_as_u16(full.subrange(bl + 24, bl + 26)) == 0x8028);
    assert(full.subrange(bl + 26, bl + 28) =~= f2);
    lemma_be16_as_u16(4);
    assert(spec_as_u16(full.subrange(bl + 26, bl + 28)) == 4);
    assert(full.subrange(bl + 28, bl + 32) =~= f3);
    lemma_be32_as_u32(fp);
    assert(spec_pad_size(4) == 0);

    let r3 = spec_parse_attrs(full, token, bl + 32, true, bl);
    assert(r3 == ParsedAttrs { attrs: Seq::<(AttrKind, PropV)>::empty(), block: bl, found: true });
    let r2 = spec_parse_attrs(full, token, bl + 24, true, bl);
    assert(r2 == ParsedAttrs {
        attrs: seq![(AttrKind::Fingerprint, PropV::Fingerprint(fp))],
        block: bl,
        found: true,
    });
    assert(rest == ParsedAttrs {
        attrs: seq![
            (AttrKind::MessageIntegrity, PropV::MessageIntegrity(tag)),
            (AttrKind::Fingerprint, PropV::Fingerprint(fp)),
        ],
        block: bl,
        found: true,
    });

    let pr = spec_parse_attrs(full, token, 20, false, 0);
    assert(pr.attrs == attrs + rest.attrs);
    assert(pr.found);
    assert(pr.block == bl);

    assert(spec_decode(full) is Ok);
    let m = spec_decode(full)->Ok_0;
    assert(m.attributes == attrs + rest.attrs);
    assert(m.attributes.len() == attrs.len() + 2);
    assert(m.attributes.take(attrs.len() as int) =~= attrs);
    assert(m.attributes[attrs.len() as int] == (
        AttrKind::MessageIntegrity,
        PropV::MessageIntegrity(tag),
    ));
    assert(m.block == bl);

    // the integrity check accepts
    assert forall|i: int| 0 <= i < attrs.len() implies (#[trigger] attrs[i]).0
        != AttrKind::MessageIntegrity by {}
    lemma_get_attr_concat_absent(attrs, rest.attrs, AttrKind::MessageIntegrity);
    assert(spec_get_attr(rest.attrs, AttrKind::MessageIntegrity) == Some(
        PropV::MessageIntegrity(tag),
    ));
    assert(spec_get_attr(m.attributes, AttrKind::MessageIntegrity) == Some(
        PropV::MessageIntegrity(tag),
    ));
    assert(20 <= m.block && m.block <= m.buffer.len() && m.block + 4 <= 0xFFFF);
    let vin = spec_verify_input(full, bl);
    let vh = full.subrange(0, 2);
    let vl = spec_be16((bl + 4) as u16);
    let vb = full.subrange(4, bl);
    assert(vin == (vh + vl) + vb);
    assert forall|j: int| 0 <= j < bl implies vin[j] == b1[j] by {
        assert(vin[j] == ((vh + vl) + vb)[j]);
        if j < 2 {
            assert(((vh + vl) + vb)[j] == (vh + vl)[j]);
            assert((vh + vl)[j] == vh[j]);
            assert(vh[j] == full[j]);
        } else if j < 4 {
            assert(((vh + vl) + vb)[j] == (vh + vl)[j]);
            assert((vh + vl)[j] == vl[j - 2]);
        } else {
            assert(((vh + vl) + vb)[j] == vb[j - 4]);
            assert(vb[j - 4] == full[j]);
        }
    }
    assert(vin =~= b1);
    assert(hmac_sha1_of(key, vin) == tag);
    assert(spec_verify(m, key) == Ok::<bool, CodecError>(true));
}


/// Fingerprint commutativity: the trailer the codec appends — the
/// fingerprint last of all — is a function of the message's byte image
/// alone. Two attribute lists with identical byte layout get identical
/// trailers, whatever order produced them.
pub proof fn lemma_fingerprint_commutes(
    kind1: Kind,
    token1: Seq<u8>,
    attrs1: Seq<(AttrKind, PropV)>,
    kind2: Kind,
    token2: Seq<u8>,
    attrs2: Seq<(AttrKind, PropV)>,
    key: Seq<u8>,
)
    requires
        spec_message_bytes(kind1, token1, attrs1) == spec_message_bytes(kind2, token2, attrs2),
    ensures
        spec_signed_bytes(spec_message_bytes(kind1, token1, attrs1), key) == spec_signed_bytes(
            spec_message_bytes(kind2, token2, attrs2),
            key,
        ),
        spec_fingerprint(spec_set_len(
            spec_message_bytes(kind1, token1, attrs1) + spec_be16(0x0008) + spec_be16(20)
                + hmac_sha1_of(
                key,
                spec_set_len(
                    spec_message_bytes(kind1, token1, attrs1),
                    (spec_message_bytes(kind1, token1, attrs1).len() + 4) as u16,
                ),
            ),
            (spec_message_bytes(kind1, token1, attrs1).len() + 12) as u16,
        )) == spec_fingerprint(spec_set_len(
            spec_message_bytes(kind2, token2, attrs2) + spec_be16(0x0008) + spec_be16(20)
                + hmac_sha1_of(
                key,
                spec_set_len(
                    spec_message_bytes(kind2, token2, attrs2),
                    (spec_message_bytes(kind2, token2, attrs2).len() + 4) as u16,
                ),
            ),
            (spec_message_bytes(kind2, token2, attrs2).len() + 12) as u16,
        )),
{
}

/// Integrity scope, the half that holds of every message: the check
/// reads nothing at or past the integrity attribute. Two messages that
/// agree on the bytes before it, on its offset and on the stored tag
/// get the same verdict — in particular, changing the FINGERPRINT
/// attribute never flips the check.
pub proof fn lemma_verify_scope(m1: MessageV, m2: MessageV, key: Seq<u8>)
    requires
        m1.block == m2.block,
        m1.block <= m1.buffer.len(),
        m2.block <= m2.buffer.len(),
        m1.buffer.subrange(0, m1.block) == m2.buffer.subrange(0, m2.block),
        spec_get_attr(m1.attributes, AttrKind::MessageIntegrity) == spec_get_attr(
            m2.attributes,
            AttrKind::MessageIntegrity,
        ),
    ensures
        spec_verify(m1, key) == spec_verify(m2, key),
{
    let g = spec_get_attr(m1.attributes, AttrKind::MessageIntegrity);
    if g is Some && 20 <= m1.block && m1.block + 4 <= 0xFFFF {
        let bl = m1.block;
        assert forall|j: int| 0 <= j < bl implies m1.buffer[j] == m2.buffer[j] by {
            assert(m1.buffer.subrange(0, bl)[j] == m1.buffer[j]);
            assert(m2.buffer.subrange(0, bl)[j] == m2.buffer[j]);
        }
        assert(m1.buffer.subrange(0, 2) =~= m2.buffer.subrange(0, 2));
        assert(m1.buffer.subrange(4, bl) =~= m2.buffer.subrange(4, bl));
        assert(spec_verify_input(m1.buffer, bl) == spec_verify_input(m2.buffer, bl));
    }
}

} // verus!
