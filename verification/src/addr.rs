//! Transport addresses and the XOR on-wire mapping.
//!
//! An address is a family, a port and the raw IP bytes (four for IPv4,
//! sixteen for IPv6). On the wire an address attribute is either
//! *mapped* (plain) or *xor-mapped*: the port XORed with the high
//! sixteen bits of the magic cookie, the IP bytes XORed with the cookie
//! (IPv4) or with cookie ∥ transaction id (IPv6).

use vstd::prelude::*;
use crate::util::{
    spec_be16, spec_be32, spec_as_u16, as_u16, put_u16, put_bytes, eq_bytes, MAGIC_COOKIE,
};

verus! {

/// Address family.
#[derive(Clone, Copy, PartialEq, Eq, Structural, Debug)]
pub enum Family {
    V4,
    V6,
}

/// A transport address: family, port, raw IP bytes.
#[derive(Clone, Debug)]
pub struct Addr {
    pub family: Family,
    pub port: u16,
    pub ip: Vec<u8>,
}

/// Mathematical value of an [`Addr`].
#[verifier::ext_equal]
pub ghost struct AddrV {
    pub family: Family,
    pub port: u16,
    pub ip: Seq<u8>,
}

impl View for Addr {
    type V = AddrV;

    open spec fn view(&self) -> AddrV {
        AddrV { family: self.family, port: self.port, ip: self.ip@ }
    }
}

/// An address is well formed when its IP length matches its family.
pub open spec fn addr_wf(a: AddrV) -> bool {
    match a.family {
        Family::V4 => a.ip.len() == 4,
        Family::V6 => a.ip.len() == 16,
    }
}

/// The family byte used on the wire.
pub open spec fn spec_family_byte(f: Family) -> u8 {
    match f {
        Family::V4 => 1u8,
        Family::V6 => 2u8,
    }
}

/// Byte `i` of the XOR mask: the magic cookie for the first four bytes,
/// then the transaction id.
pub open spec fn spec_xor_mask_byte(token: Seq<u8>, i: int) -> u8 {
    if i < 4 {
        spec_be32(MAGIC_COOKIE)[i]
    } else {
        token[i - 4]
    }
}

/// IP bytes XORed with cookie ∥ transaction id.
pub open spec fn spec_xor_ip(ip: Seq<u8>, token: Seq<u8>) -> Seq<u8> {
    Seq::new(ip.len(), |i: int| ip[i] ^ spec_xor_mask_byte(token, i))
}

/// The XOR address mapping: port XORed with the high sixteen bits of
/// the cookie, IP XORed with cookie ∥ transaction id.
pub open spec fn spec_xor_addr(a: AddrV, token: Seq<u8>) -> AddrV {
    AddrV { family: a.family, port: a.port ^ 0x2112, ip: spec_xor_ip(a.ip, token) }
}

/// XORing twice with the same byte gives the byte back.
proof fn lemma_xor_u8_involution()
    by (bit_vector)
    ensures
        forall|x: u8, y: u8| #[trigger] ((x ^ y) ^ y) == x,
{
}

/// The XOR address mapping is its own inverse.
pub proof fn lemma_xor_addr_involution(a: AddrV, token: Seq<u8>)
    requires
        a.ip.len() <= token.len() + 4,
    ensures
        spec_xor_addr(spec_xor_addr(a, token), token) == a,
{
    let p = a.port;
    assert(((p ^ 0x2112) ^ 0x2112) == p) by (bit_vector);
    lemma_xor_u8_involution();
    assert(spec_xor_ip(spec_xor_ip(a.ip, token), token) =~= a.ip);
    assert(spec_xor_addr(spec_xor_addr(a, token), token) =~= a);
}

/// The four bytes of the magic cookie.
fn cookie_byte(i: usize) -> (r: u8)
    requires
        i < 4,
    ensures
        r == spec_be32(MAGIC_COOKIE)[i as int],
{
    if i == 0 {
        0x21
    } else if i == 1 {
        0x12
    } else if i == 2 {
        0xA4
    } else {
        0x42
    }
}

/// Apply the XOR address mapping. Pure, and its own inverse.
pub fn xor_address(a: &Addr, token: &[u8]) -> (r: Addr)
    requires
        a@.ip.len() <= token@.len() + 4,
    ensures
        r@ == spec_xor_addr(a@, token@),
{
    let n: usize = a.ip.len();
    let mut ip: Vec<u8> = Vec::new();
    let mut i: usize = 0;
    while i < n
        invariant
            i <= n,
            n == a@.ip.len(),
            n <= token@.len() + 4,
            ip@ =~= spec_xor_ip(a@.ip, token@).subrange(0, i as int),
        decreases n - i,
    {
        let m: u8 = if i < 4 {
            cookie_byte(i)
        } else {
            token[i - 4]
        };
        ip.push(a.ip[i] ^ m);
        assert(ip@ =~= spec_xor_ip(a@.ip, token@).subrange(0, i + 1));
        i = i + 1;
    }
    assert(ip@ =~= spec_xor_ip(a@.ip, token@));
    let r = Addr { family: a.family, port: a.port ^ 0x2112, ip };
    assert(r@ =~= spec_xor_addr(a@, token@));
    r
}

/// An owned copy of an address.
pub fn dup_addr(a: &Addr) -> (r: Addr)
    ensures
        r@ == a@,
{
    let mut ip: Vec<u8> = Vec::new();
    put_bytes(&mut ip, a.ip.as_slice());
    Addr { family: a.family, port: a.port, ip }
}

/// Field-wise equality of two addresses.
pub fn addr_eq(a: &Addr, b: &Addr) -> (r: bool)
    ensures
        r == (a@ == b@),
{
    let fam = a.family == b.family;
    let r = fam && a.port == b.port && eq_bytes(a.ip.as_slice(), b.ip.as_slice());
    proof {
        if r {
            assert(a@ =~= b@);
        }
    }
    r
}

/// The wire form of an address attribute body: a zero byte, the family
/// byte, the (possibly XORed) port big-endian, the (possibly XORed)
/// IP bytes.
pub open spec fn spec_addr_wire(a: AddrV, token: Seq<u8>, xored: bool) -> Seq<u8> {
    let e = if xored {
        spec_xor_addr(a, token)
    } else {
        a
    };
    seq![0u8, spec_family_byte(a.family)] + spec_be16(e.port) + e.ip
}

/// Parse of an address attribute body; `None` when malformed.
pub open spec fn spec_addr_parse(v: Seq<u8>, token: Seq<u8>, xored: bool) -> Option<AddrV> {
    if v.len() < 4 {
        None
    } else {
        let fam = if v[1] == 1 {
            Some(Family::V4)
        } else if v[1] == 2 {
            Some(Family::V6)
        } else {
            None
        };
        match fam {
            None => None,
            Some(f) => if (f == Family::V4 && v.len() == 8) || (f == Family::V6 && v.len()
                == 20) {
                let raw = AddrV {
                    family: f,
                    port: spec_as_u16(v.subrange(2, 4)),
                    ip: v.subrange(4, v.len() as int),
                };
                Some(
                    if xored {
                        spec_xor_addr(raw, token)
                    } else {
                        raw
                    },
                )
            } else {
                None
            },
        }
    }
}

/// Append the wire form of an address to a buffer.
pub fn addr_to_bytes(a: &Addr, token: &[u8], xored: bool, buf: &mut Vec<u8>)
    requires
        xored ==> a@.ip.len() <= token@.len() + 4,
    ensures
        final(buf)@ == old(buf)@ + spec_addr_wire(a@, token@, xored),
{
    buf.push(0u8);
    buf.push(match a.family {
        Family::V4 => 1u8,
        Family::V6 => 2u8,
    });
    if xored {
        let e = xor_address(a, token);
        put_u16(buf, e.port);
        put_bytes(buf, e.ip.as_slice());
    } else {
        put_u16(buf, a.port);
        put_bytes(buf, a.ip.as_slice());
    }
    assert(buf@ =~= old(buf)@ + spec_addr_wire(a@, token@, xored));
}

/// Decode the wire form of an address attribute body.
pub fn addr_from_bytes(v: &[u8], token: &[u8], xored: bool) -> (r: Option<Addr>)
    requires
        xored ==> token@.len() >= 12,
    ensures
        match r {
            Some(a) => spec_addr_parse(v@, token@, xored) == Some(a@),
            None => spec_addr_parse(v@, token@, xored) is None,
        },
{
    if v.len() < 4 {
        return None;
    }
    let family = if v[1] == 1 {
        Family::V4
    } else if v[1] == 2 {
        Family::V6
    } else {
        return None;
    };
    let iplen: usize = match family {
        Family::V4 => 4,
        Family::V6 => 16,
    };
    if v.len() != 4 + iplen {
        return None;
    }
    let port = as_u16(&v[2..4]);
    let mut ip: Vec<u8> = Vec::new();
    put_bytes(&mut ip, &v[4..v.len()]);
    let raw = Addr { family, port, ip };
    assert(raw@ =~= AddrV {
        family,
        port: spec_as_u16(v@.subrange(2, 4)),
        ip: v@.subrange(4, v@.len() as int),
    });
    if xored {
        let x = xor_address(&raw, token);
        Some(x)
    } else {
        Some(raw)
    }
}

/// Parsing the wire form of a well-formed address gives the address back.
pub proof fn lemma_addr_wire_parse(a: AddrV, token: Seq<u8>, xored: bool)
    requires
        addr_wf(a),
        token.len() >= 12,
    ensures
        spec_addr_parse(spec_addr_wire(a, token, xored), token, xored) == Some(a),
{
    let w = spec_addr_wire(a, token, xored);
    let e = if xored {
        spec_xor_addr(a, token)
    } else {
        a
    };
    assert(w.len() == 4 + a.ip.len());
    assert(w[1] == spec_family_byte(a.family));
    assert(w.subrange(2, 4) =~= spec_be16(e.port));
    assert(w.subrange(4, w.len() as int) =~= e.ip);
    crate::util::lemma_be16_as_u16(e.port);
    let raw = AddrV { family: a.family, port: e.port, ip: e.ip };
    assert(spec_addr_parse(w, token, xored) == Some(
        if xored {
            spec_xor_addr(raw, token)
        } else {
            raw
        },
    ));
    if xored {
        assert(raw =~= spec_xor_addr(a, token));
        lemma_xor_addr_involution(a, token);
    }
}

} // verus!
