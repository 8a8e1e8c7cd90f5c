//! Wire primitives: big-endian integer helpers, four-byte padding,
//! long-term-credential key derivation, message digests and the
//! CRC32 fingerprint.

use vstd::prelude::*;

verus! {

/// The STUN magic cookie, fixed by the protocol.
pub const MAGIC_COOKIE: u32 = 0x2112A442;

/// The value XORed into the CRC32 of a message to form the FINGERPRINT
/// attribute.
pub const FINGERPRINT_MASK: u32 = 0x5354554E;

/// Big-endian bytes of a 16-bit integer.
pub open spec fn spec_be16(x: u16) -> Seq<u8> {
    seq![(x / 256) as u8, (x % 256) as u8]
}

/// Big-endian bytes of a 32-bit integer.
pub open spec fn spec_be32(x: u32) -> Seq<u8> {
    seq![
        (x / 0x1000000) as u8,
        ((x / 0x10000) % 256) as u8,
        ((x / 256) % 256) as u8,
        (x % 256) as u8,
    ]
}

/// The 16-bit integer read big-endian from the first two bytes.
pub open spec fn spec_as_u16(b: Seq<u8>) -> u16
    recommends
        b.len() >= 2,
{
    (b[0] * 256 + b[1]) as u16
}

/// The 32-bit integer read big-endian from the first four bytes.
pub open spec fn spec_as_u32(b: Seq<u8>) -> u32
    recommends
        b.len() >= 4,
{
    (b[0] * 0x1000000 + b[1] * 0x10000 + b[2] * 256 + b[3]) as u32
}

/// Writing a 16-bit integer big-endian and reading it back is the identity.
pub proof fn lemma_be16_as_u16(x: u16)
    ensures
        spec_as_u16(spec_be16(x)) == x,
{
    assert((x / 256) * 256 + x % 256 == x) by (bit_vector);
    assert(x / 256 <= 255 && x % 256 <= 255) by (bit_vector);
}

/// Writing a 32-bit integer big-endian and reading it back is the identity.
pub proof fn lemma_be32_as_u32(x: u32)
    ensures
        spec_as_u32(spec_be32(x)) == x,
{
    assert((x / 0x1000000) * 0x1000000 + ((x / 0x10000) % 256) * 0x10000 + ((x / 256) % 256)
        * 256 + x % 256 == x) by (bit_vector);
    assert(x / 0x1000000 <= 255 && (x / 0x10000) % 256 <= 255 && (x / 256) % 256 <= 255 && x % 256
        <= 255) by (bit_vector);
}

/// Big-endian decode of two bytes.
pub fn as_u16(b: &[u8]) -> (r: u16)
    requires
        b@.len() >= 2,
    ensures
        r == spec_as_u16(b@),
{
    b[0] as u16 * 256 + b[1] as u16
}

/// Big-endian decode of four bytes.
pub fn as_u32(b: &[u8]) -> (r: u32)
    requires
        b@.len() >= 4,
    ensures
        r == spec_as_u32(b@),
{
    b[0] as u32 * 0x1000000 + b[1] as u32 * 0x10000 + b[2] as u32 * 256 + b[3] as u32
}

/// Append a 16-bit integer big-endian.
pub fn put_u16(buf: &mut Vec<u8>, x: u16)
    ensures
        final(buf)@ == old(buf)@ + spec_be16(x),
{
    buf.push((x / 256) as u8);
    buf.push((x % 256) as u8);
    assert(buf@ =~= old(buf)@ + spec_be16(x));
}

/// Append a 32-bit integer big-endian.
pub fn put_u32(buf: &mut Vec<u8>, x: u32)
    ensures
        final(buf)@ == old(buf)@ + spec_be32(x),
{
    buf.push((x / 0x1000000) as u8);
    buf.push(((x / 0x10000) % 256) as u8);
    buf.push(((x / 256) % 256) as u8);
    buf.push((x % 256) as u8);
    assert(buf@ =~= old(buf)@ + spec_be32(x));
}

/// Append a byte slice.
pub fn put_bytes(buf: &mut Vec<u8>, b: &[u8])
    ensures
        final(buf)@ == old(buf)@ + b@,
{
    buf.extend_from_slice(b);
}

/// Overwrite two bytes with a 16-bit integer, big-endian.
pub fn set_u16(buf: &mut Vec<u8>, at: usize, x: u16)
    requires
        at + 2 <= old(buf)@.len(),
    ensures
        final(buf)@ == old(buf)@.update(at as int, spec_be16(x)[0]).update(
            at + 1,
            spec_be16(x)[1],
        ),
        final(buf)@.len() == old(buf)@.len(),
{
    let n: usize = buf.len();
    proof {
        // binding the length shows the prover that `at + 1` cannot wrap
        assert(at + 2 <= n);
    }
    let hi: u8 = (x / 256) as u8;
    let lo: u8 = (x % 256) as u8;
    buf[at] = hi;
    buf[at + 1] = lo;
}

/// Number of padding bytes that align an attribute body of `n` bytes
/// to a four-byte boundary on the wire.
pub open spec fn spec_pad_size(n: nat) -> nat {
    ((4 - n % 4) % 4) as nat
}

/// A sequence of `n` zero bytes.
pub open spec fn zero_bytes(n: nat) -> Seq<u8> {
    Seq::new(n, |i: int| 0u8)
}

/// Attributes are four-byte aligned on the wire; the header carries the
/// unpadded length, so the writer appends this many zero bytes.
pub fn pad_size(n: usize) -> (r: usize)
    ensures
        r == spec_pad_size(n as nat),
        r < 4,
        (n + r) % 4 == 0,
{
    (4 - n % 4) % 4
}

/// Append `n` zero bytes (at most three are ever needed).
pub fn put_zeros(buf: &mut Vec<u8>, n: usize)
    ensures
        final(buf)@ == old(buf)@ + zero_bytes(n as nat),
{
    let mut i: usize = 0;
    while i < n
        invariant
            i <= n,
            buf@ == old(buf)@ + zero_bytes(i as nat),
        decreases n - i,
    {
        buf.push(0u8);
        assert(buf@ =~= old(buf)@ + zero_bytes((i + 1) as nat));
        i = i + 1;
    }
}

/// Whether a byte is a UTF-8 continuation byte.
pub open spec fn spec_utf8_cont(b: u8) -> bool {
    0x80 <= b <= 0xBF
}

/// Whether a byte sequence is well-formed UTF-8, by the shortest-form
/// encoding rules: ASCII; two-byte leads 0xC2..=0xDF; three-byte
/// leads with the overlong and surrogate ranges excluded; four-byte
/// leads bounded at U+10FFFF.
pub open spec fn spec_utf8_valid(s: Seq<u8>) -> bool
    decreases s.len(),
{
    if s.len() == 0 {
        true
    } else {
        let b0 = s[0];
        if b0 <= 0x7F {
            spec_utf8_valid(s.skip(1))
        } else if 0xC2 <= b0 <= 0xDF {
            s.len() >= 2 && spec_utf8_cont(s[1]) && spec_utf8_valid(s.skip(2))
        } else if b0 == 0xE0 {
            s.len() >= 3 && 0xA0 <= s[1] <= 0xBF && spec_utf8_cont(s[2]) && spec_utf8_valid(
                s.skip(3),
            )
        } else if (0xE1 <= b0 <= 0xEC) || b0 == 0xEE || b0 == 0xEF {
            s.len() >= 3 && spec_utf8_cont(s[1]) && spec_utf8_cont(s[2]) && spec_utf8_valid(
                s.skip(3),
            )
        } else if b0 == 0xED {
            s.len() >= 3 && 0x80 <= s[1] <= 0x9F && spec_utf8_cont(s[2]) && spec_utf8_valid(
                s.skip(3),
            )
        } else if b0 == 0xF0 {
            s.len() >= 4 && 0x90 <= s[1] <= 0xBF && spec_utf8_cont(s[2]) && spec_utf8_cont(s[3])
                && spec_utf8_valid(s.skip(4))
        } else if 0xF1 <= b0 <= 0xF3 {
            s.len() >= 4 && spec_utf8_cont(s[1]) && spec_utf8_cont(s[2]) && spec_utf8_cont(s[3])
                && spec_utf8_valid(s.skip(4))
        } else if b0 == 0xF4 {
            s.len() >= 4 && 0x80 <= s[1] <= 0x8F && spec_utf8_cont(s[2]) && spec_utf8_cont(s[3])
                && spec_utf8_valid(s.skip(4))
        } else {
            false
        }
    }
}

/// A sequence of ASCII bytes is well-formed UTF-8.
pub proof fn lemma_ascii_utf8(s: Seq<u8>)
    requires
        forall|i: int| 0 <= i < s.len() ==> (#[trigger] s[i]) <= 0x7F,
    ensures
        spec_utf8_valid(s),
    decreases s.len(),
{
    if s.len() > 0 {
        assert(forall|i: int|
            0 <= i < s.skip(1).len() ==> (#[trigger] s.skip(1)[i]) == s[i + 1]);
        lemma_ascii_utf8(s.skip(1));
    }
}

/// Check that a byte slice is well-formed UTF-8.
pub fn is_utf8(v: &[u8]) -> (r: bool)
    ensures
        r == spec_utf8_valid(v@),
{
    let n = v.len();
    let mut i: usize = 0;
    proof {
        assert(v@.skip(0) =~= v@);
    }
    while i < n
        invariant
            i <= n,
            n == v@.len(),
            spec_utf8_valid(v@) == spec_utf8_valid(v@.skip(i as int)),
        decreases n - i,
    {
        let ghost s = v@.skip(i as int);
        let rem = n - i;
        let b0 = v[i];
        proof {
            assert(s[0] == v@[i as int]);
            assert(forall|j: int| 0 <= j < s.len() ==> (#[trigger] s[j]) == v@[i + j]);
        }
        let width: usize = if b0 <= 0x7F {
            1
        } else if 0xC2 <= b0 && b0 <= 0xDF {
            if !(rem >= 2 && 0x80 <= v[i + 1] && v[i + 1] <= 0xBF) {
                return false;
            }
            2
        } else if b0 == 0xE0 {
            if !(rem >= 3 && 0xA0 <= v[i + 1] && v[i + 1] <= 0xBF && 0x80 <= v[i + 2] && v[i + 2]
                <= 0xBF) {
                return false;
            }
            3
        } else if (0xE1 <= b0 && b0 <= 0xEC) || b0 == 0xEE || b0 == 0xEF {
            if !(rem >= 3 && 0x80 <= v[i + 1] && v[i + 1] <= 0xBF && 0x80 <= v[i + 2] && v[i + 2]
                <= 0xBF) {
                return false;
            }
            3
        } else if b0 == 0xED {
            if !(rem >= 3 && 0x80 <= v[i + 1] && v[i + 1] <= 0x9F && 0x80 <= v[i + 2] && v[i + 2]
                <= 0xBF) {
                return false;
            }
            3
        } else if b0 == 0xF0 {
            if !(rem >= 4 && 0x90 <= v[i + 1] && v[i + 1] <= 0xBF && 0x80 <= v[i + 2] && v[i + 2]
                <= 0xBF && 0x80 <= v[i + 3] && v[i + 3] <= 0xBF) {
                return false;
            }
            4
        } else if 0xF1 <= b0 && b0 <= 0xF3 {
            if !(rem >= 4 && 0x80 <= v[i + 1] && v[i + 1] <= 0xBF && 0x80 <= v[i + 2] && v[i + 2]
                <= 0xBF && 0x80 <= v[i + 3] && v[i + 3] <= 0xBF) {
                return false;
            }
            4
        } else if b0 == 0xF4 {
            if !(rem >= 4 && 0x80 <= v[i + 1] && v[i + 1] <= 0x8F && 0x80 <= v[i + 2] && v[i + 2]
                <= 0xBF && 0x80 <= v[i + 3] && v[i + 3] <= 0xBF) {
                return false;
            }
            4
        } else {
            return false;
        };
        proof {
            assert(v@.skip(i as int).skip(width as int) =~= v@.skip(i + width));
        }
        i = i + width;
    }
    proof {
        assert(v@.skip(n as int) =~= Seq::<u8>::empty());
    }
    true
}

/// Copy a byte slice into an owned vector.
pub fn copy_bytes(v: &[u8]) -> (r: Vec<u8>)
    ensures
        r@ == v@,
{
    let mut r: Vec<u8> = Vec::new();
    put_bytes(&mut r, v);
    r
}

/// The five 32-bit words of the HMAC-SHA1 tag over `data` under `key`:
/// a fixed function of the two arguments, left unnamed beyond that.
pub uninterp spec fn hmac_sha1_words(key: Seq<u8>, data: Seq<u8>) -> (u32, u32, u32, u32, u32);

/// The 20-byte HMAC-SHA1 tag over `data` under `key`: its five words,
/// big-endian.
pub open spec fn hmac_sha1_of(key: Seq<u8>, data: Seq<u8>) -> Seq<u8> {
    let w = hmac_sha1_words(key, data);
    spec_be32(w.0) + spec_be32(w.1) + spec_be32(w.2) + spec_be32(w.3) + spec_be32(w.4)
}

/// The tag is always twenty bytes.
pub proof fn lemma_hmac_sha1_len(key: Seq<u8>, data: Seq<u8>)
    ensures
        hmac_sha1_of(key, data).len() == 20,
{
}

/// The MD5 digest of `data`: a fixed function of its argument.
pub uninterp spec fn md5_of(data: Seq<u8>) -> Seq<u8>;

/// The CRC32 (IEEE) checksum of `data`.
pub uninterp spec fn crc32_of(data: Seq<u8>) -> u32;

/// Relies on hmac::Hmac over sha1::Sha1: the 20-byte tag depends on key
/// and data alone. `new_from_slice` accepts keys of any length for HMAC.
#[verifier::external_body]
pub fn hmac_sha1(key: &[u8], data: &[u8]) -> (r: Vec<u8>)
    ensures
        ({
            let w = hmac_sha1_words(key@, data@);
            r@ == spec_be32(w.0) + spec_be32(w.1) + spec_be32(w.2) + spec_be32(w.3) + spec_be32(
                w.4,
            )
        }),
        r@ == hmac_sha1_of(key@, data@),
        r@.len() == 20,
{
    let mut mac = <hmac::Hmac<sha1::Sha1> as hmac::KeyInit>::new_from_slice(key).expect(
        "HMAC accepts keys of any length",
    );
    hmac::Mac::update(&mut mac, data);
    hmac::Mac::finalize(mac).into_bytes().to_vec()
}

/// Relies on md5::Md5 (the md-5 crate): the 16-byte digest depends on
/// the data alone.
#[verifier::external_body]
pub fn md5_digest(data: &[u8]) -> (r: Vec<u8>)
    ensures
        r@ == md5_of(data@),
        r@.len() == 16,
{
    <md5::Md5 as md5::Digest>::digest(data).to_vec()
}

/// Relies on crc32fast::hash: the CRC32-IEEE checksum of the bytes.
#[verifier::external_body]
pub fn crc32(data: &[u8]) -> (r: u32)
    ensures
        r == crc32_of(data@),
{
    crc32fast::hash(data)
}

/// Relies on rand::random: a uniformly random 32-bit integer. Nothing
/// can be promised of the value.
#[verifier::external_body]
pub fn random_u32() -> u32 {
    rand::random::<u32>()
}

/// The text `username ":" realm ":" password` whose MD5 digest is the
/// long-term credential key.
pub open spec fn spec_key_text(username: Seq<u8>, realm: Seq<u8>, password: Seq<u8>) -> Seq<u8> {
    username + seq![58u8] + realm + seq![58u8] + password
}

/// Long-term credential key derivation:
/// `MD5(username ":" realm ":" password)`.
pub fn long_key(username: &[u8], realm: &[u8], password: &[u8]) -> (r: Vec<u8>)
    ensures
        r@ == md5_of(spec_key_text(username@, realm@, password@)),
        r@.len() == 16,
{
    let mut text: Vec<u8> = Vec::new();
    put_bytes(&mut text, username);
    text.push(58u8);
    put_bytes(&mut text, realm);
    text.push(58u8);
    put_bytes(&mut text, password);
    assert(text@ =~= spec_key_text(username@, realm@, password@));
    md5_digest(text.as_slice())
}

/// The FINGERPRINT value for a buffer: its CRC32 XORed with a fixed mask.
pub open spec fn spec_fingerprint(data: Seq<u8>) -> u32 {
    crc32_of(data) ^ FINGERPRINT_MASK
}

/// CRC32 of the buffer XORed with the fingerprint mask.
pub fn fingerprint(data: &[u8]) -> (r: u32)
    ensures
        r == spec_fingerprint(data@),
{
    crc32(data) ^ FINGERPRINT_MASK
}

/// Byte-sequence equality checked without an early exit, so the time
/// taken does not depend on where the first difference lies.
pub fn eq_bytes(a: &[u8], b: &[u8]) -> (r: bool)
    ensures
        r == (a@ == b@),
{
    if a.len() != b.len() {
        return false;
    }
    let n: usize = a.len();
    let mut diff: u8 = 0;
    let mut i: usize = 0;
    while i < n
        invariant
            i <= n,
            n == a@.len() == b@.len(),
            diff == 0 <==> a@.subrange(0, i as int) =~= b@.subrange(0, i as int),
        decreases n - i,
    {
        let ghost prev = diff;
        diff = diff | (a[i] ^ b[i]);
        proof {
            let ai = a@[i as int];
            let bi = b@[i as int];
            assert(diff == 0 <==> prev == 0 && (ai ^ bi) == 0) by (bit_vector)
                requires
                    diff == prev | (ai ^ bi),
            ;
            assert((ai ^ bi) == 0 <==> ai == bi) by (bit_vector);
            if diff == 0 {
                assert(a@.subrange(0, i + 1) =~= b@.subrange(0, i + 1));
            } else {
                if a@.subrange(0, i + 1) =~= b@.subrange(0, i + 1) {
                    assert(a@.subrange(0, i + 1)[i as int] == b@.subrange(0, i + 1)[i as int]);
                    assert(prev == 0 && ai == bi);
                    assert(false);
                }
            }
        }
        i = i + 1;
    }
    proof {
        assert(a@.subrange(0, n as int) =~= a@);
        assert(b@.subrange(0, n as int) =~= b@);
        if diff == 0 {
            assert(a@ =~= b@);
        }
    }
    diff == 0
}

} // verus!
