use turn_node::addr::{Addr, Family, xor_address};
use turn_node::attribute::{AttrKind, Property};
use turn_node::codec::{
    ChannelData, Message, assert_integrity, decode_channel, decode_message, encode_channel,
    encode_message, encoder_integrity,
};
use turn_node::error::{ErrKind, Error};
use turn_node::kind::Kind;
use turn_node::relay::{PacketClass, classify, handle_binding};
use turn_node::state::{Conf, RelayState};
use turn_node::util::{as_u16, as_u32, fingerprint, hmac_sha1, long_key, pad_size};

fn v4(a: u8, b: u8, c: u8, d: u8, port: u16) -> Addr {
    Addr { family: Family::V4, port, ip: vec![a, b, c, d] }
}

fn conf() -> Conf {
    Conf {
        realm: b"example".to_vec(),
        external_ip: vec![10, 0, 0, 1],
        external_family: Family::V4,
        port_min: 49152,
        port_max: 49154,
        default_lifetime: 600,
        max_lifetime: 3600,
        nonce_ttl: 3600,
        permission_ttl: 300,
        channel_ttl: 600,
    }
}

#[test]
fn pad_sizes() {
    assert_eq!(pad_size(0), 0);
    assert_eq!(pad_size(1), 3);
    assert_eq!(pad_size(2), 2);
    assert_eq!(pad_size(3), 1);
    assert_eq!(pad_size(4), 0);
    assert_eq!(pad_size(20), 0);
}

#[test]
fn big_endian_helpers() {
    assert_eq!(as_u16(&[0x21, 0x12]), 0x2112);
    assert_eq!(as_u32(&[0x21, 0x12, 0xA4, 0x42]), 0x2112A442);
}

#[test]
fn hmac_sha1_rfc2202_first_vector() {
    let key = [0x0bu8; 20];
    let tag = hmac_sha1(&key, b"Hi There");
    let expected = [
        0xb6u8, 0x17, 0x31, 0x86, 0x55, 0x05, 0x72, 0x64, 0xe2, 0x8b, 0xc0, 0xb6, 0xfb, 0x37,
        0x8c, 0x8e, 0xf1, 0x46, 0xbe, 0x00,
    ];
    assert_eq!(tag, expected.to_vec());
}

#[test]
fn long_key_matches_md5_of_colon_joined_text() {
    let key = long_key(b"u", b"example", b"p");
    let direct = <md5::Md5 as md5::Digest>::digest(b"u:example:p").to_vec();
    assert_eq!(key, direct);
    assert_eq!(key.len(), 16);
}

#[test]
fn fingerprint_is_masked_crc32() {
    let data = b"some message bytes";
    assert_eq!(fingerprint(data), crc32fast::hash(data) ^ 0x5354554E);
}

#[test]
fn xor_address_involution_v4() {
    let token = [7u8; 12];
    let a = v4(1, 2, 3, 4, 5000);
    let x = xor_address(&a, &token);
    assert_ne!(x.port, a.port);
    let back = xor_address(&x, &token);
    assert_eq!(back.port, 5000);
    assert_eq!(back.ip, vec![1, 2, 3, 4]);
}

#[test]
fn xor_address_involution_v6() {
    let token = [0xABu8; 12];
    let a = Addr { family: Family::V6, port: 443, ip: (1u8..=16).collect() };
    let back = xor_address(&xor_address(&a, &token), &token);
    assert_eq!(back.port, 443);
    assert_eq!(back.ip, (1u8..=16).collect::<Vec<u8>>());
}

#[test]
fn binding_request_wire_image() {
    let m = Message {
        kind: Kind::BindingRequest,
        token: vec![0u8; 12],
        attributes: vec![],
        buffer: vec![],
        block: 0,
    };
    let bytes = encode_message(&m, None);
    let mut expected = vec![0x00u8, 0x01, 0x00, 0x00, 0x21, 0x12, 0xA4, 0x42];
    expected.extend_from_slice(&[0u8; 12]);
    assert_eq!(bytes, expected);
}

#[test]
fn binding_request_decodes() {
    let mut wire = vec![0x00u8, 0x01, 0x00, 0x00, 0x21, 0x12, 0xA4, 0x42];
    wire.extend_from_slice(&[0u8; 12]);
    let m = decode_message(&wire).unwrap();
    assert_eq!(m.kind, Kind::BindingRequest);
    assert_eq!(m.token, vec![0u8; 12]);
    assert!(m.attributes.is_empty());
    assert_eq!(m.block, 0);
}

#[test]
fn decode_header_faults() {
    assert!(decode_message(&[0u8; 8]).is_err());
    let mut bad_cookie = vec![0x00u8, 0x01, 0x00, 0x00, 0x21, 0x12, 0xA4, 0x43];
    bad_cookie.extend_from_slice(&[0u8; 12]);
    assert!(decode_message(&bad_cookie).is_err());
    let mut short_body = vec![0x00u8, 0x01, 0x00, 0x08, 0x21, 0x12, 0xA4, 0x42];
    short_body.extend_from_slice(&[0u8; 12]);
    assert!(decode_message(&short_body).is_err());
}

#[test]
fn unknown_kind_decodes_to_unknown_message() {
    let mut wire = vec![0x0Fu8, 0xFF, 0x00, 0x00, 0x21, 0x12, 0xA4, 0x42];
    wire.extend_from_slice(&[0u8; 12]);
    let m = decode_message(&wire).unwrap();
    assert_eq!(m.kind, Kind::Unknown);
}

#[test]
fn round_trip_without_credentials() {
    let token: Vec<u8> = (1u8..=12).collect();
    let m = Message {
        kind: Kind::AllocateRequest,
        token: token.clone(),
        attributes: vec![
            (AttrKind::UserName, Property::UserName(b"u".to_vec())),
            (AttrKind::Realm, Property::Realm(b"example".to_vec())),
            (AttrKind::Lifetime, Property::Lifetime(600)),
            (AttrKind::RequestedTransport, Property::RequestedTransport),
            (AttrKind::XorMappedAddress, Property::XorMappedAddress(v4(1, 2, 3, 4, 5000))),
        ],
        buffer: vec![],
        block: 0,
    };
    let wire = encode_message(&m, None);
    let d = decode_message(&wire).unwrap();
    assert_eq!(d.kind, Kind::AllocateRequest);
    assert_eq!(d.token, token);
    assert_eq!(d.attributes.len(), 5);
    match &d.attributes[0].1 {
        Property::UserName(u) => assert_eq!(u, b"u"),
        other => panic!("expected UserName, got {:?}", other),
    }
    match &d.attributes[2].1 {
        Property::Lifetime(l) => assert_eq!(*l, 600),
        other => panic!("expected Lifetime, got {:?}", other),
    }
    match &d.attributes[4].1 {
        Property::XorMappedAddress(a) => {
            assert_eq!(a.port, 5000);
            assert_eq!(a.ip, vec![1, 2, 3, 4]);
        },
        other => panic!("expected XorMappedAddress, got {:?}", other),
    }
}

#[test]
fn round_trip_with_credentials_verifies() {
    let key = long_key(b"u", b"example", b"p");
    let m = Message {
        kind: Kind::AllocateResponse,
        token: vec![9u8; 12],
        attributes: vec![
            (AttrKind::XorRelayedAddress, Property::XorRelayedAddress(v4(10, 0, 0, 1, 49152))),
            (AttrKind::Lifetime, Property::Lifetime(600)),
        ],
        buffer: vec![],
        block: 0,
    };
    let wire = encode_message(&m, Some(&key));
    let d = decode_message(&wire).unwrap();
    assert_eq!(d.kind, Kind::AllocateResponse);
    // the trailer follows the caller's attributes
    assert_eq!(d.attributes.len(), 4);
    assert_eq!(d.attributes[2].0, AttrKind::MessageIntegrity);
    assert_eq!(d.attributes[3].0, AttrKind::Fingerprint);
    assert_eq!(assert_integrity(&d, &key), Ok(true));
    // a different key is rejected
    let wrong = long_key(b"u", b"example", b"q");
    assert_eq!(assert_integrity(&d, &wrong), Ok(false));
}

#[test]
fn integrity_scope() {
    let key = long_key(b"u", b"example", b"p");
    let m = Message {
        kind: Kind::RefreshResponse,
        token: vec![3u8; 12],
        attributes: vec![(AttrKind::Lifetime, Property::Lifetime(0))],
        buffer: vec![],
        block: 0,
    };
    let wire = encode_message(&m, Some(&key));
    // flipping a byte covered by the HMAC flips the verdict
    let mut tampered = wire.clone();
    tampered[10] ^= 0xFF;
    let d = decode_message(&tampered).unwrap();
    assert_eq!(assert_integrity(&d, &key), Ok(false));
    // flipping a byte of the trailing FINGERPRINT value does not
    let mut fp_tampered = wire.clone();
    let last = fp_tampered.len() - 1;
    fp_tampered[last] ^= 0xFF;
    let d2 = decode_message(&fp_tampered).unwrap();
    assert_eq!(assert_integrity(&d2, &key), Ok(true));
}

#[test]
fn error_code_round_trip() {
    let e = Error::from(ErrKind::Unauthorized);
    assert_eq!(e.code, 0x0401);
    assert_eq!(e.message, b"Unauthorized".to_vec());
    let mut buf = Vec::new();
    e.as_bytes(&mut buf);
    assert_eq!(&buf[..4], &[0x00, 0x00, 0x04, 0x01]);
    let back = Error::from_bytes(&buf).unwrap();
    assert_eq!(back.code, 0x0401);
    assert_eq!(back.message, b"Unauthorized".to_vec());
    assert!(Error::from_bytes(&buf[..4]).is_none());
}

#[test]
fn error_kind_codes() {
    assert_eq!(Error::from(ErrKind::BadRequest).code, 0x0400);
    assert_eq!(Error::from(ErrKind::AllocationMismatch).code, 0x0437);
    assert_eq!(Error::from(ErrKind::StaleNonce).code, 0x0438);
    assert_eq!(Error::from(ErrKind::UnsupportedTransportAddress).code, 0x0442);
    assert_eq!(Error::from(ErrKind::InsufficientCapacity).code, 0x0508);
}

#[test]
fn property_kinds() {
    assert_eq!(Property::UserName(b"u".to_vec()).kind(), AttrKind::UserName);
    assert_eq!(Property::Lifetime(1).kind(), AttrKind::Lifetime);
    assert_eq!(Property::RequestedTransport.kind(), AttrKind::RequestedTransport);
    assert_eq!(AttrKind::from_code(0x0006), Some(AttrKind::UserName));
    assert_eq!(AttrKind::from_code(0x7FFF), None);
}

#[test]
fn attr_decode_requested_transport_must_be_udp() {
    let token = [0u8; 12];
    assert!(AttrKind::RequestedTransport.from(&token, &[0x11, 0, 0, 0]).is_some());
    assert!(AttrKind::RequestedTransport.from(&token, &[0x06, 0, 0, 0]).is_none());
}

#[test]
fn channel_data_frames() {
    let cd: ChannelData = decode_channel(&[0x40, 0x00, 0x00, 0x04, 0xDE, 0xAD, 0xBE, 0xEF])
        .unwrap();
    assert_eq!(cd.number, 0x4000);
    assert_eq!(cd.payload, vec![0xDE, 0xAD, 0xBE, 0xEF]);
    let frame = encode_channel(0x4000, &[0xCA, 0xFE]);
    assert_eq!(frame, vec![0x40, 0x00, 0x00, 0x02, 0xCA, 0xFE]);
    assert!(decode_channel(&[0x40, 0x00]).is_err());
    assert!(decode_channel(&[0x40, 0x00, 0x00, 0x09, 0xCA]).is_err());
}

#[test]
fn encoder_integrity_appends_trailer() {
    let m = Message {
        kind: Kind::BindingResponse,
        token: vec![1u8; 12],
        attributes: vec![],
        buffer: vec![],
        block: 0,
    };
    let mut wire = encode_message(&m, None);
    let before = wire.len();
    let key = long_key(b"u", b"example", b"p");
    encoder_integrity(&mut wire, &key);
    assert_eq!(wire.len(), before + 32);
    // rewritten length covers both trailer attributes
    assert_eq!(as_u16(&wire[2..4]) as usize, before - 20 + 32);
}

#[test]
fn allocations_get_distinct_ports_until_exhaustion() {
    let cf = conf();
    let mut st = RelayState::new();
    let c1 = v4(1, 2, 3, 4, 5000);
    let c2 = v4(1, 2, 3, 5, 5000);
    let c3 = v4(1, 2, 3, 6, 5000);
    let c4 = v4(1, 2, 3, 7, 5000);
    let p1 = st.create_allocation(&c1, b"u", 600, 100, &cf).unwrap();
    let p2 = st.create_allocation(&c2, b"u", 600, 100, &cf).unwrap();
    let p3 = st.create_allocation(&c3, b"u", 600, 100, &cf).unwrap();
    assert_ne!(p1, p2);
    assert_ne!(p1, p3);
    assert_ne!(p2, p3);
    // pool of three is exhausted
    assert_eq!(st.create_allocation(&c4, b"u", 600, 100, &cf), None);
    // a second allocation for the same client is refused
    assert_eq!(st.create_allocation(&c1, b"u", 600, 100, &cf), None);
    assert!(st.has_allocation(&c1));
    assert!(st.port_used(p1));
}

#[test]
fn refresh_zero_is_idempotent() {
    let cf = conf();
    let mut st = RelayState::new();
    let c = v4(1, 2, 3, 4, 5000);
    st.create_allocation(&c, b"u", 600, 100, &cf).unwrap();
    assert!(st.has_allocation(&c));
    assert_eq!(st.refresh(&c, 0, 200, &cf), 0);
    assert!(!st.has_allocation(&c));
    // deleting an absent allocation still succeeds
    assert_eq!(st.refresh(&c, 0, 300, &cf), 0);
    assert!(!st.has_allocation(&c));
}

#[test]
fn refresh_clamps_to_max_lifetime() {
    let cf = conf();
    let mut st = RelayState::new();
    let c = v4(1, 2, 3, 4, 5000);
    st.create_allocation(&c, b"u", 600, 100, &cf).unwrap();
    assert_eq!(st.refresh(&c, 120, 100, &cf), 120);
    assert_eq!(st.refresh(&c, 7200, 100, &cf), 3600);
}

#[test]
fn channel_binding_and_lookups() {
    let cf = conf();
    let mut st = RelayState::new();
    let client = v4(1, 2, 3, 4, 5000);
    let peer = v4(9, 9, 9, 9, 7777);
    st.create_allocation(&client, b"u", 600, 100, &cf).unwrap();
    assert!(st.insert_channel(&client, &peer, 0x4000, 100, &cf));
    assert_eq!(st.lookup_channel(&client, 0x4000, 150).unwrap().port, 7777);
    assert_eq!(st.lookup_peer(&client, &peer, 150), Some(0x4000));
    // the binding installed a permission for the peer's IP
    assert!(st.has_permission(&client, &[9, 9, 9, 9], 150));
    // re-binding the identical pair refreshes it
    assert!(st.insert_channel(&client, &peer, 0x4000, 200, &cf));
    // the same number cannot point at another peer
    let other = v4(8, 8, 8, 8, 8888);
    assert!(!st.insert_channel(&client, &other, 0x4000, 200, &cf));
    // nor the same peer at another number
    assert!(!st.insert_channel(&client, &peer, 0x4001, 200, &cf));
    // a lapsed binding is not returned by lookups
    assert!(st.lookup_channel(&client, 0x4000, 5000).is_none());
    // without an allocation nothing binds
    let stranger = v4(7, 7, 7, 7, 7000);
    assert!(!st.insert_channel(&stranger, &peer, 0x4000, 100, &cf));
}

#[test]
fn permissions_expire_and_extend() {
    let cf = conf();
    let mut st = RelayState::new();
    let client = v4(1, 2, 3, 4, 5000);
    assert!(!st.insert_permission(&client, &[9, 9, 9, 9], 100, &cf));
    st.create_allocation(&client, b"u", 600, 100, &cf).unwrap();
    assert!(st.insert_permission(&client, &[9, 9, 9, 9], 100, &cf));
    assert!(st.has_permission(&client, &[9, 9, 9, 9], 150));
    assert!(!st.has_permission(&client, &[9, 9, 9, 9], 500));
    assert!(!st.has_permission(&client, &[8, 8, 8, 8], 150));
    // idempotent, and the expiry extends
    assert!(st.insert_permission(&client, &[9, 9, 9, 9], 300, &cf));
    assert!(st.has_permission(&client, &[9, 9, 9, 9], 500));
}

#[test]
fn nonces_rotate_when_stale() {
    let cf = conf();
    let mut st = RelayState::new();
    let client = v4(1, 2, 3, 4, 5000);
    let n1 = st.get_nonce(&client, 100, cf.nonce_ttl);
    assert_eq!(n1.len(), 16);
    assert!(n1.iter().all(|b| b.is_ascii_alphanumeric()));
    assert!(st.check_nonce(&client, &n1, 200));
    assert!(!st.check_nonce(&client, b"0000000000000000", 200));
    // the same nonce comes back while it lives
    assert_eq!(st.get_nonce(&client, 200, cf.nonce_ttl), n1);
    // past its TTL a fresh one is minted
    let n2 = st.get_nonce(&client, 100 + cf.nonce_ttl, cf.nonce_ttl);
    assert_ne!(n1, n2);
    assert!(!st.check_nonce(&client, &n1, 100 + cf.nonce_ttl));
    assert!(st.check_nonce(&client, &n2, 100 + cf.nonce_ttl));
}

#[test]
fn credentials_register_and_lookup() {
    let mut st = RelayState::new();
    let client = v4(1, 2, 3, 4, 5000);
    assert!(st.get_password(&client, b"u").is_none());
    let key = long_key(b"u", b"example", b"p");
    st.register(&client, b"u", &key, 100);
    assert_eq!(st.get_password(&client, b"u").unwrap(), key);
    assert!(st.get_password(&client, b"v").is_none());
    // re-registration replaces the key
    let key2 = long_key(b"u", b"example", b"q");
    st.register(&client, b"u", &key2, 200);
    assert_eq!(st.get_password(&client, b"u").unwrap(), key2);
}

#[test]
fn client_by_port_finds_the_owner() {
    let cf = conf();
    let mut st = RelayState::new();
    let client = v4(1, 2, 3, 4, 5000);
    let p = st.create_allocation(&client, b"u", 600, 100, &cf).unwrap();
    let owner = st.client_by_port(p).unwrap();
    assert_eq!(owner.port, 5000);
    assert_eq!(owner.ip, vec![1, 2, 3, 4]);
    assert!(st.client_by_port(p + 10).is_none());
}

#[test]
fn classify_first_byte() {
    assert!(classify(&[0x00, 0x01]).is_none());
    assert_eq!(classify(&[0x00, 0x01, 0x00, 0x00]), Some(PacketClass::Stun));
    assert_eq!(classify(&[0x03, 0, 0, 0]), Some(PacketClass::Stun));
    assert_eq!(classify(&[0x40, 0, 0, 0]), Some(PacketClass::Channel));
    assert_eq!(classify(&[0x4F, 0, 0, 0]), Some(PacketClass::Channel));
    assert_eq!(classify(&[0x50, 0, 0, 0]), Some(PacketClass::Other));
    assert_eq!(classify(&[0xFF, 0, 0, 0]), Some(PacketClass::Other));
}

#[test]
fn binding_request_gets_xor_mapped_reply() {
    let mut wire = vec![0x00u8, 0x01, 0x00, 0x00, 0x21, 0x12, 0xA4, 0x42];
    wire.extend_from_slice(&[0u8; 12]);
    let request = decode_message(&wire).unwrap();
    let client = v4(1, 2, 3, 4, 5000);
    let (reply_bytes, dest) = handle_binding(&client, &request).unwrap();
    assert_eq!(dest.port, 5000);
    let reply = decode_message(&reply_bytes).unwrap();
    assert_eq!(reply.kind, Kind::BindingResponse);
    assert_eq!(reply.attributes.len(), 1);
    match &reply.attributes[0].1 {
        Property::XorMappedAddress(a) => {
            assert_eq!(a.port, 5000);
            assert_eq!(a.ip, vec![1, 2, 3, 4]);
        },
        other => panic!("expected XorMappedAddress, got {:?}", other),
    }
    // no integrity, no fingerprint
    assert!(reply.attributes.iter().all(|(k, _)| *k != AttrKind::MessageIntegrity
        && *k != AttrKind::Fingerprint));
    assert_eq!(reply.block, 0);

    // indications and other kinds are not for this handler
    let mut other_wire = vec![0x00u8, 0x03, 0x00, 0x00, 0x21, 0x12, 0xA4, 0x42];
    other_wire.extend_from_slice(&[0u8; 12]);
    let other = decode_message(&other_wire).unwrap();
    assert!(handle_binding(&client, &other).is_none());
}
