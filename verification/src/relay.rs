//! Inbound datagram classification and the Binding handler.
//!
//! A datagram is classified by its first byte: the STUN range, the
//! channel-data range, or noise to drop. Datagrams shorter than four
//! bytes are dropped silently.

use vstd::prelude::*;
use crate::addr::{Addr, AddrV, addr_wf, dup_addr};
use crate::attribute::{AttrKind, PropV, Property, spec_prop_kind};
use crate::codec::{
    CodecError, Message, MessageV, assert_integrity, decode_channel, decode_message,
    encode_channel, encode_message, spec_attr_chunk, spec_attrs_bytes, spec_decode,
    spec_decode_channel, spec_get_attr, spec_message_bytes, spec_signed_bytes, spec_verify,
    view_pairs,
};
use crate::error::{ErrKind, Error, ErrorV, spec_err_code, spec_err_reason};
use crate::kind::Kind;
use crate::state::{
    Conf, RelayState, MAX_TIME, conf_wf, state_wf, spec_cred_key, spec_has_alloc, spec_nonce_ok,
    spec_perm_live, is_alnum,
};
use crate::util::{copy_bytes, lemma_ascii_utf8, spec_utf8_valid};

verus! {

/// What a datagram's first byte says it carries.
#[derive(Clone, Copy, PartialEq, Eq, Structural, Debug)]
pub enum PacketClass {
    /// `0x00..=0x03`: a STUN-framed message.
    Stun,
    /// `0x40..=0x4F`: a channel-data frame.
    Channel,
    /// Anything else: dropped.
    Other,
}

/// Classification of a first byte.
pub open spec fn spec_classify(b: u8) -> PacketClass {
    if b <= 0x03 {
        PacketClass::Stun
    } else if 0x40 <= b && b <= 0x4F {
        PacketClass::Channel
    } else {
        PacketClass::Other
    }
}

/// Classify an inbound datagram; `None` when it is too short to be
/// anything and must be dropped.
pub fn classify(data: &[u8]) -> (r: Option<PacketClass>)
    ensures
        r == (if data@.len() < 4 {
            None::<PacketClass>
        } else {
            Some(spec_classify(data@[0]))
        }),
{
    if data.len() < 4 {
        return None;
    }
    let b = data[0];
    if b <= 0x03 {
        Some(PacketClass::Stun)
    } else if 0x40 <= b && b <= 0x4F {
        Some(PacketClass::Channel)
    } else {
        Some(PacketClass::Other)
    }
}

/// Handle a Binding request: no authentication; the success response
/// carries exactly the client's transport address, XOR-mapped, and is
/// neither signed nor fingerprinted. Any other kind is not for this
/// handler.
pub fn handle_binding(client: &Addr, message: &Message) -> (r: Option<(Vec<u8>, Addr)>)
    requires
        addr_wf(client@),
        message@.token.len() == 12,
    ensures
        match r {
            Some(out) => message@.kind == Kind::BindingRequest && out.1@ == client@ && out.0@
                == spec_message_bytes(
                Kind::BindingResponse,
                message@.token,
                seq![(AttrKind::XorMappedAddress, PropV::XorMappedAddress(client@))],
            ),
            None => message@.kind != Kind::BindingRequest,
        },
{
    if message.kind != Kind::BindingRequest {
        return None;
    }
    let mut attributes: Vec<(AttrKind, Property)> = Vec::new();
    attributes.push((AttrKind::XorMappedAddress, Property::XorMappedAddress(dup_addr(client))));
    let reply = Message {
        kind: Kind::BindingResponse,
        token: crate::util::copy_bytes(message.token.as_slice()),
        attributes,
        buffer: Vec::new(),
        block: 0,
    };
    let ghost attrs = seq![(AttrKind::XorMappedAddress, PropV::XorMappedAddress(client@))];
    proof {
        assert(view_pairs(reply.attributes@) =~= attrs);
        assert(spec_attrs_bytes(attrs.drop_first(), message@.token) == Seq::<u8>::empty());
        assert(spec_attrs_bytes(attrs, message@.token) =~= crate::codec::spec_attr_chunk(
            AttrKind::XorMappedAddress,
            PropV::XorMappedAddress(client@),
            message@.token,
        ) + Seq::<u8>::empty());
        assert(spec_attrs_bytes(attrs, message@.token).len() <= 24);
    }
    let bytes = encode_message(&reply, None);
    Some((bytes, dup_addr(client)))
}

/// The USERNAME a message carries, when its first USERNAME attribute
/// is one.
pub open spec fn msg_username(m: MessageV) -> Option<Seq<u8>> {
    match spec_get_attr(m.attributes, AttrKind::UserName) {
        Some(PropV::UserName(u)) => Some(u),
        _ => None,
    }
}

/// Whether a REALM attribute is present.
pub open spec fn msg_realm_present(m: MessageV) -> bool {
    match spec_get_attr(m.attributes, AttrKind::Realm) {
        Some(PropV::Realm(_)) => true,
        _ => false,
    }
}

/// Whether a MESSAGE-INTEGRITY attribute is present.
pub open spec fn msg_integrity_present(m: MessageV) -> bool {
    match spec_get_attr(m.attributes, AttrKind::MessageIntegrity) {
        Some(PropV::MessageIntegrity(_)) => true,
        _ => false,
    }
}

/// The NONCE a message carries.
pub open spec fn msg_nonce(m: MessageV) -> Option<Seq<u8>> {
    match spec_get_attr(m.attributes, AttrKind::Nonce) {
        Some(PropV::Nonce(n)) => Some(n),
        _ => None,
    }
}

/// The LIFETIME a message carries.
pub open spec fn msg_lifetime(m: MessageV) -> Option<u32> {
    match spec_get_attr(m.attributes, AttrKind::Lifetime) {
        Some(PropV::Lifetime(l)) => Some(l),
        _ => None,
    }
}

/// The CHANNEL-NUMBER a message carries.
pub open spec fn msg_channel(m: MessageV) -> Option<u16> {
    match spec_get_attr(m.attributes, AttrKind::ChannelNumber) {
        Some(PropV::ChannelNumber(c)) => Some(c),
        _ => None,
    }
}

/// The first XOR-PEER-ADDRESS a message carries.
pub open spec fn msg_peer(m: MessageV) -> Option<AddrV> {
    match spec_get_attr(m.attributes, AttrKind::XorPeerAddress) {
        Some(PropV::XorPeerAddress(a)) => Some(a),
        _ => None,
    }
}

/// The DATA payload a message carries.
pub open spec fn msg_data(m: MessageV) -> Option<Seq<u8>> {
    match spec_get_attr(m.attributes, AttrKind::Data) {
        Some(PropV::Data(d)) => Some(d),
        _ => None,
    }
}

/// Whether a REQUESTED-TRANSPORT attribute is present (its decoder
/// only accepts UDP).
pub open spec fn msg_transport_present(m: MessageV) -> bool {
    match spec_get_attr(m.attributes, AttrKind::RequestedTransport) {
        Some(PropV::RequestedTransport) => true,
        _ => false,
    }
}

/// The authentication preamble's verdict on a request: 401 when
/// USERNAME, REALM or MESSAGE-INTEGRITY is missing, 438 when the nonce
/// is absent, wrong or expired, 401 again when the username has no
/// registered key or the HMAC does not check out; none when all pass.
pub open spec fn auth_failure(s: RelayState, m: MessageV, client: AddrV, now: u64) -> Option<
    ErrKind,
> {
    if msg_username(m) is None || !msg_realm_present(m) || !msg_integrity_present(m) {
        Some(ErrKind::Unauthorized)
    } else if !(match msg_nonce(m) {
        Some(n) => spec_nonce_ok(s, client, n, now),
        None => false,
    }) {
        Some(ErrKind::StaleNonce)
    } else {
        let u = match msg_username(m) {
            Some(u) => u,
            None => Seq::empty(),
        };
        match spec_cred_key(s, client, u) {
            None => Some(ErrKind::Unauthorized),
            Some(k) => if spec_verify(m, k) == Ok::<bool, CodecError>(true) {
                None
            } else {
                Some(ErrKind::Unauthorized)
            },
        }
    }
}

/// Whether the client's nonce ledger holds exactly this value.
pub open spec fn spec_nonce_is(s: RelayState, client: AddrV, n: Seq<u8>) -> bool {
    exists|i: int|
        0 <= i < s.nonces@.len() && (#[trigger] s.nonces@[i]).client@ == client
            && s.nonces@[i].value@ == n
}

/// The byte image of an error response: ERROR-CODE with the kind's
/// code and reason, the realm, and the client's current nonce.
pub open spec fn spec_error_response(
    kind: Kind,
    token: Seq<u8>,
    e: ErrKind,
    realm: Seq<u8>,
    nonce: Seq<u8>,
) -> Seq<u8> {
    spec_message_bytes(
        kind,
        token,
        seq![
            (
                AttrKind::ErrorAttrKind,
                PropV::ErrorCode(ErrorV { code: spec_err_code(e), message: spec_err_reason(e) }),
            ),
            (AttrKind::Realm, PropV::Realm(realm)),
            (AttrKind::Nonce, PropV::Nonce(nonce)),
        ],
    )
}

/// An error outcome: the response goes back to the client, built as
/// [`spec_error_response`] around the nonce the state now holds.
pub open spec fn error_out(
    out: Option<(Seq<u8>, AddrV)>,
    post: RelayState,
    conf: Conf,
    client: AddrV,
    kind: Kind,
    token: Seq<u8>,
    e: ErrKind,
) -> bool {
    match out {
        Some(ba) => ba.1 == client && (exists|n: Seq<u8>|
            #![auto]
            ba.0 == spec_error_response(kind, token, e, conf.realm@, n) && spec_nonce_is(
                post,
                client,
                n,
            )),
        None => false,
    }
}

impl Message {
    /// The USERNAME this message carries, if any.
    pub fn username(&self) -> (r: Option<Vec<u8>>)
        ensures
            match r {
                Some(u) => msg_username(self@) == Some(u@),
                None => msg_username(self@) is None,
            },
    {
        match self.get(AttrKind::UserName) {
            Some(Property::UserName(u)) => Some(copy_bytes(u.as_slice())),
            _ => None,
        }
    }

    /// The NONCE this message carries, if any.
    pub fn nonce(&self) -> (r: Option<Vec<u8>>)
        ensures
            match r {
                Some(n) => msg_nonce(self@) == Some(n@),
                None => msg_nonce(self@) is None,
            },
    {
        match self.get(AttrKind::Nonce) {
            Some(Property::Nonce(n)) => Some(copy_bytes(n.as_slice())),
            _ => None,
        }
    }

    /// The LIFETIME this message carries, if any.
    pub fn lifetime(&self) -> (r: Option<u32>)
        ensures
            r == msg_lifetime(self@),
    {
        match self.get(AttrKind::Lifetime) {
            Some(Property::Lifetime(l)) => Some(*l),
            _ => None,
        }
    }

    /// The CHANNEL-NUMBER this message carries, if any.
    pub fn channel_number(&self) -> (r: Option<u16>)
        ensures
            r == msg_channel(self@),
    {
        match self.get(AttrKind::ChannelNumber) {
            Some(Property::ChannelNumber(c)) => Some(*c),
            _ => None,
        }
    }

    /// The first XOR-PEER-ADDRESS this message carries, if any.
    pub fn peer(&self) -> (r: Option<Addr>)
        ensures
            match r {
                Some(a) => msg_peer(self@) == Some(a@),
                None => msg_peer(self@) is None,
            },
    {
        match self.get(AttrKind::XorPeerAddress) {
            Some(Property::XorPeerAddress(a)) => Some(dup_addr(a)),
            _ => None,
        }
    }

    /// The DATA payload this message carries, if any.
    pub fn data(&self) -> (r: Option<Vec<u8>>)
        ensures
            match r {
                Some(d) => msg_data(self@) == Some(d@),
                None => msg_data(self@) is None,
            },
    {
        match self.get(AttrKind::Data) {
            Some(Property::Data(d)) => Some(copy_bytes(d.as_slice())),
            _ => None,
        }
    }

    /// Whether a REALM attribute is present.
    pub fn has_realm(&self) -> (r: bool)
        ensures
            r == msg_realm_present(self@),
    {
        match self.get(AttrKind::Realm) {
            Some(Property::Realm(_)) => true,
            _ => false,
        }
    }

    /// Whether a MESSAGE-INTEGRITY attribute is present.
    pub fn has_integrity(&self) -> (r: bool)
        ensures
            r == msg_integrity_present(self@),
    {
        match self.get(AttrKind::MessageIntegrity) {
            Some(Property::MessageIntegrity(_)) => true,
            _ => false,
        }
    }

    /// Whether a REQUESTED-TRANSPORT attribute is present.
    pub fn has_transport(&self) -> (r: bool)
        ensures
            r == msg_transport_present(self@),
    {
        match self.get(AttrKind::RequestedTransport) {
            Some(Property::RequestedTransport) => true,
            _ => false,
        }
    }
}

/// Run the authentication preamble of §-style long-term credentials:
/// required attributes, nonce freshness, known user, HMAC check. Reads
/// the state only; the caller builds the error response.
pub fn authenticate(state: &RelayState, client: &Addr, message: &Message, now: u64) -> (r: Result<
    Vec<u8>,
    ErrKind,
>)
    requires
        state_wf(*state),
    ensures
        match r {
            Ok(k) => auth_failure(*state, message@, client@, now) is None && (match msg_username(
                message@,
            ) {
                Some(u) => spec_cred_key(*state, client@, u) == Some(k@),
                None => false,
            }),
            Err(e) => auth_failure(*state, message@, client@, now) == Some(e),
        },
{
    let username = match message.username() {
        Some(u) => u,
        None => {
            return Err(ErrKind::Unauthorized);
        },
    };
    if !message.has_realm() || !message.has_integrity() {
        return Err(ErrKind::Unauthorized);
    }
    let nonce = match message.nonce() {
        Some(n) => n,
        None => {
            return Err(ErrKind::StaleNonce);
        },
    };
    if !state.check_nonce(client, nonce.as_slice(), now) {
        return Err(ErrKind::StaleNonce);
    }
    let key = match state.get_password(client, username.as_slice()) {
        Some(k) => k,
        None => {
            proof {
                if spec_cred_key(*state, client@, username@) is Some {
                    let i = choose|i: int|
                        0 <= i < state.credentials@.len() && (#[trigger] state.credentials@[
                        i]).client@ == client@ && state.credentials@[i].username@ == username@;
                    assert(false);
                }
            }
            return Err(ErrKind::Unauthorized);
        },
    };
    proof {
        let i = choose|i: int|
            0 <= i < state.credentials@.len() && (#[trigger] state.credentials@[i]).client@
                == client@ && state.credentials@[i].username@ == username@ && state.credentials@[
            i].key@ == key@;
        let j = choose|j: int|
            0 <= j < state.credentials@.len() && (#[trigger] state.credentials@[j]).client@
                == client@ && state.credentials@[j].username@ == username@;
        if i < j {
            assert(!(state.credentials@[i].client@ == state.credentials@[j].client@
                && state.credentials@[i].username@ == state.credentials@[j].username@));
        } else if j < i {
            assert(!(state.credentials@[j].client@ == state.credentials@[i].client@
                && state.credentials@[j].username@ == state.credentials@[i].username@));
        }
        assert(spec_cred_key(*state, client@, username@) == Some(key@));
    }
    match assert_integrity(message, key.as_slice()) {
        Ok(true) => Ok(key),
        _ => Err(ErrKind::Unauthorized),
    }
}

/// The view of a handler outcome.
pub open spec fn out_view(r: Option<(Vec<u8>, Addr)>) -> Option<(Seq<u8>, AddrV)> {
    match r {
        Some(ba) => Some((ba.0@, ba.1@)),
        None => None,
    }
}

/// Build an error response: ERROR-CODE, REALM and the client's current
/// nonce (minting a fresh one when none lives), unsigned.
#[verifier::rlimit(100)]
fn error_response(
    state: &mut RelayState,
    conf: &Conf,
    client: &Addr,
    kind: Kind,
    token: &Vec<u8>,
    e: ErrKind,
    now: u64,
) -> (r: Vec<u8>)
    requires
        state_wf(*old(state)),
        conf_wf(*conf),
        now <= MAX_TIME,
        token@.len() == 12,
        kind != Kind::Unknown,
    ensures
        state_wf(*final(state)),
        final(state).credentials@ == old(state).credentials@,
        final(state).allocations@ == old(state).allocations@,
        exists|n: Seq<u8>|
            #![auto]
            r@ == spec_error_response(kind, token@, e, conf.realm@, n) && spec_nonce_is(
                *final(state),
                client@,
                n,
            ),
{
    let nonce = state.get_nonce(client, now, conf.nonce_ttl);
    proof {
        if crate::state::spec_nonce_live(*old(state), client@, now) {
            let i = choose|i: int|
                0 <= i < old(state).nonces@.len() && (#[trigger] old(state).nonces@[i]).client@
                    == client@ && old(state).nonces@[i].expires > now;
            assert(nonce@ == old(state).nonces@[i].value@);
            assert(state.nonces@[i].client@ == client@ && state.nonces@[i].value@ == nonce@);
        }
        assert(spec_nonce_is(*state, client@, nonce@));
        let j = choose|j: int|
            0 <= j < state.nonces@.len() && (#[trigger] state.nonces@[j]).client@ == client@
                && state.nonces@[j].value@ == nonce@;
        assert(state.nonces@[j].value@.len() == 16 && spec_utf8_valid(state.nonces@[j].value@));
        assert(nonce@.len() == 16 && spec_utf8_valid(nonce@));
    }
    let mut attributes: Vec<(AttrKind, Property)> = Vec::new();
    attributes.push((AttrKind::ErrorAttrKind, Property::ErrorCode(Error::from(e))));
    attributes.push((AttrKind::Realm, Property::Realm(copy_bytes(conf.realm.as_slice()))));
    attributes.push((AttrKind::Nonce, Property::Nonce(copy_bytes(nonce.as_slice()))));
    let reply = Message {
        kind,
        token: copy_bytes(token.as_slice()),
        attributes,
        buffer: Vec::new(),
        block: 0,
    };
    let ghost attrs = seq![
        (
            AttrKind::ErrorAttrKind,
            PropV::ErrorCode(ErrorV { code: spec_err_code(e), message: spec_err_reason(e) }),
        ),
        (AttrKind::Realm, PropV::Realm(conf.realm@)),
        (AttrKind::Nonce, PropV::Nonce(nonce@)),
    ];
    proof {
        assert(view_pairs(reply.attributes@) =~= attrs);
        assert(spec_err_reason(e).len() >= 2);
        assert(spec_err_reason(e).len() <= 40);
        let t = token@;
        let rest1 = attrs.drop_first();
        let rest2 = rest1.drop_first();
        assert(rest2.drop_first() =~= Seq::<(AttrKind, PropV)>::empty());
        assert(spec_attrs_bytes(rest2.drop_first(), t) == Seq::<u8>::empty());
        assert(spec_attrs_bytes(rest2, t) =~= spec_attr_chunk(rest2[0].0, rest2[0].1, t)
            + spec_attrs_bytes(rest2.drop_first(), t));
        assert(spec_attrs_bytes(rest1, t) =~= spec_attr_chunk(rest1[0].0, rest1[0].1, t)
            + spec_attrs_bytes(rest2, t));
        assert(spec_attrs_bytes(attrs, t) =~= spec_attr_chunk(attrs[0].0, attrs[0].1, t)
            + spec_attrs_bytes(rest1, t));
        assert(spec_attrs_bytes(attrs, t).len() + 32 <= 0xFFFF);
    }
    let bytes = encode_message(&reply, None);
    bytes
}

/// Handle a Refresh request, per the original's Refresh path: after
/// the authentication preamble, read LIFETIME (600 when absent),
/// refresh or delete the allocation — a zero lifetime succeeds even
/// with none to delete — and answer with the clamped lifetime, signed.
#[verifier::rlimit(100)]
pub fn handle_refresh(
    state: &mut RelayState,
    conf: &Conf,
    client: &Addr,
    message: &Message,
    now: u64,
) -> (r: Option<(Vec<u8>, Addr)>)
    requires
        state_wf(*old(state)),
        conf_wf(*conf),
        addr_wf(client@),
        now <= MAX_TIME,
        message@.token.len() == 12,
    ensures
        state_wf(*final(state)),
        final(state).credentials@ == old(state).credentials@,
        message@.kind != Kind::RefreshRequest ==> r is None && *final(state) == *old(state),
        message@.kind == Kind::RefreshRequest ==> match auth_failure(
            *old(state),
            message@,
            client@,
            now,
        ) {
            Some(e) => final(state).allocations@ == old(state).allocations@ && error_out(
                out_view(r),
                *final(state),
                *conf,
                client@,
                Kind::RefreshError,
                message@.token,
                e,
            ),
            None => ({
                let l = match msg_lifetime(message@) {
                    Some(l) => l,
                    None => 600,
                };
                let clamped: u32 = if l <= conf.max_lifetime {
                    l
                } else {
                    conf.max_lifetime
                };
                &&& final(state).nonces@ == old(state).nonces@
                &&& (l == 0 ==> !spec_has_alloc(*final(state), client@) && ({
                    ||| (exists|i: int|
                        0 <= i < old(state).allocations@.len() && (#[trigger] old(state).allocations@[i]).client@ == client@ && final(state).allocations@ == old(state).allocations@.remove(i))
                    ||| (!spec_has_alloc(*old(state), client@) && final(state).allocations@ == old(state).allocations@)
                }))
                &&& (l > 0 && !spec_has_alloc(*old(state), client@) ==> final(state).allocations@
                    == old(state).allocations@)
                &&& (l > 0 ==> (forall|i: int|
                    0 <= i < old(state).allocations@.len() && (#[trigger] old(state).allocations@[i]).client@ == client@ ==> {
                        &&& final(state).allocations@.len() == old(state).allocations@.len()
                        &&& (forall|j: int|
                            0 <= j < old(state).allocations@.len() && j != i ==> final(state).allocations@[j] == old(state).allocations@[j])
                        &&& final(state).allocations@[i].client@ == client@
                        &&& final(state).allocations@[i].expires == now + clamped
                        &&& final(state).allocations@[i].relayed_port == old(state).allocations@[i].relayed_port
                        &&& final(state).allocations@[i].channels@ == old(state).allocations@[i].channels@
                        &&& final(state).allocations@[i].permissions@ == old(state).allocations@[i].permissions@
                    }))
                &&& (match r {
                    Some(ba) => ba.1@ == client@ && (match msg_username(message@) {
                        Some(u) => spec_cred_key(*old(state), client@, u) == Some(
                            spec_cred_key(*old(state), client@, u)->Some_0,
                        ) && ba.0@ == spec_signed_bytes(
                            spec_message_bytes(
                                Kind::RefreshResponse,
                                message@.token,
                                seq![(AttrKind::Lifetime, PropV::Lifetime(clamped))],
                            ),
                            spec_cred_key(*old(state), client@, u)->Some_0,
                        ),
                        None => false,
                    }),
                    None => false,
                })
            }),
        },
{
    if message.kind != Kind::RefreshRequest {
        return None;
    }
    let key = match authenticate(state, client, message, now) {
        Ok(k) => k,
        Err(e) => {
            let bytes = error_response(state, conf, client, Kind::RefreshError, &message.token, e, now);
            return Some((bytes, dup_addr(client)));
        },
    };
    let l = match message.lifetime() {
        Some(l) => l,
        None => 600,
    };
    let clamped = state.refresh(client, l, now, conf);
    let mut attributes: Vec<(AttrKind, Property)> = Vec::new();
    attributes.push((AttrKind::Lifetime, Property::Lifetime(clamped)));
    let reply = Message {
        kind: Kind::RefreshResponse,
        token: copy_bytes(message.token.as_slice()),
        attributes,
        buffer: Vec::new(),
        block: 0,
    };
    let ghost attrs = seq![(AttrKind::Lifetime, PropV::Lifetime(clamped))];
    proof {
        assert(view_pairs(reply.attributes@) =~= attrs);
        assert(attrs.drop_first() =~= Seq::<(AttrKind, PropV)>::empty());
        assert(spec_attrs_bytes(attrs.drop_first(), message@.token) == Seq::<u8>::empty());
        assert(spec_attrs_bytes(attrs, message@.token) =~= spec_attr_chunk(
            attrs[0].0,
            attrs[0].1,
            message@.token,
        ) + Seq::<u8>::empty());
        assert(spec_attrs_bytes(attrs, message@.token).len() + 32 <= 0xFFFF);
    }
    let bytes = encode_message(&reply, Some(&key));
    Some((bytes, dup_addr(client)))
}

/// How many XOR-PEER-ADDRESS attributes a list carries.
pub open spec fn spec_peer_count(attrs: Seq<(AttrKind, PropV)>) -> nat
    decreases attrs.len(),
{
    if attrs.len() == 0 {
        0
    } else {
        spec_peer_count(attrs.drop_last()) + (match attrs.last().1 {
            PropV::XorPeerAddress(_) => 1nat,
            _ => 0nat,
        })
    }
}

impl Message {
    /// How many XOR-PEER-ADDRESS attributes this message carries.
    pub fn peer_count(&self) -> (r: usize)
        requires
            self.attributes@.len() <= 0xFFFF,
        ensures
            r == spec_peer_count(self@.attributes),
    {
        let ghost full = self@.attributes;
        let n = self.attributes.len();
        let mut i: usize = 0;
        let mut count: usize = 0;
        proof {
            assert(full.take(0) =~= Seq::<(AttrKind, PropV)>::empty());
        }
        while i < n
            invariant
                i <= n,
                count <= i,
                n == self.attributes@.len(),
                n <= 0xFFFF,
                full == view_pairs(self.attributes@),
                count == spec_peer_count(full.take(i as int)),
            decreases n - i,
        {
            proof {
                assert(full.take(i + 1).drop_last() =~= full.take(i as int));
                assert(full.take(i + 1).last() == full[i as int]);
            }
            match &self.attributes[i].1 {
                Property::XorPeerAddress(_) => {
                    count = count + 1;
                },
                _ => (),
            }
            i = i + 1;
        }
        proof {
            assert(full.take(n as int) =~= full);
        }
        count
    }
}

/// Whether an address's IP length matches its family.
fn addr_is_wf(a: &Addr) -> (r: bool)
    ensures
        r == addr_wf(a@),
{
    match a.family {
        crate::addr::Family::V4 => a.ip.len() == 4,
        crate::addr::Family::V6 => a.ip.len() == 16,
    }
}

/// Every permission of the old ledger is still present with the same
/// IP and an expiry at least as late.
pub open spec fn perms_extended(olds: Seq<crate::state::Permission>, news: Seq<crate::state::Permission>) -> bool {
    forall|k: int|
        0 <= k < olds.len() ==> exists|m: int|
            0 <= m < news.len() && (#[trigger] news[m]).ip@ == (#[trigger] olds[k]).ip@
                && news[m].expires >= olds[k].expires
}

/// Handle an Allocate request: after the authentication preamble,
/// UDP REQUESTED-TRANSPORT is required (else 442); a second allocation
/// for the client is refused (437); an exhausted pool answers 508;
/// otherwise a relayed port is leased for the desired lifetime —
/// the client's LIFETIME, the configured default when absent, clamped
/// to the maximum — and the signed success response carries the
/// relayed address, the client's mapped address, and that lifetime.
#[verifier::rlimit(100)]
pub fn handle_allocate(
    state: &mut RelayState,
    conf: &Conf,
    client: &Addr,
    message: &Message,
    now: u64,
) -> (r: Option<(Vec<u8>, Addr)>)
    requires
        state_wf(*old(state)),
        conf_wf(*conf),
        addr_wf(client@),
        now <= MAX_TIME,
        message@.token.len() == 12,
    ensures
        state_wf(*final(state)),
        final(state).credentials@ == old(state).credentials@,
        message@.kind != Kind::AllocateRequest ==> r is None && *final(state) == *old(state),
        message@.kind == Kind::AllocateRequest ==> match auth_failure(*old(state), message@, client@, now) {
            Some(e) => final(state).allocations@ == old(state).allocations@ && error_out(out_view(r), *final(state), *conf, client@, Kind::AllocateError, message@.token, e),
            None => ({
                let desired0 = match msg_lifetime(message@) {
                    Some(l) => l,
                    None => conf.default_lifetime,
                };
                let desired: u32 = if desired0 <= conf.max_lifetime {
                    desired0
                } else {
                    conf.max_lifetime
                };
                if !msg_transport_present(message@) {
                    final(state).allocations@ == old(state).allocations@ && error_out(out_view(r), *final(state), *conf, client@, Kind::AllocateError, message@.token, ErrKind::UnsupportedTransportAddress)
                } else if spec_has_alloc(*old(state), client@) {
                    final(state).allocations@ == old(state).allocations@ && error_out(out_view(r), *final(state), *conf, client@, Kind::AllocateError, message@.token, ErrKind::AllocationMismatch)
                } else if forall|p: u16| conf.port_min <= p <= conf.port_max ==> crate::state::spec_port_used(*old(state), p) {
                    final(state).allocations@ == old(state).allocations@ && error_out(out_view(r), *final(state), *conf, client@, Kind::AllocateError, message@.token, ErrKind::InsufficientCapacity)
                } else {
                    &&& final(state).nonces@ == old(state).nonces@
                    &&& exists|p: u16|
                        #![auto]
                        {
                            &&& conf.port_min <= p <= conf.port_max
                            &&& !crate::state::spec_port_used(*old(state), p)
                            &&& final(state).allocations@.len() == old(state).allocations@.len() + 1
                            &&& (forall|j: int|
                                0 <= j < old(state).allocations@.len() ==> final(state).allocations@[j] == old(state).allocations@[j])
                            &&& ({
                                let a = final(state).allocations@[old(state).allocations@.len() as int];
                                &&& a.client@ == client@
                                &&& a.relayed_port == p
                                &&& a.expires == now + desired
                                &&& a.permissions@.len() == 0
                                &&& a.channels@.len() == 0
                            })
                            &&& (match r {
                                Some(ba) => ba.1@ == client@ && (match msg_username(message@) {
                                    Some(u) => ba.0@ == spec_signed_bytes(
                                        spec_message_bytes(
                                            Kind::AllocateResponse,
                                            message@.token,
                                            seq![
                                                (
                                                    AttrKind::XorRelayedAddress,
                                                    PropV::XorRelayedAddress(
                                                        AddrV {
                                                            family: conf.external_family,
                                                            port: p,
                                                            ip: conf.external_ip@,
                                                        },
                                                    ),
                                                ),
                                                (
                                                    AttrKind::XorMappedAddress,
                                                    PropV::XorMappedAddress(client@),
                                                ),
                                                (AttrKind::Lifetime, PropV::Lifetime(desired)),
                                            ],
                                        ),
                                        spec_cred_key(*old(state), client@, u)->Some_0,
                                    ),
                                    None => false,
                                }),
                                None => false,
                            })
                        }
                }
            }),
        },
{
    if message.kind != Kind::AllocateRequest {
        return None;
    }
    let key = match authenticate(state, client, message, now) {
        Ok(k) => k,
        Err(e) => {
            let bytes = error_response(state, conf, client, Kind::AllocateError, &message.token, e, now);
            return Some((bytes, dup_addr(client)));
        },
    };
    if !message.has_transport() {
        let bytes = error_response(
            state,
            conf,
            client,
            Kind::AllocateError,
            &message.token,
            ErrKind::UnsupportedTransportAddress,
            now,
        );
        return Some((bytes, dup_addr(client)));
    }
    let desired0 = match message.lifetime() {
        Some(l) => l,
        None => conf.default_lifetime,
    };
    let desired: u32 = if desired0 <= conf.max_lifetime {
        desired0
    } else {
        conf.max_lifetime
    };
    if state.has_allocation(client) {
        let bytes = error_response(
            state,
            conf,
            client,
            Kind::AllocateError,
            &message.token,
            ErrKind::AllocationMismatch,
            now,
        );
        return Some((bytes, dup_addr(client)));
    }
    let username = match message.username() {
        Some(u) => u,
        None => {
            proof {
                assert(false);
            }
            Vec::new()
        },
    };
    let port = match state.create_allocation(client, username.as_slice(), desired, now, conf) {
        Some(p) => p,
        None => {
            let bytes = error_response(
                state,
                conf,
                client,
                Kind::AllocateError,
                &message.token,
                ErrKind::InsufficientCapacity,
                now,
            );
            return Some((bytes, dup_addr(client)));
        },
    };
    let relayed = Addr {
        family: conf.external_family,
        port,
        ip: copy_bytes(conf.external_ip.as_slice()),
    };
    let mut attributes: Vec<(AttrKind, Property)> = Vec::new();
    attributes.push((AttrKind::XorRelayedAddress, Property::XorRelayedAddress(relayed)));
    attributes.push((AttrKind::XorMappedAddress, Property::XorMappedAddress(dup_addr(client))));
    attributes.push((AttrKind::Lifetime, Property::Lifetime(desired)));
    let reply = Message {
        kind: Kind::AllocateResponse,
        token: copy_bytes(message.token.as_slice()),
        attributes,
        buffer: Vec::new(),
        block: 0,
    };
    let ghost attrs = seq![
        (
            AttrKind::XorRelayedAddress,
            PropV::XorRelayedAddress(
                AddrV { family: conf.external_family, port: port, ip: conf.external_ip@ },
            ),
        ),
        (AttrKind::XorMappedAddress, PropV::XorMappedAddress(client@)),
        (AttrKind::Lifetime, PropV::Lifetime(desired)),
    ];
    proof {
        assert(view_pairs(reply.attributes@) =~= attrs);
        let t = message@.token;
        let rest1 = attrs.drop_first();
        let rest2 = rest1.drop_first();
        assert(rest2.drop_first() =~= Seq::<(AttrKind, PropV)>::empty());
        assert(spec_attrs_bytes(rest2.drop_first(), t) == Seq::<u8>::empty());
        assert(spec_attrs_bytes(rest2, t) =~= spec_attr_chunk(rest2[0].0, rest2[0].1, t)
            + spec_attrs_bytes(rest2.drop_first(), t));
        assert(spec_attrs_bytes(rest1, t) =~= spec_attr_chunk(rest1[0].0, rest1[0].1, t)
            + spec_attrs_bytes(rest2, t));
        assert(spec_attrs_bytes(attrs, t) =~= spec_attr_chunk(attrs[0].0, attrs[0].1, t)
            + spec_attrs_bytes(rest1, t));
        assert(spec_attrs_bytes(attrs, t).len() + 32 <= 0xFFFF);
    }
    let bytes = encode_message(&reply, Some(&key));
    Some((bytes, dup_addr(client)))
}

/// Handle a CreatePermission request: after the authentication
/// preamble, at least one XOR-PEER-ADDRESS is required (else 400) and
/// an allocation must exist (else 437); a permission is installed for
/// every peer attribute's IP, and the signed success response carries
/// no attributes.
#[verifier::rlimit(100)]
pub fn handle_create_permission(
    state: &mut RelayState,
    conf: &Conf,
    client: &Addr,
    message: &Message,
    now: u64,
) -> (r: Option<(Vec<u8>, Addr)>)
    requires
        state_wf(*old(state)),
        conf_wf(*conf),
        addr_wf(client@),
        now <= MAX_TIME,
        message@.token.len() == 12,
        message.attributes@.len() <= 0xFFFF,
    ensures
        state_wf(*final(state)),
        final(state).credentials@ == old(state).credentials@,
        message@.kind != Kind::CreatePermissionRequest ==> r is None && *final(state) == *old(state),
        message@.kind == Kind::CreatePermissionRequest ==> match auth_failure(*old(state), message@, client@, now) {
            Some(e) => final(state).allocations@ == old(state).allocations@ && error_out(out_view(r), *final(state), *conf, client@, Kind::CreatePermissionError, message@.token, e),
            None => if spec_peer_count(message@.attributes) == 0 {
                final(state).allocations@ == old(state).allocations@ && error_out(out_view(r), *final(state), *conf, client@, Kind::CreatePermissionError, message@.token, ErrKind::BadRequest)
            } else if !spec_has_alloc(*old(state), client@) {
                final(state).allocations@ == old(state).allocations@ && error_out(out_view(r), *final(state), *conf, client@, Kind::CreatePermissionError, message@.token, ErrKind::AllocationMismatch)
            } else {
                &&& final(state).nonces@ == old(state).nonces@
                &&& final(state).allocations@.len() == old(state).allocations@.len()
                &&& (forall|j: int|
                    0 <= j < old(state).allocations@.len() ==> {
                        let oa = old(state).allocations@[j];
                        let na = #[trigger] final(state).allocations@[j];
                        na.client@ == oa.client@ && na.username@ == oa.username@
                            && na.relayed_port == oa.relayed_port && na.expires == oa.expires
                            && na.channels@ == oa.channels@
                    })
                &&& (forall|idx: int|
                    0 <= idx < message@.attributes.len() ==> (match (
                    #[trigger] message@.attributes[idx]).1 {
                        PropV::XorPeerAddress(a) => spec_perm_live(
                            *final(state),
                            client@,
                            a.ip,
                            now,
                        ),
                        _ => true,
                    }))
                &&& (match r {
                    Some(ba) => ba.1@ == client@ && (match msg_username(message@) {
                        Some(u) => ba.0@ == spec_signed_bytes(
                            spec_message_bytes(
                                Kind::CreatePermissionResponse,
                                message@.token,
                                Seq::empty(),
                            ),
                            spec_cred_key(*old(state), client@, u)->Some_0,
                        ),
                        None => false,
                    }),
                    None => false,
                })
            },
        },
{
    if message.kind != Kind::CreatePermissionRequest {
        return None;
    }
    let key = match authenticate(state, client, message, now) {
        Ok(k) => k,
        Err(e) => {
            let bytes = error_response(state, conf, client, Kind::CreatePermissionError, &message.token, e, now);
            return Some((bytes, dup_addr(client)));
        },
    };
    if message.peer_count() == 0 {
        let bytes = error_response(state, conf, client, Kind::CreatePermissionError, &message.token, ErrKind::BadRequest, now);
        return Some((bytes, dup_addr(client)));
    }
    if !state.has_allocation(client) {
        let bytes = error_response(state, conf, client, Kind::CreatePermissionError, &message.token, ErrKind::AllocationMismatch, now);
        return Some((bytes, dup_addr(client)));
    }
    let ghost mid = *state;
    let n = message.attributes.len();
    let mut i: usize = 0;
    while i < n
        invariant
            n == message.attributes@.len(),
            i <= n,
            state_wf(*state),
            conf_wf(*conf),
            now <= MAX_TIME,
            spec_has_alloc(*state, client@),
            state.credentials@ == mid.credentials@,
            state.nonces@ == mid.nonces@,
            state.allocations@.len() == mid.allocations@.len(),
            forall|j: int|
                0 <= j < mid.allocations@.len() ==> {
                    let oa = mid.allocations@[j];
                    let na = #[trigger] state.allocations@[j];
                    na.client@ == oa.client@ && na.username@ == oa.username@ && na.relayed_port
                        == oa.relayed_port && na.expires == oa.expires && na.channels@
                        == oa.channels@
                },
            forall|idx: int|
                0 <= idx < i ==> (match (#[trigger] view_pairs(message.attributes@)[idx]).1 {
                    PropV::XorPeerAddress(a) => spec_perm_live(*state, client@, a.ip, now),
                    _ => true,
                }),
        decreases n - i,
    {
        let ghost pre = *state;
        match &message.attributes[i].1 {
            Property::XorPeerAddress(a) => {
                let ok = state.insert_permission(client, a.ip.as_slice(), now, conf);
                proof {
                    assert(ok);
                    assert forall|idx: int|
                        0 <= idx < i + 1 implies (match (#[trigger] view_pairs(
                        message.attributes@,
                    )[idx]).1 {
                        PropV::XorPeerAddress(b) => spec_perm_live(*state, client@, b.ip, now),
                        _ => true,
                    }) by {
                        if idx < i as int {
                            match view_pairs(message.attributes@)[idx].1 {
                                PropV::XorPeerAddress(b) => {
                                    let (x, y): (int, int) = choose|x: int, y: int|
                                        0 <= x < pre.allocations@.len() && (
                                        #[trigger] pre.allocations@[x]).client@ == client@ && 0
                                            <= y < pre.allocations@[x].permissions@.len() && (
                                        #[trigger] pre.allocations@[x].permissions@[y]).ip@
                                            == b.ip && pre.allocations@[x].permissions@[y].expires
                                            > now;
                                    let ai = choose|ai: int|
                                        0 <= ai < pre.allocations@.len() && (
                                        #[trigger] pre.allocations@[ai]).client@ == client@
                                            && state.allocations@.len() == pre.allocations@.len()
                                            && (forall|j: int|
                                            0 <= j < pre.allocations@.len() && j != ai
                                                ==> state.allocations@[j] == pre.allocations@[j])
                                            && crate::state::perm_upserted(
                                            pre.allocations@[ai].permissions@,
                                            state.allocations@[ai].permissions@,
                                            a@.ip,
                                            (now + conf.permission_ttl) as u64,
                                        );
                                    if x != ai {
                                        assert(state.allocations@[x] == pre.allocations@[x]);
                                        assert(spec_perm_live(*state, client@, b.ip, now));
                                    } else {
                                        let op = pre.allocations@[ai].permissions@;
                                        let np = state.allocations@[ai].permissions@;
                                        if crate::state::perm_upserted(op, np, a@.ip, (now
                                            + conf.permission_ttl) as u64) {
                                            if exists|j2: int|
                                                0 <= j2 < op.len() && (#[trigger] op[j2]).ip@
                                                    == a@.ip {
                                                let j2 = choose|j2: int|
                                                    0 <= j2 < op.len() && (#[trigger] op[j2]).ip@
                                                        == a@.ip && np.len() == op.len()
                                                        && np[j2].ip@ == a@.ip && (forall|k: int|
                                                        0 <= k < op.len() && k != j2 ==> np[k]
                                                            == op[k]);
                                                if y == j2 {
                                                    assert(np[y].ip@ == b.ip && np[y].expires
                                                        > now);
                                                } else {
                                                    assert(np[y] == op[y]);
                                                }
                                                assert(spec_perm_live(*state, client@, b.ip, now));
                                            } else {
                                                assert(np[y] == op[y]);
                                                assert(spec_perm_live(*state, client@, b.ip, now));
                                            }
                                        }
                                    }
                                },
                                _ => (),
                            }
                        } else {
                            assert(spec_perm_live(*state, client@, a@.ip, now));
                            assert(view_pairs(message.attributes@)[idx].1
                                == PropV::XorPeerAddress(a@));
                        }
                    }
                }
            },
            _ => {
                proof {
                    assert forall|idx: int|
                        0 <= idx < i + 1 implies (match (#[trigger] view_pairs(
                        message.attributes@,
                    )[idx]).1 {
                        PropV::XorPeerAddress(b) => spec_perm_live(*state, client@, b.ip, now),
                        _ => true,
                    }) by {}
                }
            },
        }
        i = i + 1;
    }
    let reply = Message {
        kind: Kind::CreatePermissionResponse,
        token: copy_bytes(message.token.as_slice()),
        attributes: Vec::new(),
        buffer: Vec::new(),
        block: 0,
    };
    proof {
        assert(view_pairs(reply.attributes@) =~= Seq::<(AttrKind, PropV)>::empty());
        assert(spec_attrs_bytes(Seq::empty(), message@.token) == Seq::<u8>::empty());
    }
    let bytes = encode_message(&reply, Some(&key));
    Some((bytes, dup_addr(client)))
}

} // verus!
