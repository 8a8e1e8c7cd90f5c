//! Relay state: nonces, credentials, allocations with their
//! permissions and channel bindings, all TTL-managed.
//!
//! Every ledger is a vector with a uniqueness invariant: one nonce per
//! client, one credential per client and username, one allocation per
//! client, one relayed port per allocation, and within an allocation
//! unique channel numbers, unique peers and unique permission IPs.
//! Expiry is never observed passively: every lookup takes the current
//! time, and [`RelayState::sweep`] removes what has lapsed.

use vstd::prelude::*;
use crate::addr::{Addr, AddrV, Family, addr_eq, addr_wf, dup_addr};
use crate::util::{copy_bytes, eq_bytes, random_u32};

verus! {

/// Seconds a lapsed channel binding still blocks rebinding the same
/// number or peer elsewhere.
pub const CHANNEL_QUIET_SECS: u64 = 300;

/// Times beyond this are rejected so that adding a 32-bit lifetime to
/// the clock can never overflow.
pub const MAX_TIME: u64 = 0xFFFF_FFFF_0000_0000;

/// The relay's protocol configuration.
pub struct Conf {
    /// The realm sent in challenges and used in key derivation.
    pub realm: Vec<u8>,
    /// IP bytes of the relay interface given out in XOR-RELAYED-ADDRESS.
    pub external_ip: Vec<u8>,
    /// Family of `external_ip`.
    pub external_family: Family,
    /// Relayed ports are handed out from this inclusive range.
    pub port_min: u16,
    pub port_max: u16,
    /// Allocation lifetime when the client names none, in seconds.
    pub default_lifetime: u32,
    /// Longest allocation lifetime a client may ask for.
    pub max_lifetime: u32,
    /// Seconds a nonce stays valid.
    pub nonce_ttl: u64,
    /// Seconds a permission stays valid.
    pub permission_ttl: u64,
    /// Seconds a channel binding stays valid.
    pub channel_ttl: u64,
}

/// A usable configuration: a non-empty port range, bounded TTLs, a
/// well-formed external address and a realm short enough to encode.
pub open spec fn conf_wf(c: Conf) -> bool {
    &&& c.port_min <= c.port_max
    &&& c.default_lifetime <= c.max_lifetime
    &&& 1 <= c.nonce_ttl <= 0xFFFF_FFFF
    &&& 1 <= c.permission_ttl <= 0xFFFF_FFFF
    &&& 1 <= c.channel_ttl <= 0xFFFF_FFFF
    &&& addr_wf(AddrV { family: c.external_family, port: 0, ip: c.external_ip@ })
    &&& 1 <= c.realm@.len() <= 128
    &&& crate::util::spec_utf8_valid(c.realm@)
}

/// A client's current nonce and its expiry.
pub struct NonceEntry {
    pub client: Addr,
    pub value: Vec<u8>,
    pub expires: u64,
}

/// A registered long-term credential key for a client and username.
pub struct CredEntry {
    pub client: Addr,
    pub username: Vec<u8>,
    pub key: Vec<u8>,
    pub added: u64,
}

/// Authorisation to relay traffic from one peer IP, with its expiry.
pub struct Permission {
    pub ip: Vec<u8>,
    pub expires: u64,
}

/// A channel number bound to a peer transport address.
pub struct ChannelBinding {
    pub number: u16,
    pub peer: Addr,
    pub expires: u64,
}

/// A relay endpoint leased to one client.
pub struct Allocation {
    pub client: Addr,
    pub username: Vec<u8>,
    pub relayed_port: u16,
    pub expires: u64,
    pub permissions: Vec<Permission>,
    pub channels: Vec<ChannelBinding>,
}

/// The whole relay-side state.
pub struct RelayState {
    pub nonces: Vec<NonceEntry>,
    pub credentials: Vec<CredEntry>,
    pub allocations: Vec<Allocation>,
}

/// Channel bindings of one allocation: numbers in range, peers well
/// formed, and the number ↔ peer relation a bijection — no number and
/// no peer appears twice.
pub open spec fn chans_wf(chans: Seq<ChannelBinding>) -> bool {
    &&& forall|i: int|
        0 <= i < chans.len() ==> 0x4000 <= (#[trigger] chans[i]).number <= 0x4FFF && addr_wf(
            chans[i].peer@,
        )
    &&& forall|i: int, j: int|
        0 <= i < j < chans.len() ==> (#[trigger] chans[i]).number != (#[trigger] chans[j]).number
            && chans[i].peer@ != chans[j].peer@
}

/// Permissions of one allocation: one entry per IP.
pub open spec fn perms_wf(perms: Seq<Permission>) -> bool {
    forall|i: int, j: int|
        0 <= i < j < perms.len() ==> (#[trigger] perms[i]).ip@ != (#[trigger] perms[j]).ip@
}

/// Whether some permission covers this binding: same peer IP, and an
/// expiry at least as late.
pub open spec fn chan_covered_by(c: ChannelBinding, perms: Seq<Permission>) -> bool {
    exists|j: int|
        0 <= j < perms.len() && (#[trigger] perms[j]).ip@ == c.peer@.ip && perms[j].expires
            >= c.expires
}

/// Every channel binding is covered by a permission for its peer's IP
/// that lasts at least as long.
pub open spec fn chans_covered(chans: Seq<ChannelBinding>, perms: Seq<Permission>) -> bool {
    forall|i: int| 0 <= i < chans.len() ==> chan_covered_by(#[trigger] chans[i], perms)
}

/// A well-formed allocation.
pub open spec fn alloc_wf(a: Allocation) -> bool {
    &&& addr_wf(a.client@)
    &&& chans_wf(a.channels@)
    &&& perms_wf(a.permissions@)
    &&& chans_covered(a.channels@, a.permissions@)
}

/// Allocation ledger invariant: unique clients, unique relayed ports,
/// each allocation well formed.
pub open spec fn allocs_wf(allocs: Seq<Allocation>) -> bool {
    &&& forall|i: int, j: int|
        0 <= i < j < allocs.len() ==> (#[trigger] allocs[i]).client@ != (
        #[trigger] allocs[j]).client@ && allocs[i].relayed_port != allocs[j].relayed_port
    &&& forall|i: int| 0 <= i < allocs.len() ==> alloc_wf(#[trigger] allocs[i])
}

/// Nonce ledger invariant: one entry per client, each value sixteen
/// bytes of well-formed UTF-8 (they are minted ASCII alphanumeric).
pub open spec fn nonces_wf(nonces: Seq<NonceEntry>) -> bool {
    &&& forall|i: int, j: int|
        0 <= i < j < nonces.len() ==> (#[trigger] nonces[i]).client@ != (
        #[trigger] nonces[j]).client@
    &&& forall|i: int|
        0 <= i < nonces.len() ==> ((#[trigger] nonces[i]).value@.len() == 16
            && crate::util::spec_utf8_valid(nonces[i].value@))
}

/// Credential ledger invariant: one entry per client and username.
pub open spec fn creds_wf(creds: Seq<CredEntry>) -> bool {
    forall|i: int, j: int|
        0 <= i < j < creds.len() ==> !((#[trigger] creds[i]).client@ == (
        #[trigger] creds[j]).client@ && creds[i].username@ == creds[j].username@)
}

/// The state invariant: unique clients and unique relayed ports over
/// the allocations, each allocation well formed, one nonce per client,
/// one credential per client and username.
pub open spec fn state_wf(s: RelayState) -> bool {
    &&& allocs_wf(s.allocations@)
    &&& nonces_wf(s.nonces@)
    &&& creds_wf(s.credentials@)
}

/// Whether a client holds an allocation.
pub open spec fn spec_has_alloc(s: RelayState, client: AddrV) -> bool {
    exists|i: int|
        0 <= i < s.allocations@.len() && (#[trigger] s.allocations@[i]).client@ == client
}

/// Whether some allocation holds a relayed port.
pub open spec fn spec_port_used(s: RelayState, port: u16) -> bool {
    exists|i: int|
        0 <= i < s.allocations@.len() && (#[trigger] s.allocations@[i]).relayed_port == port
}

/// Whether the client's nonce ledger holds exactly this value, still
/// unexpired.
pub open spec fn spec_nonce_ok(s: RelayState, client: AddrV, nonce: Seq<u8>, now: u64) -> bool {
    exists|i: int|
        0 <= i < s.nonces@.len() && (#[trigger] s.nonces@[i]).client@ == client
            && s.nonces@[i].value@ == nonce && s.nonces@[i].expires > now
}

/// The registered long-term key for a client and username, if one
/// exists. With [`creds_wf`] there is at most one matching entry, so
/// the chosen one is the entry.
pub open spec fn spec_cred_key(s: RelayState, client: AddrV, user: Seq<u8>) -> Option<Seq<u8>> {
    if exists|i: int|
        0 <= i < s.credentials@.len() && (#[trigger] s.credentials@[i]).client@ == client
            && s.credentials@[i].username@ == user {
        let i = choose|i: int|
            0 <= i < s.credentials@.len() && (#[trigger] s.credentials@[i]).client@ == client
                && s.credentials@[i].username@ == user;
        Some(s.credentials@[i].key@)
    } else {
        None
    }
}

/// Whether a live permission for this peer IP exists under the
/// client's allocation.
pub open spec fn spec_perm_live(s: RelayState, client: AddrV, ip: Seq<u8>, now: u64) -> bool {
    exists|i: int, j: int|
        0 <= i < s.allocations@.len() && (#[trigger] s.allocations@[i]).client@ == client && 0 <= j
            < s.allocations@[i].permissions@.len() && (
        #[trigger] s.allocations@[i].permissions@[j]).ip@ == ip
            && s.allocations@[i].permissions@[j].expires > now
}

impl RelayState {
    /// An empty state.
    pub fn new() -> (r: RelayState)
        ensures
            state_wf(r),
            r.nonces@.len() == 0,
            r.credentials@.len() == 0,
            r.allocations@.len() == 0,
    {
        RelayState { nonces: Vec::new(), credentials: Vec::new(), allocations: Vec::new() }
    }

    /// The index of the client's allocation, if it holds one.
    fn find_alloc(&self, client: &Addr) -> (r: Option<usize>)
        ensures
            match r {
                Some(i) => i < self.allocations@.len() && self.allocations@[i as int].client@
                    == client@,
                None => !spec_has_alloc(*self, client@),
            },
    {
        let n = self.allocations.len();
        let mut i: usize = 0;
        while i < n
            invariant
                i <= n,
                n == self.allocations@.len(),
                forall|j: int|
                    0 <= j < i ==> (#[trigger] self.allocations@[j]).client@ != client@,
            decreases n - i,
        {
            if addr_eq(&self.allocations[i].client, client) {
                return Some(i);
            }
            i = i + 1;
        }
        None
    }

    /// Whether the client holds an allocation.
    pub fn has_allocation(&self, client: &Addr) -> (r: bool)
        ensures
            r == spec_has_alloc(*self, client@),
    {
        match self.find_alloc(client) {
            Some(i) => {
                proof {
                    assert(0 <= i < self.allocations@.len() && self.allocations@[
                        i as int].client@ == client@);
                }
                true
            },
            None => false,
        }
    }

    /// Whether any allocation holds this relayed port.
    pub fn port_used(&self, port: u16) -> (r: bool)
        ensures
            r == spec_port_used(*self, port),
    {
        let n = self.allocations.len();
        let mut i: usize = 0;
        while i < n
            invariant
                i <= n,
                n == self.allocations@.len(),
                forall|j: int|
                    0 <= j < i ==> (#[trigger] self.allocations@[j]).relayed_port != port,
            decreases n - i,
        {
            if self.allocations[i].relayed_port == port {
                return true;
            }
            i = i + 1;
        }
        false
    }

    /// The registered long-term key for a client and username.
    pub fn get_password(&self, client: &Addr, username: &[u8]) -> (r: Option<Vec<u8>>)
        ensures
            match r {
                Some(k) => exists|i: int|
                    0 <= i < self.credentials@.len() && (#[trigger] self.credentials@[i]).client@
                        == client@ && self.credentials@[i].username@ == username@
                        && self.credentials@[i].key@ == k@,
                None => forall|i: int|
                    0 <= i < self.credentials@.len() ==> !((
                    #[trigger] self.credentials@[i]).client@ == client@
                        && self.credentials@[i].username@ == username@),
            },
    {
        let n = self.credentials.len();
        let mut i: usize = 0;
        while i < n
            invariant
                i <= n,
                n == self.credentials@.len(),
                forall|j: int|
                    0 <= j < i ==> !((#[trigger] self.credentials@[j]).client@ == client@
                        && self.credentials@[j].username@ == username@),
            decreases n - i,
        {
            let c = &self.credentials[i];
            if addr_eq(&c.client, client) && eq_bytes(c.username.as_slice(), username) {
                return Some(copy_bytes(c.key.as_slice()));
            }
            i = i + 1;
        }
        None
    }

    /// Whether the client presented exactly its current, unexpired
    /// nonce.
    pub fn check_nonce(&self, client: &Addr, nonce: &[u8], now: u64) -> (r: bool)
        ensures
            r == spec_nonce_ok(*self, client@, nonce@, now),
    {
        let n = self.nonces.len();
        let mut i: usize = 0;
        while i < n
            invariant
                i <= n,
                n == self.nonces@.len(),
                forall|j: int|
                    0 <= j < i ==> !((#[trigger] self.nonces@[j]).client@ == client@
                        && self.nonces@[j].value@ == nonce@ && self.nonces@[j].expires > now),
            decreases n - i,
        {
            let e = &self.nonces[i];
            if addr_eq(&e.client, client) && eq_bytes(e.value.as_slice(), nonce) && e.expires
                > now {
                return true;
            }
            i = i + 1;
        }
        false
    }

    /// The peer a live channel number is bound to under the client's
    /// allocation.
    pub fn lookup_channel(&self, client: &Addr, number: u16, now: u64) -> (r: Option<Addr>)
        requires
            state_wf(*self),
        ensures
            match r {
                Some(p) => exists|i: int, j: int|
                    0 <= i < self.allocations@.len() && (#[trigger] self.allocations@[i]).client@
                        == client@ && 0 <= j < self.allocations@[i].channels@.len() && (
                    #[trigger] self.allocations@[i].channels@[j]).number == number
                        && self.allocations@[i].channels@[j].expires > now
                        && self.allocations@[i].channels@[j].peer@ == p@,
                None => forall|i: int, j: int|
                    (0 <= i < self.allocations@.len() && (#[trigger] self.allocations@[i]).client@
                        == client@ && 0 <= j < self.allocations@[i].channels@.len() && (
                    #[trigger] self.allocations@[i].channels@[j]).number == number)
                        ==> self.allocations@[i].channels@[j].expires <= now,
            },
    {
        let ai = match self.find_alloc(client) {
            Some(ai) => ai,
            None => {
                return None;
            },
        };
        let a = &self.allocations[ai];
        let n = a.channels.len();
        let mut j: usize = 0;
        while j < n
            invariant
                j <= n,
                n == a.channels@.len(),
                a == &self.allocations@[ai as int],
                ai < self.allocations@.len(),
                a.client@ == client@,
                forall|k: int|
                    0 <= k < j ==> !((#[trigger] a.channels@[k]).number == number
                        && a.channels@[k].expires > now),
            decreases n - j,
        {
            let ch = &a.channels[j];
            if ch.number == number && ch.expires > now {
                return Some(dup_addr(&ch.peer));
            }
            j = j + 1;
        }
        proof {
            assert forall|i: int, k: int|
                (0 <= i < self.allocations@.len() && (#[trigger] self.allocations@[i]).client@
                    == client@ && 0 <= k < self.allocations@[i].channels@.len() && (
                #[trigger] self.allocations@[i].channels@[k]).number == number) implies
                self.allocations@[i].channels@[k].expires <= now by {
                if i < ai as int {
                    assert(self.allocations@[i].client@ != self.allocations@[ai as int].client@);
                } else if i > ai as int {
                    assert(self.allocations@[ai as int].client@ != self.allocations@[i].client@);
                }
            }
        }
        None
    }

    /// The live channel number a peer is bound to under the client's
    /// allocation.
    pub fn lookup_peer(&self, client: &Addr, peer: &Addr, now: u64) -> (r: Option<u16>)
        requires
            state_wf(*self),
        ensures
            match r {
                Some(c) => exists|i: int, j: int|
                    0 <= i < self.allocations@.len() && (#[trigger] self.allocations@[i]).client@
                        == client@ && 0 <= j < self.allocations@[i].channels@.len() && (
                    #[trigger] self.allocations@[i].channels@[j]).peer@ == peer@
                        && self.allocations@[i].channels@[j].expires > now
                        && self.allocations@[i].channels@[j].number == c,
                None => forall|i: int, j: int|
                    (0 <= i < self.allocations@.len() && (#[trigger] self.allocations@[i]).client@
                        == client@ && 0 <= j < self.allocations@[i].channels@.len() && (
                    #[trigger] self.allocations@[i].channels@[j]).peer@ == peer@)
                        ==> self.allocations@[i].channels@[j].expires <= now,
            },
    {
        let ai = match self.find_alloc(client) {
            Some(ai) => ai,
            None => {
                return None;
            },
        };
        let a = &self.allocations[ai];
        let n = a.channels.len();
        let mut j: usize = 0;
        while j < n
            invariant
                j <= n,
                n == a.channels@.len(),
                a == &self.allocations@[ai as int],
                ai < self.allocations@.len(),
                a.client@ == client@,
                forall|k: int|
                    0 <= k < j ==> !((#[trigger] a.channels@[k]).peer@ == peer@
                        && a.channels@[k].expires > now),
            decreases n - j,
        {
            let ch = &a.channels[j];
            if addr_eq(&ch.peer, peer) && ch.expires > now {
                return Some(ch.number);
            }
            j = j + 1;
        }
        proof {
            assert forall|i: int, k: int|
                (0 <= i < self.allocations@.len() && (#[trigger] self.allocations@[i]).client@
                    == client@ && 0 <= k < self.allocations@[i].channels@.len() && (
                #[trigger] self.allocations@[i].channels@[k]).peer@ == peer@) implies
                self.allocations@[i].channels@[k].expires <= now by {
                if i < ai as int {
                    assert(self.allocations@[i].client@ != self.allocations@[ai as int].client@);
                } else if i > ai as int {
                    assert(self.allocations@[ai as int].client@ != self.allocations@[i].client@);
                }
            }
        }
        None
    }

    /// Whether a live permission for this peer IP exists under the
    /// client's allocation.
    pub fn has_permission(&self, client: &Addr, ip: &[u8], now: u64) -> (r: bool)
        requires
            state_wf(*self),
        ensures
            r == spec_perm_live(*self, client@, ip@, now),
    {
        let ai = match self.find_alloc(client) {
            Some(ai) => ai,
            None => {
                proof {
                    assert(!spec_perm_live(*self, client@, ip@, now));
                }
                return false;
            },
        };
        let a = &self.allocations[ai];
        let n = a.permissions.len();
        let mut j: usize = 0;
        while j < n
            invariant
                j <= n,
                n == a.permissions@.len(),
                a == &self.allocations@[ai as int],
                ai < self.allocations@.len(),
                a.client@ == client@,
                state_wf(*self),
                forall|k: int|
                    0 <= k < j ==> !((#[trigger] a.permissions@[k]).ip@ == ip@
                        && a.permissions@[k].expires > now),
            decreases n - j,
        {
            let p = &a.permissions[j];
            if eq_bytes(p.ip.as_slice(), ip) && p.expires > now {
                return true;
            }
            j = j + 1;
        }
        proof {
            if spec_perm_live(*self, client@, ip@, now) {
                let (i, j2): (int, int) = choose|i: int, j2: int|
                    0 <= i < self.allocations@.len() && (#[trigger] self.allocations@[i]).client@
                        == client@ && 0 <= j2 < self.allocations@[i].permissions@.len() && (
                    #[trigger] self.allocations@[i].permissions@[j2]).ip@ == ip@
                        && self.allocations@[i].permissions@[j2].expires > now;
                assert(i == ai as int);
                assert(false);
            }
        }
        false
    }

    /// The client that holds a relayed port.
    pub fn client_by_port(&self, port: u16) -> (r: Option<Addr>)
        ensures
            match r {
                Some(c) => exists|i: int|
                    0 <= i < self.allocations@.len() && (#[trigger] self.allocations@[
                    i]).relayed_port == port && self.allocations@[i].client@ == c@,
                None => !spec_port_used(*self, port),
            },
    {
        let n = self.allocations.len();
        let mut i: usize = 0;
        while i < n
            invariant
                i <= n,
                n == self.allocations@.len(),
                forall|j: int|
                    0 <= j < i ==> (#[trigger] self.allocations@[j]).relayed_port != port,
            decreases n - i,
        {
            if self.allocations[i].relayed_port == port {
                return Some(dup_addr(&self.allocations[i].client));
            }
            i = i + 1;
        }
        None
    }
}

/// Whether a nonce byte is ASCII alphanumeric.
pub open spec fn is_alnum(b: u8) -> bool {
    (0x30 <= b <= 0x39) || (0x41 <= b <= 0x5A) || (0x61 <= b <= 0x7A)
}

/// Field description of a credential entry.
pub open spec fn cred_fields(
    e: CredEntry,
    client: AddrV,
    username: Seq<u8>,
    key: Seq<u8>,
    added: u64,
) -> bool {
    e.client@ == client && e.username@ == username && e.key@ == key && e.added == added
}

/// Field description of a nonce entry.
pub open spec fn nonce_fields(e: NonceEntry, client: AddrV, value: Seq<u8>, expires: u64) -> bool {
    e.client@ == client && e.value@ == value && e.expires == expires
}

/// Whether the client has an unexpired nonce entry.
pub open spec fn spec_nonce_live(s: RelayState, client: AddrV, now: u64) -> bool {
    exists|i: int|
        0 <= i < s.nonces@.len() && (#[trigger] s.nonces@[i]).client@ == client
            && s.nonces@[i].expires > now
}

/// Sixteen random ASCII alphanumeric bytes.
fn fresh_nonce() -> (r: Vec<u8>)
    ensures
        r@.len() == 16,
        forall|k: int| 0 <= k < 16 ==> is_alnum(#[trigger] r@[k]),
        crate::util::spec_utf8_valid(r@),
{
    let mut v: Vec<u8> = Vec::new();
    let mut i: usize = 0;
    while i < 16
        invariant
            i <= 16,
            v@.len() == i,
            forall|k: int| 0 <= k < i ==> is_alnum(#[trigger] v@[k]),
        decreases 16 - i,
    {
        let x = random_u32();
        let idx: u8 = (x % 62) as u8;
        let ch: u8 = if idx < 10 {
            0x30 + idx
        } else if idx < 36 {
            0x41 + (idx - 10)
        } else {
            0x61 + (idx - 36)
        };
        v.push(ch);
        i = i + 1;
    }
    proof {
        assert forall|k: int| 0 <= k < v@.len() implies (#[trigger] v@[k]) <= 0x7F by {
            assert(is_alnum(v@[k]));
        }
        crate::util::lemma_ascii_utf8(v@);
    }
    v
}

impl RelayState {
    /// Register a long-term credential key for a client and username,
    /// replacing any earlier one.
    #[verifier::loop_isolation(false)]
    pub fn register(&mut self, client: &Addr, username: &[u8], key: &[u8], now: u64)
        requires
            state_wf(*old(self)),
        ensures
            state_wf(*final(self)),
            final(self).nonces@ == old(self).nonces@,
            final(self).allocations@ == old(self).allocations@,
            ({
                ||| (exists|i: int|
                    0 <= i < old(self).credentials@.len() && (#[trigger] old(self).credentials@[i]).client@ == client@ && old(self).credentials@[i].username@
                        == username@ && final(self).credentials@.len() == old(self).credentials@.len() && cred_fields(
                        final(self).credentials@[i],
                        client@,
                        username@,
                        key@,
                        now,
                    ) && (forall|j: int|
                        0 <= j < old(self).credentials@.len() && j != i ==> final(self).credentials@[j] == old(self).credentials@[j]))
                ||| ((forall|i: int|
                    0 <= i < old(self).credentials@.len() ==> !((#[trigger] old(self).credentials@[i]).client@ == client@ && old(self).credentials@[i].username@
                        == username@)) && final(self).credentials@.len() == old(self).credentials@.len() + 1 && cred_fields(
                    final(self).credentials@[old(self).credentials@.len() as int],
                    client@,
                    username@,
                    key@,
                    now,
                ) && (forall|j: int|
                    0 <= j < old(self).credentials@.len() ==> final(self).credentials@[j] == old(self).credentials@[j]))
            }),
    {
        let entry = CredEntry {
            client: dup_addr(client),
            username: copy_bytes(username),
            key: copy_bytes(key),
            added: now,
        };
        let n = self.credentials.len();
        let mut i: usize = 0;
        while i < n
            invariant
                i <= n,
                n == self.credentials@.len(),
                *self == *old(self),
                forall|j: int|
                    0 <= j < i ==> !((#[trigger] self.credentials@[j]).client@ == client@
                        && self.credentials@[j].username@ == username@),
            decreases n - i,
        {
            let c = &self.credentials[i];
            if addr_eq(&c.client, client) && eq_bytes(c.username.as_slice(), username) {
                self.credentials.remove(i);
                self.credentials.insert(i, entry);
                proof {
                    assert(self.credentials@ =~= old(self).credentials@.update(
                        i as int,
                        self.credentials@[i as int],
                    ));
                    assert forall|x: int, y: int|
                        0 <= x < y < self.credentials@.len() implies !((
                        #[trigger] self.credentials@[x]).client@ == (
                        #[trigger] self.credentials@[y]).client@ && self.credentials@[x].username@
                            == self.credentials@[y].username@) by {
                        assert(old(self).credentials@[x].client@ != old(self).credentials@[y].client@ || old(self).credentials@[x].username@ != old(self).credentials@[y].username@ || !(0 <= x < y < old(self).credentials@.len()));
                    }
                }
                return ;
            }
            i = i + 1;
        }
        self.credentials.push(entry);
        proof {
            assert forall|x: int, y: int|
                0 <= x < y < self.credentials@.len() implies !((
                #[trigger] self.credentials@[x]).client@ == (
                #[trigger] self.credentials@[y]).client@ && self.credentials@[x].username@
                    == self.credentials@[y].username@) by {
                if y < old(self).credentials@.len() {
                    assert(old(self).credentials@[x].client@ != old(self).credentials@[y].client@
                        || old(self).credentials@[x].username@ != old(self).credentials@[y].username@);
                }
            }
        }
    }

    /// The client's current nonce: the stored one while it lives, else
    /// a fresh sixteen-character random value stored with expiry
    /// `now + ttl`.
    #[verifier::loop_isolation(false)]
    pub fn get_nonce(&mut self, client: &Addr, now: u64, ttl: u64) -> (r: Vec<u8>)
        requires
            state_wf(*old(self)),
            now <= MAX_TIME,
            ttl <= 0xFFFF_FFFF,
        ensures
            state_wf(*final(self)),
            final(self).credentials@ == old(self).credentials@,
            final(self).allocations@ == old(self).allocations@,
            spec_nonce_live(*old(self), client@, now) ==> final(self).nonces@ == old(self).nonces@,
            forall|i: int|
                0 <= i < old(self).nonces@.len() && (#[trigger] old(self).nonces@[i]).client@
                    == client@ && old(self).nonces@[i].expires > now ==> r@ == old(self).nonces@[i].value@,
            !spec_nonce_live(*old(self), client@, now) ==> ({
                &&& r@.len() == 16
                &&& (forall|k: int| 0 <= k < 16 ==> is_alnum(#[trigger] r@[k]))
                &&& ({
                    ||| (exists|i: int|
                        0 <= i < old(self).nonces@.len() && (#[trigger] old(self).nonces@[i]).client@ == client@ && final(self).nonces@.len() == old(self).nonces@.len() && nonce_fields(
                            final(self).nonces@[i],
                            client@,
                            r@,
                            (now + ttl) as u64,
                        ) && (forall|j: int|
                            0 <= j < old(self).nonces@.len() && j != i ==> final(self).nonces@[j]
                                == old(self).nonces@[j]))
                    ||| ((forall|i: int|
                        0 <= i < old(self).nonces@.len() ==> (#[trigger] old(self).nonces@[i]).client@ != client@) && final(self).nonces@.len() == old(self).nonces@.len() + 1 && nonce_fields(
                        final(self).nonces@[old(self).nonces@.len() as int],
                        client@,
                        r@,
                        (now + ttl) as u64,
                    ) && (forall|j: int|
                        0 <= j < old(self).nonces@.len() ==> final(self).nonces@[j] == old(self).nonces@[j]))
                })
            }),
    {
        let n = self.nonces.len();
        let mut i: usize = 0;
        while i < n
            invariant
                i <= n,
                n == self.nonces@.len(),
                *self == *old(self),
                forall|j: int| 0 <= j < i ==> (#[trigger] self.nonces@[j]).client@ != client@,
            decreases n - i,
        {
            let e = &self.nonces[i];
            if addr_eq(&e.client, client) {
                proof {
                    assert forall|j: int|
                        0 <= j < self.nonces@.len() && (#[trigger] self.nonces@[j]).client@
                            == client@ implies j == i as int by {
                        if j < i as int {
                            assert(self.nonces@[j].client@ != self.nonces@[i as int].client@);
                        } else if j > i as int {
                            assert(self.nonces@[i as int].client@ != self.nonces@[j].client@);
                        }
                    }
                }
                if e.expires > now {
                    return copy_bytes(e.value.as_slice());
                }
                let value = fresh_nonce();
                let r = copy_bytes(value.as_slice());
                self.nonces.remove(i);
                self.nonces.insert(
                    i,
                    NonceEntry { client: dup_addr(client), value, expires: now + ttl },
                );
                proof {
                    assert(self.nonces@ =~= old(self).nonces@.update(
                        i as int,
                        self.nonces@[i as int],
                    ));
                    assert forall|x: int, y: int|
                        0 <= x < y < self.nonces@.len() implies (
                        #[trigger] self.nonces@[x]).client@ != (
                        #[trigger] self.nonces@[y]).client@ by {
                        assert(old(self).nonces@[x].client@ != old(self).nonces@[y].client@ || !(0
                            <= x < y < old(self).nonces@.len()));
                    }
                }
                return r;
            }
            i = i + 1;
        }
        let value = fresh_nonce();
        let r = copy_bytes(value.as_slice());
        self.nonces.push(NonceEntry { client: dup_addr(client), value, expires: now + ttl });
        proof {
            assert forall|x: int, y: int|
                0 <= x < y < self.nonces@.len() implies (#[trigger] self.nonces@[x]).client@ != (
                #[trigger] self.nonces@[y]).client@ by {
                if y < old(self).nonces@.len() {
                    assert(old(self).nonces@[x].client@ != old(self).nonces@[y].client@);
                }
            }
        }
        r
    }

    /// Lease a relay endpoint to the client: a free port from the
    /// configured range, with the given lifetime. `None` when the
    /// client already holds an allocation or the pool is exhausted.
    #[verifier::loop_isolation(false)]
    pub fn create_allocation(
        &mut self,
        client: &Addr,
        username: &[u8],
        lifetime: u32,
        now: u64,
        conf: &Conf,
    ) -> (r: Option<u16>)
        requires
            state_wf(*old(self)),
            conf_wf(*conf),
            now <= MAX_TIME,
            addr_wf(client@),
        ensures
            state_wf(*final(self)),
            final(self).nonces@ == old(self).nonces@,
            final(self).credentials@ == old(self).credentials@,
            match r {
                None => final(self).allocations@ == old(self).allocations@ && (spec_has_alloc(
                    *old(self),
                    client@,
                ) || forall|p: u16|
                    conf.port_min <= p <= conf.port_max ==> spec_port_used(*old(self), p)),
                Some(p) => {
                    &&& !spec_has_alloc(*old(self), client@)
                    &&& conf.port_min <= p <= conf.port_max
                    &&& !spec_port_used(*old(self), p)
                    &&& final(self).allocations@.len() == old(self).allocations@.len() + 1
                    &&& (forall|j: int|
                        0 <= j < old(self).allocations@.len() ==> final(self).allocations@[j]
                            == old(self).allocations@[j])
                    &&& ({
                        let a = final(self).allocations@[old(self).allocations@.len() as int];
                        &&& a.client@ == client@
                        &&& a.username@ == username@
                        &&& a.relayed_port == p
                        &&& a.expires == now + lifetime
                        &&& a.permissions@.len() == 0
                        &&& a.channels@.len() == 0
                    })
                },
            },
    {
        if self.has_allocation(client) {
            return None;
        }
        let mut p: u32 = conf.port_min as u32;
        while p <= conf.port_max as u32
            invariant
                state_wf(*self),
                *self == *old(self),
                conf.port_min as u32 <= p <= conf.port_max as u32 + 1,
                forall|q: u16|
                    conf.port_min <= q && (q as u32) < p ==> spec_port_used(*old(self), q),
            decreases conf.port_max as u32 + 1 - p,
        {
            if !self.port_used(p as u16) {
                let a = Allocation {
                    client: dup_addr(client),
                    username: copy_bytes(username),
                    relayed_port: p as u16,
                    expires: now + lifetime as u64,
                    permissions: Vec::new(),
                    channels: Vec::new(),
                };
                self.allocations.push(a);
                proof {
                    assert forall|x: int, y: int|
                        0 <= x < y < self.allocations@.len() implies (
                        #[trigger] self.allocations@[x]).client@ != (
                        #[trigger] self.allocations@[y]).client@
                            && self.allocations@[x].relayed_port
                            != self.allocations@[y].relayed_port by {
                        if y < old(self).allocations@.len() {
                            assert(old(self).allocations@[x].client@ != old(self).allocations@[y].client@ && old(self).allocations@[x].relayed_port
                                != old(self).allocations@[y].relayed_port);
                        }
                    }
                    assert forall|x: int|
                        0 <= x < self.allocations@.len() implies alloc_wf(
                            #[trigger] self.allocations@[x],
                        ) by {
                        if x < old(self).allocations@.len() {
                            assert(alloc_wf(old(self).allocations@[x]));
                        }
                    }
                }
                return Some(p as u16);
            }
            p = p + 1;
        }
        None
    }

    /// Refresh or delete the client's allocation. A zero lifetime
    /// deletes it — succeeding even when none exists — and a positive
    /// one arms the expiry at `now` plus the lifetime clamped to the
    /// configured maximum. Returns the clamped lifetime.
    #[verifier::loop_isolation(false)]
    pub fn refresh(&mut self, client: &Addr, lifetime: u32, now: u64, conf: &Conf) -> (r: u32)
        requires
            state_wf(*old(self)),
            conf_wf(*conf),
            now <= MAX_TIME,
        ensures
            state_wf(*final(self)),
            final(self).nonces@ == old(self).nonces@,
            final(self).credentials@ == old(self).credentials@,
            r == (if lifetime <= conf.max_lifetime {
                lifetime
            } else {
                conf.max_lifetime
            }),
            lifetime == 0 ==> !spec_has_alloc(*final(self), client@),
            lifetime == 0 ==> ({
                ||| (exists|i: int|
                    0 <= i < old(self).allocations@.len() && (#[trigger] old(self).allocations@[i]).client@ == client@ && final(self).allocations@ == old(self).allocations@.remove(i))
                ||| (!spec_has_alloc(*old(self), client@) && final(self).allocations@ == old(self).allocations@)
            }),
            lifetime > 0 && !spec_has_alloc(*old(self), client@) ==> final(self).allocations@
                == old(self).allocations@,
            lifetime > 0 ==> (forall|i: int|
                0 <= i < old(self).allocations@.len() && (#[trigger] old(self).allocations@[i]).client@ == client@ ==> {
                    &&& final(self).allocations@.len() == old(self).allocations@.len()
                    &&& (forall|j: int|
                        0 <= j < old(self).allocations@.len() && j != i ==> final(self).allocations@[j] == old(self).allocations@[j])
                    &&& final(self).allocations@[i].client@ == client@
                    &&& final(self).allocations@[i].username@ == old(self).allocations@[i].username@
                    &&& final(self).allocations@[i].relayed_port == old(self).allocations@[i].relayed_port
                    &&& final(self).allocations@[i].permissions@ == old(self).allocations@[i].permissions@
                    &&& final(self).allocations@[i].channels@ == old(self).allocations@[i].channels@
                    &&& final(self).allocations@[i].expires == now + r
                }),
    {
        let clamped: u32 = if lifetime <= conf.max_lifetime {
            lifetime
        } else {
            conf.max_lifetime
        };
        let i = match self.find_alloc(client) {
            Some(i) => i,
            None => {
                return clamped;
            },
        };
        proof {
            assert forall|j: int|
                0 <= j < self.allocations@.len() && (#[trigger] self.allocations@[j]).client@
                    == client@ implies j == i as int by {
                if j < i as int {
                    assert(self.allocations@[j].client@ != self.allocations@[i as int].client@);
                } else if j > i as int {
                    assert(self.allocations@[i as int].client@ != self.allocations@[j].client@);
                }
            }
        }
        if lifetime == 0 {
            self.allocations.remove(i);
            proof {
                assert forall|x: int, y: int|
                    0 <= x < y < self.allocations@.len() implies (
                    #[trigger] self.allocations@[x]).client@ != (
                    #[trigger] self.allocations@[y]).client@ && self.allocations@[x].relayed_port
                        != self.allocations@[y].relayed_port by {
                    let ox: int = if x < i as int {
                        x
                    } else {
                        x + 1
                    };
                    let oy: int = if y < i as int {
                        y
                    } else {
                        y + 1
                    };
                    assert(old(self).allocations@[ox].client@ != old(self).allocations@[oy].client@ && old(self).allocations@[ox].relayed_port != old(self).allocations@[oy].relayed_port);
                }
                assert forall|x: int|
                    0 <= x < self.allocations@.len() implies alloc_wf(
                        #[trigger] self.allocations@[x],
                    ) by {
                    let ox: int = if x < i as int {
                        x
                    } else {
                        x + 1
                    };
                    assert(alloc_wf(old(self).allocations@[ox]));
                }
                if spec_has_alloc(*self, client@) {
                    let j = choose|j: int|
                        0 <= j < self.allocations@.len() && (
                        #[trigger] self.allocations@[j]).client@ == client@;
                    let oj: int = if j < i as int {
                        j
                    } else {
                        j + 1
                    };
                    assert(old(self).allocations@[oj].client@ == client@);
                    assert(false);
                }
            }
            return clamped;
        }
        let mut a = self.allocations.remove(i);
        a.expires = now + clamped as u64;
        self.allocations.insert(i, a);
        proof {
            assert(self.allocations@ =~= old(self).allocations@.update(
                i as int,
                self.allocations@[i as int],
            ));
            assert forall|x: int, y: int|
                0 <= x < y < self.allocations@.len() implies (
                #[trigger] self.allocations@[x]).client@ != (
                #[trigger] self.allocations@[y]).client@ && self.allocations@[x].relayed_port
                    != self.allocations@[y].relayed_port by {
                assert(old(self).allocations@[x].client@ != old(self).allocations@[y].client@
                    && old(self).allocations@[x].relayed_port != old(self).allocations@[y].relayed_port);
            }
            assert forall|x: int|
                0 <= x < self.allocations@.len() implies alloc_wf(
                    #[trigger] self.allocations@[x],
                ) by {
                assert(alloc_wf(old(self).allocations@[x]));
            }
        }
        clamped
    }
}

/// How a permission ledger changes when a permission for `ip` with
/// expiry `exp` is installed: an existing entry's expiry only grows,
/// a missing entry is appended, everything else is untouched.
pub open spec fn perm_upserted(olds: Seq<Permission>, news: Seq<Permission>, ip: Seq<u8>, exp: u64) -> bool {
    ||| (exists|j: int|
        0 <= j < olds.len() && (#[trigger] olds[j]).ip@ == ip && news.len() == olds.len()
            && news[j].ip@ == ip && news[j].expires == (if olds[j].expires >= exp {
            olds[j].expires
        } else {
            exp
        }) && (forall|k: int| 0 <= k < olds.len() && k != j ==> news[k] == olds[k]))
    ||| ((forall|j: int| 0 <= j < olds.len() ==> (#[trigger] olds[j]).ip@ != ip) && news.len()
        == olds.len() + 1 && news[olds.len() as int].ip@ == ip && news[olds.len() as int].expires
        == exp && (forall|k: int| 0 <= k < olds.len() ==> news[k] == olds[k]))
}

/// Install or refresh one permission; expiries only ever grow.
#[verifier::loop_isolation(false)]
fn upsert_perm(perms: &mut Vec<Permission>, ip: &[u8], exp: u64)
    requires
        perms_wf(old(perms)@),
    ensures
        perms_wf(final(perms)@),
        perm_upserted(old(perms)@, final(perms)@, ip@, exp),
        forall|k: int|
            0 <= k < old(perms)@.len() ==> exists|m: int|
                0 <= m < final(perms)@.len() && (#[trigger] final(perms)@[m]).ip@ == (
                #[trigger] old(perms)@[k]).ip@ && final(perms)@[m].expires >= old(perms)@[k].expires,
        exists|m: int|
            0 <= m < final(perms)@.len() && (#[trigger] final(perms)@[m]).ip@ == ip@ && final(perms)@[m].expires >= exp,
{
    let n = perms.len();
    let mut j: usize = 0;
    while j < n
        invariant
            j <= n,
            n == perms@.len(),
            *perms == *old(perms),
            forall|k: int| 0 <= k < j ==> (#[trigger] perms@[k]).ip@ != ip@,
        decreases n - j,
    {
        let p = &perms[j];
        if eq_bytes(p.ip.as_slice(), ip) {
            let bumped: u64 = if p.expires >= exp {
                p.expires
            } else {
                exp
            };
            perms.remove(j);
            perms.insert(j, Permission { ip: copy_bytes(ip), expires: bumped });
            proof {
                assert(perms@ =~= old(perms)@.update(j as int, perms@[j as int]));
                assert forall|x: int, y: int|
                    0 <= x < y < perms@.len() implies (#[trigger] perms@[x]).ip@ != (
                    #[trigger] perms@[y]).ip@ by {
                    assert(old(perms)@[x].ip@ != old(perms)@[y].ip@);
                }
                assert forall|k: int|
                    0 <= k < old(perms)@.len() implies exists|m: int|
                        0 <= m < perms@.len() && (#[trigger] perms@[m]).ip@ == (#[trigger] old(perms)@[k]).ip@ && perms@[m].expires >= old(perms)@[k].expires by {
                    assert((#[trigger] perms@[k]).ip@ == old(perms)@[k].ip@ && perms@[k].expires
                        >= old(perms)@[k].expires);
                }
                assert((#[trigger] perms@[j as int]).ip@ == ip@ && perms@[j as int].expires
                    >= exp);
            }
            return ;
        }
        j = j + 1;
    }
    perms.push(Permission { ip: copy_bytes(ip), expires: exp });
    proof {
        assert forall|x: int, y: int|
            0 <= x < y < perms@.len() implies (#[trigger] perms@[x]).ip@ != (
            #[trigger] perms@[y]).ip@ by {
            if y < old(perms)@.len() {
                assert(old(perms)@[x].ip@ != old(perms)@[y].ip@);
            }
        }
        assert forall|k: int|
            0 <= k < old(perms)@.len() implies exists|m: int|
                0 <= m < perms@.len() && (#[trigger] perms@[m]).ip@ == (#[trigger] old(perms)@[k]).ip@ && perms@[m].expires >= old(perms)@[k].expires by {
            assert((#[trigger] perms@[k]).ip@ == old(perms)@[k].ip@ && perms@[k].expires >= old(perms)@[k].expires);
        }
        assert((#[trigger] perms@[old(perms)@.len() as int]).ip@ == ip@ && perms@[old(perms)@.len() as int].expires >= exp);
    }
}

impl RelayState {
    /// Install a permission for a peer IP under the client's
    /// allocation: idempotent, extending the expiry and never
    /// shortening it. Fails only when the client holds no allocation.
    #[verifier::loop_isolation(false)]
    pub fn insert_permission(&mut self, client: &Addr, peer_ip: &[u8], now: u64, conf: &Conf) -> (r:
        bool)
        requires
            state_wf(*old(self)),
            conf_wf(*conf),
            now <= MAX_TIME,
        ensures
            state_wf(*final(self)),
            final(self).nonces@ == old(self).nonces@,
            final(self).credentials@ == old(self).credentials@,
            r == spec_has_alloc(*old(self), client@),
            !r ==> final(self).allocations@ == old(self).allocations@,
            r ==> spec_perm_live(*final(self), client@, peer_ip@, now),
            r ==> exists|i: int|
                0 <= i < old(self).allocations@.len() && (#[trigger] old(self).allocations@[i]).client@ == client@ && final(self).allocations@.len() == old(self).allocations@.len() && (forall|j: int|
                    0 <= j < old(self).allocations@.len() && j != i ==> final(self).allocations@[j] == old(self).allocations@[j]) && ({
                    let oa = old(self).allocations@[i];
                    let na = final(self).allocations@[i];
                    &&& na.client@ == oa.client@
                    &&& na.username@ == oa.username@
                    &&& na.relayed_port == oa.relayed_port
                    &&& na.expires == oa.expires
                    &&& na.channels@ == oa.channels@
                    &&& perm_upserted(
                        oa.permissions@,
                        na.permissions@,
                        peer_ip@,
                        (now + conf.permission_ttl) as u64,
                    )
                }),
    {
        let i = match self.find_alloc(client) {
            Some(i) => i,
            None => {
                return false;
            },
        };
        let ghost olds = self.allocations@;
        let mut a = self.allocations.remove(i);
        upsert_perm(&mut a.permissions, peer_ip, now + conf.permission_ttl);
        proof {
            assert forall|c: int|
                0 <= c < a.channels@.len() implies exists|m: int|
                    0 <= m < a.permissions@.len() && (#[trigger] a.permissions@[m]).ip@ == (
                    #[trigger] a.channels@[c]).peer@.ip && a.permissions@[m].expires
                        >= a.channels@[c].expires by {
                let oa = olds[i as int];
                let d = choose|d: int|
                    0 <= d < oa.permissions@.len() && (#[trigger] oa.permissions@[d]).ip@
                        == oa.channels@[c].peer@.ip && oa.permissions@[d].expires
                        >= oa.channels@[c].expires;
                let m = choose|m: int|
                    0 <= m < a.permissions@.len() && (#[trigger] a.permissions@[m]).ip@
                        == oa.permissions@[d].ip@ && a.permissions@[m].expires
                        >= oa.permissions@[d].expires;
                assert(a.permissions@[m].ip@ == a.channels@[c].peer@.ip && a.permissions@[
                m].expires >= a.channels@[c].expires);
            }
            assert(alloc_wf(a));
        }
        self.allocations.insert(i, a);
        proof {
            assert(self.allocations@ =~= olds.update(i as int, self.allocations@[i as int]));
            assert forall|x: int, y: int|
                0 <= x < y < self.allocations@.len() implies (
                #[trigger] self.allocations@[x]).client@ != (
                #[trigger] self.allocations@[y]).client@ && self.allocations@[x].relayed_port
                    != self.allocations@[y].relayed_port by {
                assert(olds[x].client@ != olds[y].client@ && olds[x].relayed_port != olds[
                y].relayed_port);
            }
            assert forall|x: int|
                0 <= x < self.allocations@.len() implies alloc_wf(
                    #[trigger] self.allocations@[x],
                ) by {
                if x != i as int {
                    assert(alloc_wf(olds[x]));
                }
            }
            assert(spec_perm_live(*self, client@, peer_ip@, now)) by {
                let m = choose|m: int|
                    0 <= m < self.allocations@[i as int].permissions@.len() && (
                    #[trigger] self.allocations@[i as int].permissions@[m]).ip@ == peer_ip@
                        && self.allocations@[i as int].permissions@[m].expires >= (now
                        + conf.permission_ttl) as u64;
                assert(self.allocations@[i as int].client@ == client@);
                assert(self.allocations@[i as int].permissions@[m].expires > now);
            }
        }
        true
    }
}

/// Whether a binding with exactly this number and peer exists.
pub open spec fn spec_chan_exact(chans: Seq<ChannelBinding>, number: u16, peer: AddrV) -> bool {
    exists|i: int|
        0 <= i < chans.len() && (#[trigger] chans[i]).number == number && chans[i].peer@ == peer
}

/// Whether some binding blocks this number ↔ peer pair: it shares the
/// number or the peer, but not both. Such an entry stays in the ledger
/// until the sweeper drops it, which happens no earlier than its
/// expiry plus the quiet interval — so a lapsed pair cannot be rebound
/// elsewhere before that.
pub open spec fn spec_chan_blocked(chans: Seq<ChannelBinding>, number: u16, peer: AddrV) -> bool {
    exists|i: int|
        0 <= i < chans.len() && ((#[trigger] chans[i]).number == number || chans[i].peer@ == peer)
            && !(chans[i].number == number && chans[i].peer@ == peer)
}

/// How a channel ledger changes when a binding is installed or
/// refreshed: an identical pair's expiry is rewritten, a new pair is
/// appended, everything else is untouched.
pub open spec fn chan_upserted(
    olds: Seq<ChannelBinding>,
    news: Seq<ChannelBinding>,
    number: u16,
    peer: AddrV,
    exp: u64,
) -> bool {
    ||| (exists|j: int|
        0 <= j < olds.len() && (#[trigger] olds[j]).number == number && olds[j].peer@ == peer
            && news.len() == olds.len() && news[j].number == number && news[j].peer@ == peer
            && news[j].expires == exp && (forall|k: int|
            0 <= k < olds.len() && k != j ==> news[k] == olds[k]))
    ||| ((forall|j: int|
        0 <= j < olds.len() ==> !((#[trigger] olds[j]).number == number && olds[j].peer@ == peer))
        && news.len() == olds.len() + 1 && news[olds.len() as int].number == number && news[
        olds.len() as int].peer@ == peer && news[olds.len() as int].expires == exp && (forall|
        k: int,
    |
        0 <= k < olds.len() ==> news[k] == olds[k]))
}

/// Install or refresh one channel binding; fails on a pair that
/// shares only its number or only its peer with an existing entry.
#[verifier::loop_isolation(false)]
#[verifier::rlimit(100)]
fn upsert_channel(chans: &mut Vec<ChannelBinding>, number: u16, peer: &Addr, exp: u64) -> (r: bool)
    requires
        chans_wf(old(chans)@),
        0x4000 <= number <= 0x4FFF,
        addr_wf(peer@),
    ensures
        chans_wf(final(chans)@),
        r == !spec_chan_blocked(old(chans)@, number, peer@),
        !r ==> *final(chans) == *old(chans),
        r ==> chan_upserted(old(chans)@, final(chans)@, number, peer@, exp),
        r ==> exists|m: int|
            0 <= m < final(chans)@.len() && (#[trigger] final(chans)@[m]).number == number
                && final(chans)@[m].peer@ == peer@ && final(chans)@[m].expires == exp,
        forall|m: int|
            0 <= m < final(chans)@.len() ==> ((#[trigger] final(chans)@[m]).number == number
                && final(chans)@[m].peer@ == peer@ && final(chans)@[m].expires == exp) || exists|
                q: int,
            |
                0 <= q < old(chans)@.len() && (#[trigger] old(chans)@[q]) == final(chans)@[m],
{
    let n = chans.len();
    let mut j: usize = 0;
    while j < n
        invariant
            j <= n,
            n == chans@.len(),
            *chans == *old(chans),
            forall|k: int|
                0 <= k < j ==> !((#[trigger] chans@[k]).number == number || chans@[k].peer@
                    == peer@),
        decreases n - j,
    {
        let c = &chans[j];
        let same_peer = addr_eq(&c.peer, peer);
        if c.number == number && same_peer {
            proof {
                assert forall|k: int|
                    0 <= k < chans@.len() && k != j implies !((#[trigger] chans@[k]).number
                        == number || chans@[k].peer@ == peer@) by {
                    if k < j as int {
                    } else {
                        if k < j as int {
                        } else if (j as int) < k {
                            assert(chans@[j as int].number != chans@[k].number && chans@[
                            j as int].peer@ != chans@[k].peer@);
                        }
                    }
                }
            }
            chans.remove(j);
            chans.insert(j, ChannelBinding { number, peer: dup_addr(peer), expires: exp });
            proof {
                assert(chans@ =~= old(chans)@.update(j as int, chans@[j as int]));
                assert forall|x: int, y: int|
                    0 <= x < y < chans@.len() implies (#[trigger] chans@[x]).number != (
                    #[trigger] chans@[y]).number && chans@[x].peer@ != chans@[y].peer@ by {
                    assert(old(chans)@[x].number != old(chans)@[y].number && old(chans)@[x].peer@
                        != old(chans)@[y].peer@);
                }
                assert(!spec_chan_blocked(old(chans)@, number, peer@)) by {
                    if spec_chan_blocked(old(chans)@, number, peer@) {
                        let i = choose|i: int|
                            0 <= i < old(chans)@.len() && ((#[trigger] old(chans)@[i]).number
                                == number || old(chans)@[i].peer@ == peer@) && !(old(chans)@[
                            i].number == number && old(chans)@[i].peer@ == peer@);
                        assert(false);
                    }
                }
            }
            return true;
        }
        if c.number == number || same_peer {
            proof {
                assert(spec_chan_blocked(chans@, number, peer@));
            }
            return false;
        }
        j = j + 1;
    }
    chans.push(ChannelBinding { number, peer: dup_addr(peer), expires: exp });
    proof {
        assert forall|x: int, y: int|
            0 <= x < y < chans@.len() implies (#[trigger] chans@[x]).number != (
            #[trigger] chans@[y]).number && chans@[x].peer@ != chans@[y].peer@ by {
            if y < old(chans)@.len() {
                assert(old(chans)@[x].number != old(chans)@[y].number && old(chans)@[x].peer@
                    != old(chans)@[y].peer@);
            } else {
                assert(!((#[trigger] old(chans)@[x]).number == number || old(chans)@[x].peer@
                    == peer@));
            }
        }
    }
    true
}


impl RelayState {
    /// Bind a channel number to a peer under the client's allocation,
    /// and install a permission for the peer's IP lasting at least as
    /// long. Re-binding the same pair refreshes it; a pair that shares
    /// only the number or only the peer with a ledger entry is
    /// rejected — lapsed entries leave the ledger through the sweeper,
    /// no earlier than their expiry plus the quiet interval — as is a
    /// client with no allocation.
    #[verifier::loop_isolation(false)]
    #[verifier::rlimit(100)]
    pub fn insert_channel(&mut self, client: &Addr, peer: &Addr, number: u16, now: u64, conf: &Conf) -> (r: bool)
        requires
            state_wf(*old(self)),
            conf_wf(*conf),
            now <= MAX_TIME,
            0x4000 <= number <= 0x4FFF,
            addr_wf(peer@),
        ensures
            state_wf(*final(self)),
            final(self).nonces@ == old(self).nonces@,
            final(self).credentials@ == old(self).credentials@,
            r == exists|i: int|
                0 <= i < old(self).allocations@.len() && (#[trigger] old(self).allocations@[i]).client@ == client@ && !spec_chan_blocked(old(self).allocations@[i].channels@, number, peer@),
            !r ==> final(self).allocations@ == old(self).allocations@,
            r ==> exists|i: int|
                0 <= i < old(self).allocations@.len() && (#[trigger] old(self).allocations@[i]).client@ == client@ && final(self).allocations@.len() == old(self).allocations@.len() && (forall|j: int|
                    0 <= j < old(self).allocations@.len() && j != i ==> final(self).allocations@[j] == old(self).allocations@[j]) && ({
                    let oa = old(self).allocations@[i];
                    let na = final(self).allocations@[i];
                    &&& na.client@ == oa.client@
                    &&& na.username@ == oa.username@
                    &&& na.relayed_port == oa.relayed_port
                    &&& na.expires == oa.expires
                    &&& chan_upserted(
                        oa.channels@,
                        na.channels@,
                        number,
                        peer@,
                        (now + conf.channel_ttl) as u64,
                    )
                    &&& spec_chan_exact(na.channels@, number, peer@)
                    &&& perm_upserted(
                        oa.permissions@,
                        na.permissions@,
                        peer@.ip,
                        (now + conf.channel_ttl) as u64,
                    )
                }),
    {
        let i = match self.find_alloc(client) {
            Some(i) => i,
            None => {
                return false;
            },
        };
        proof {
            assert forall|j: int|
                0 <= j < self.allocations@.len() && (#[trigger] self.allocations@[j]).client@
                    == client@ implies j == i as int by {
                if j < i as int {
                    assert(self.allocations@[j].client@ != self.allocations@[i as int].client@);
                } else if j > i as int {
                    assert(self.allocations@[i as int].client@ != self.allocations@[j].client@);
                }
            }
        }
        let ghost olds = self.allocations@;
        let ghost oa = olds[i as int];
        let mut a = self.allocations.remove(i);
        let ok = upsert_channel(&mut a.channels, number, peer, now + conf.channel_ttl);
        if !ok {
            self.allocations.insert(i, a);
            proof {
                assert(self.allocations@ =~= olds);
            }
            return false;
        }
        upsert_perm(&mut a.permissions, peer.ip.as_slice(), now + conf.channel_ttl);
        proof {
            let nc = a.channels@;
            assert forall|c: int|
                0 <= c < nc.len() implies exists|m: int|
                    0 <= m < a.permissions@.len() && (#[trigger] a.permissions@[m]).ip@ == (
                    #[trigger] nc[c]).peer@.ip && a.permissions@[m].expires >= nc[c].expires by {
                if nc[c].number == number && nc[c].peer@ == peer@ && nc[c].expires == (now
                    + conf.channel_ttl) as u64 {
                    let m = choose|m: int|
                        0 <= m < a.permissions@.len() && (#[trigger] a.permissions@[m]).ip@
                            == peer@.ip && a.permissions@[m].expires >= (now
                            + conf.channel_ttl) as u64;
                    assert(a.permissions@[m].ip@ == nc[c].peer@.ip && a.permissions@[m].expires
                        >= nc[c].expires);
                } else {
                    let q = choose|q: int|
                        0 <= q < oa.channels@.len() && (#[trigger] oa.channels@[q]) == nc[c];
                    let d = choose|d: int|
                        0 <= d < oa.permissions@.len() && (#[trigger] oa.permissions@[d]).ip@
                            == oa.channels@[q].peer@.ip && oa.permissions@[d].expires
                            >= oa.channels@[q].expires;
                    let m = choose|m: int|
                        0 <= m < a.permissions@.len() && (#[trigger] a.permissions@[m]).ip@
                            == oa.permissions@[d].ip@ && a.permissions@[m].expires
                            >= oa.permissions@[d].expires;
                    assert(a.permissions@[m].ip@ == nc[c].peer@.ip && a.permissions@[m].expires
                        >= nc[c].expires);
                }
            }
            assert(alloc_wf(a));
        }
        self.allocations.insert(i, a);
        proof {
            assert(self.allocations@ =~= olds.update(i as int, self.allocations@[i as int]));
            assert forall|x: int, y: int|
                0 <= x < y < self.allocations@.len() implies (
                #[trigger] self.allocations@[x]).client@ != (
                #[trigger] self.allocations@[y]).client@ && self.allocations@[x].relayed_port
                    != self.allocations@[y].relayed_port by {
                assert(olds[x].client@ != olds[y].client@ && olds[x].relayed_port != olds[
                y].relayed_port);
            }
            assert forall|x: int|
                0 <= x < self.allocations@.len() implies alloc_wf(
                    #[trigger] self.allocations@[x],
                ) by {
                if x != i as int {
                    assert(alloc_wf(olds[x]));
                }
            }
        }
        true
    }
}

/// Whether some binding's peer has this IP.
pub open spec fn spec_chan_ip(chans: Seq<ChannelBinding>, ip: Seq<u8>) -> bool {
    exists|c: int| 0 <= c < chans.len() && (#[trigger] chans[c]).peer@.ip == ip
}

/// The nonce entries that have not expired, in order.
pub open spec fn spec_live_nonces(s: Seq<NonceEntry>, now: u64) -> Seq<NonceEntry>
    decreases s.len(),
{
    if s.len() == 0 {
        s
    } else {
        let rest = spec_live_nonces(s.drop_last(), now);
        if s.last().expires > now {
            rest.push(s.last())
        } else {
            rest
        }
    }
}

/// The allocations that have not expired, in order.
pub open spec fn spec_live_allocs(s: Seq<Allocation>, now: u64) -> Seq<Allocation>
    decreases s.len(),
{
    if s.len() == 0 {
        s
    } else {
        let rest = spec_live_allocs(s.drop_last(), now);
        if s.last().expires > now {
            rest.push(s.last())
        } else {
            rest
        }
    }
}

/// The channel bindings whose quiet interval has not yet passed, in
/// order.
pub open spec fn spec_live_chans(s: Seq<ChannelBinding>, now: u64) -> Seq<ChannelBinding>
    decreases s.len(),
{
    if s.len() == 0 {
        s
    } else {
        let rest = spec_live_chans(s.drop_last(), now);
        if now < s.last().expires + CHANNEL_QUIET_SECS {
            rest.push(s.last())
        } else {
            rest
        }
    }
}

/// The permissions to keep at a sweep: unexpired ones, and expired
/// ones that a kept channel binding still references.
pub open spec fn spec_keep_perms(s: Seq<Permission>, chans: Seq<ChannelBinding>, now: u64) -> Seq<
    Permission,
>
    decreases s.len(),
{
    if s.len() == 0 {
        s
    } else {
        let rest = spec_keep_perms(s.drop_last(), chans, now);
        if s.last().expires > now || spec_chan_ip(chans, s.last().ip@) {
            rest.push(s.last())
        } else {
            rest
        }
    }
}

/// Every filtered nonce entry is an unexpired entry of the original
/// ledger, and uniqueness of clients carries over.
#[verifier::rlimit(100)]
proof fn lemma_live_nonces_wf(s: Seq<NonceEntry>, now: u64)
    requires
        nonces_wf(s),
    ensures
        nonces_wf(spec_live_nonces(s, now)),
        forall|j: int|
            0 <= j < spec_live_nonces(s, now).len() ==> exists|k: int|
                0 <= k < s.len() && (#[trigger] s[k]) == (#[trigger] spec_live_nonces(s, now)[j])
                    && s[k].expires > now,
    decreases s.len(),
{
    if s.len() > 0 {
        let d = s.drop_last();
        assert(forall|i: int| 0 <= i < d.len() ==> (#[trigger] d[i]) == s[i]);
        lemma_live_nonces_wf(d, now);
        let rest = spec_live_nonces(d, now);
        if s.last().expires > now {
            let live = rest.push(s.last());
            assert forall|j: int|
                0 <= j < live.len() implies exists|k: int|
                    0 <= k < s.len() && (#[trigger] s[k]) == (#[trigger] live[j]) && s[k].expires
                        > now by {
                if j < live.len() - 1 {
                    assert(live[j] == rest[j]);
                    let k = choose|k: int|
                        0 <= k < d.len() && (#[trigger] d[k]) == rest[j] && d[k].expires > now;
                    assert(s[k] == live[j]);
                } else {
                    assert(s[s.len() - 1] == live[j]);
                }
            }
            assert forall|x: int, y: int|
                0 <= x < y < live.len() implies (#[trigger] live[x]).client@ != (
                #[trigger] live[y]).client@ by {
                if y == live.len() - 1 {
                    let k = choose|k: int|
                        0 <= k < d.len() && (#[trigger] d[k]) == rest[x] && d[k].expires > now;
                    assert(live[x] == s[k]);
                    assert(s[k].client@ != s[s.len() - 1].client@);
                } else {
                    assert(live[x] == rest[x] && live[y] == rest[y]);
                    assert(rest[x].client@ != rest[y].client@);
                }
            }
        }
    }
}

/// Every surviving allocation is an unexpired original, and client
/// and port uniqueness carry over. Per-allocation well-formedness is
/// recovered from membership by the caller.
#[verifier::rlimit(100)]
proof fn lemma_live_allocs_sub(s: Seq<Allocation>, now: u64)
    requires
        forall|i: int, j: int|
            0 <= i < j < s.len() ==> (#[trigger] s[i]).client@ != (#[trigger] s[j]).client@ && s[
            i].relayed_port != s[j].relayed_port,
    ensures
        forall|x: int, y: int|
            0 <= x < y < spec_live_allocs(s, now).len() ==> (#[trigger] spec_live_allocs(
                s,
                now,
            )[x]).client@ != (#[trigger] spec_live_allocs(s, now)[y]).client@ && spec_live_allocs(
                s,
                now,
            )[x].relayed_port != spec_live_allocs(s, now)[y].relayed_port,
        forall|j: int|
            0 <= j < spec_live_allocs(s, now).len() ==> exists|k: int|
                0 <= k < s.len() && (#[trigger] s[k]) == (#[trigger] spec_live_allocs(s, now)[j])
                    && s[k].expires > now,
    decreases s.len(),
{
    if s.len() > 0 {
        let d = s.drop_last();
        assert(forall|i: int| 0 <= i < d.len() ==> (#[trigger] d[i]) == s[i]);
        lemma_live_allocs_sub(d, now);
        let rest = spec_live_allocs(d, now);
        if s.last().expires > now {
            let live = rest.push(s.last());
            assert forall|j: int|
                0 <= j < live.len() implies exists|k: int|
                    0 <= k < s.len() && (#[trigger] s[k]) == (#[trigger] live[j]) && s[k].expires
                        > now by {
                if j < live.len() - 1 {
                    assert(live[j] == rest[j]);
                    let k = choose|k: int|
                        0 <= k < d.len() && (#[trigger] d[k]) == rest[j] && d[k].expires > now;
                    assert(s[k] == live[j]);
                } else {
                    assert(s[s.len() - 1] == live[j]);
                }
            }
            assert forall|x: int, y: int|
                0 <= x < y < live.len() implies (#[trigger] live[x]).client@ != (
                #[trigger] live[y]).client@ && live[x].relayed_port != live[y].relayed_port by {
                if y == live.len() - 1 {
                    let k = choose|k: int|
                        0 <= k < d.len() && (#[trigger] d[k]) == rest[x] && d[k].expires > now;
                    assert(live[x] == s[k]);
                    assert(s[k].client@ != s[s.len() - 1].client@ && s[k].relayed_port != s[s.len()
                        - 1].relayed_port);
                } else {
                    assert(live[x] == rest[x] && live[y] == rest[y]);
                    assert(rest[x].client@ != rest[y].client@ && rest[x].relayed_port != rest[
                    y].relayed_port);
                }
            }
        }
    }
}

/// Every kept binding is one of the originals, still inside its quiet
/// interval; the number ↔ peer bijection carries over.
proof fn lemma_live_chans_wf(s: Seq<ChannelBinding>, now: u64)
    requires
        chans_wf(s),
    ensures
        chans_wf(spec_live_chans(s, now)),
        forall|j: int|
            0 <= j < spec_live_chans(s, now).len() ==> exists|k: int|
                0 <= k < s.len() && (#[trigger] s[k]) == (#[trigger] spec_live_chans(s, now)[j]),
    decreases s.len(),
{
    if s.len() > 0 {
        let d = s.drop_last();
        assert(forall|i: int| 0 <= i < d.len() ==> (#[trigger] d[i]) == s[i]);
        lemma_live_chans_wf(d, now);
        let rest = spec_live_chans(d, now);
        if now < s.last().expires + CHANNEL_QUIET_SECS {
            let live = rest.push(s.last());
            assert forall|j: int|
                0 <= j < live.len() implies exists|k: int|
                    0 <= k < s.len() && (#[trigger] s[k]) == (#[trigger] live[j]) by {
                if j < live.len() - 1 {
                    assert(live[j] == rest[j]);
                    let k = choose|k: int| 0 <= k < d.len() && (#[trigger] d[k]) == rest[j];
                    assert(s[k] == live[j]);
                } else {
                    assert(s[s.len() - 1] == live[j]);
                }
            }
            assert forall|x: int, y: int|
                0 <= x < y < live.len() implies (#[trigger] live[x]).number != (
                #[trigger] live[y]).number && live[x].peer@ != live[y].peer@ by {
                if y == live.len() - 1 {
                    let k = choose|k: int| 0 <= k < d.len() && (#[trigger] d[k]) == rest[x];
                    assert(live[x] == s[k]);
                    assert(s[k].number != s[s.len() - 1].number && s[k].peer@ != s[s.len()
                        - 1].peer@);
                } else {
                    assert(live[x] == rest[x] && live[y] == rest[y]);
                    assert(rest[x].number != rest[y].number && rest[x].peer@ != rest[y].peer@);
                }
            }
            assert forall|j: int|
                0 <= j < live.len() implies 0x4000 <= (#[trigger] live[j]).number <= 0x4FFF
                    && crate::addr::addr_wf(live[j].peer@) by {
                if j < live.len() - 1 {
                    assert(0x4000 <= rest[j].number <= 0x4FFF && crate::addr::addr_wf(
                        rest[j].peer@,
                    ));
                } else {
                    assert(0x4000 <= s[s.len() - 1].number <= 0x4FFF && crate::addr::addr_wf(
                        s[s.len() - 1].peer@,
                    ));
                }
            }
        }
    }
}

/// Every kept permission is one of the originals; IP uniqueness
/// carries over.
proof fn lemma_keep_perms_wf(s: Seq<Permission>, chans: Seq<ChannelBinding>, now: u64)
    requires
        perms_wf(s),
    ensures
        perms_wf(spec_keep_perms(s, chans, now)),
        forall|j: int|
            0 <= j < spec_keep_perms(s, chans, now).len() ==> exists|k: int|
                0 <= k < s.len() && (#[trigger] s[k]) == (#[trigger] spec_keep_perms(
                    s,
                    chans,
                    now,
                )[j]),
    decreases s.len(),
{
    if s.len() > 0 {
        let d = s.drop_last();
        assert(forall|i: int| 0 <= i < d.len() ==> (#[trigger] d[i]) == s[i]);
        lemma_keep_perms_wf(d, chans, now);
        let rest = spec_keep_perms(d, chans, now);
        if s.last().expires > now || spec_chan_ip(chans, s.last().ip@) {
            let live = rest.push(s.last());
            assert forall|j: int|
                0 <= j < live.len() implies exists|k: int|
                    0 <= k < s.len() && (#[trigger] s[k]) == (#[trigger] live[j]) by {
                if j < live.len() - 1 {
                    assert(live[j] == rest[j]);
                    let k = choose|k: int| 0 <= k < d.len() && (#[trigger] d[k]) == rest[j];
                    assert(s[k] == live[j]);
                } else {
                    assert(s[s.len() - 1] == live[j]);
                }
            }
            assert forall|x: int, y: int|
                0 <= x < y < live.len() implies (#[trigger] live[x]).ip@ != (
                #[trigger] live[y]).ip@ by {
                if y == live.len() - 1 {
                    let k = choose|k: int| 0 <= k < d.len() && (#[trigger] d[k]) == rest[x];
                    assert(live[x] == s[k]);
                    assert(s[k].ip@ != s[s.len() - 1].ip@);
                } else {
                    assert(live[x] == rest[x] && live[y] == rest[y]);
                    assert(rest[x].ip@ != rest[y].ip@);
                }
            }
        }
    }
}

/// A permission the keep rule accepts appears among the kept ones.
proof fn lemma_keep_perms_has(s: Seq<Permission>, chans: Seq<ChannelBinding>, now: u64, q: int)
    requires
        0 <= q < s.len(),
        s[q].expires > now || spec_chan_ip(chans, s[q].ip@),
    ensures
        exists|p: int|
            0 <= p < spec_keep_perms(s, chans, now).len() && (#[trigger] spec_keep_perms(
                s,
                chans,
                now,
            )[p]) == s[q],
    decreases s.len(),
{
    let d = s.drop_last();
    let rest = spec_keep_perms(d, chans, now);
    if q == s.len() - 1 {
        let live = rest.push(s.last());
        assert(spec_keep_perms(s, chans, now) == live);
        assert(live[live.len() - 1] == s[q]);
    } else {
        assert(d[q] == s[q]);
        lemma_keep_perms_has(d, chans, now, q);
        let p = choose|p: int|
            0 <= p < spec_keep_perms(d, chans, now).len() && (#[trigger] spec_keep_perms(
                d,
                chans,
                now,
            )[p]) == d[q];
        if s.last().expires > now || spec_chan_ip(chans, s.last().ip@) {
            assert(spec_keep_perms(s, chans, now) == rest.push(s.last()));
            assert(spec_keep_perms(s, chans, now)[p] == s[q]);
        } else {
            assert(spec_keep_perms(s, chans, now) == rest);
            assert(spec_keep_perms(s, chans, now)[p] == s[q]);
        }
    }
}

/// Drop the expired nonce entries, in place and in order.
#[verifier::loop_isolation(false)]
fn prune_nonces(v: &mut Vec<NonceEntry>, now: u64)
    ensures
        final(v)@ == spec_live_nonces(old(v)@, now),
{
    let ghost orig = old(v)@;
    let ghost mut p: int = 0;
    let mut i: usize = 0;
    proof {
        assert(orig.take(0) =~= Seq::<NonceEntry>::empty());
        assert(orig.skip(0) =~= orig);
    }
    while i < v.len()
        invariant
            0 <= p <= orig.len(),
            i as int == spec_live_nonces(orig.take(p), now).len(),
            v@ == spec_live_nonces(orig.take(p), now) + orig.skip(p),
        decreases orig.len() - p,
    {
        proof {
            assert(orig.take(p + 1).drop_last() =~= orig.take(p));
            assert(orig.take(p + 1).last() == orig[p]);
            assert(v@[i as int] == orig.skip(p)[0]);
            assert(orig.skip(p)[0] == orig[p]);
            assert(orig.skip(p).drop_first() =~= orig.skip(p + 1));
        }
        if v[i].expires > now {
            i = i + 1;
        } else {
            v.remove(i);
        }
        proof {
            p = p + 1;
            assert(v@ =~= spec_live_nonces(orig.take(p), now) + orig.skip(p));
        }
    }
    proof {
        assert(p == orig.len());
        assert(orig.take(p) =~= orig);
        assert(orig.skip(p) =~= Seq::<NonceEntry>::empty());
        assert(v@ =~= spec_live_nonces(orig, now));
    }
}

/// Drop the expired allocations, in place and in order.
#[verifier::loop_isolation(false)]
fn prune_allocs(v: &mut Vec<Allocation>, now: u64)
    ensures
        final(v)@ == spec_live_allocs(old(v)@, now),
{
    let ghost orig = old(v)@;
    let ghost mut p: int = 0;
    let mut i: usize = 0;
    proof {
        assert(orig.take(0) =~= Seq::<Allocation>::empty());
        assert(orig.skip(0) =~= orig);
    }
    while i < v.len()
        invariant
            0 <= p <= orig.len(),
            i as int == spec_live_allocs(orig.take(p), now).len(),
            v@ == spec_live_allocs(orig.take(p), now) + orig.skip(p),
        decreases orig.len() - p,
    {
        proof {
            assert(orig.take(p + 1).drop_last() =~= orig.take(p));
            assert(orig.take(p + 1).last() == orig[p]);
            assert(v@[i as int] == orig.skip(p)[0]);
            assert(orig.skip(p)[0] == orig[p]);
            assert(orig.skip(p).drop_first() =~= orig.skip(p + 1));
        }
        if v[i].expires > now {
            i = i + 1;
        } else {
            v.remove(i);
        }
        proof {
            p = p + 1;
            assert(v@ =~= spec_live_allocs(orig.take(p), now) + orig.skip(p));
        }
    }
    proof {
        assert(p == orig.len());
        assert(orig.take(p) =~= orig);
        assert(orig.skip(p) =~= Seq::<Allocation>::empty());
        assert(v@ =~= spec_live_allocs(orig, now));
    }
}

/// Drop the channel bindings whose quiet interval has passed, in
/// place and in order.
#[verifier::loop_isolation(false)]
fn prune_chans(v: &mut Vec<ChannelBinding>, now: u64)
    ensures
        final(v)@ == spec_live_chans(old(v)@, now),
{
    let ghost orig = old(v)@;
    let ghost mut p: int = 0;
    let mut i: usize = 0;
    proof {
        assert(orig.take(0) =~= Seq::<ChannelBinding>::empty());
        assert(orig.skip(0) =~= orig);
    }
    while i < v.len()
        invariant
            0 <= p <= orig.len(),
            i as int == spec_live_chans(orig.take(p), now).len(),
            v@ == spec_live_chans(orig.take(p), now) + orig.skip(p),
        decreases orig.len() - p,
    {
        proof {
            assert(orig.take(p + 1).drop_last() =~= orig.take(p));
            assert(orig.take(p + 1).last() == orig[p]);
            assert(v@[i as int] == orig.skip(p)[0]);
            assert(orig.skip(p)[0] == orig[p]);
            assert(orig.skip(p).drop_first() =~= orig.skip(p + 1));
        }
        let e = &v[i];
        let live = e.expires > now || now - e.expires < CHANNEL_QUIET_SECS;
        if live {
            i = i + 1;
        } else {
            v.remove(i);
        }
        proof {
            p = p + 1;
            assert(v@ =~= spec_live_chans(orig.take(p), now) + orig.skip(p));
        }
    }
    proof {
        assert(p == orig.len());
        assert(orig.take(p) =~= orig);
        assert(orig.skip(p) =~= Seq::<ChannelBinding>::empty());
        assert(v@ =~= spec_live_chans(orig, now));
    }
}

/// Whether some binding's peer has this IP.
fn has_chan_ip(chans: &Vec<ChannelBinding>, ip: &[u8]) -> (r: bool)
    ensures
        r == spec_chan_ip(chans@, ip@),
{
    let n = chans.len();
    let mut c: usize = 0;
    while c < n
        invariant
            c <= n,
            n == chans@.len(),
            forall|k: int| 0 <= k < c ==> (#[trigger] chans@[k]).peer@.ip != ip@,
        decreases n - c,
    {
        if eq_bytes(chans[c].peer.ip.as_slice(), ip) {
            return true;
        }
        c = c + 1;
    }
    false
}

/// Drop the permissions that have expired and that no kept binding
/// references, in place and in order.
#[verifier::loop_isolation(false)]
fn prune_perms(v: &mut Vec<Permission>, chans: &Vec<ChannelBinding>, now: u64)
    ensures
        final(v)@ == spec_keep_perms(old(v)@, chans@, now),
{
    let ghost orig = old(v)@;
    let ghost mut p: int = 0;
    let mut i: usize = 0;
    proof {
        assert(orig.take(0) =~= Seq::<Permission>::empty());
        assert(orig.skip(0) =~= orig);
    }
    while i < v.len()
        invariant
            0 <= p <= orig.len(),
            i as int == spec_keep_perms(orig.take(p), chans@, now).len(),
            v@ == spec_keep_perms(orig.take(p), chans@, now) + orig.skip(p),
        decreases orig.len() - p,
    {
        proof {
            assert(orig.take(p + 1).drop_last() =~= orig.take(p));
            assert(orig.take(p + 1).last() == orig[p]);
            assert(v@[i as int] == orig.skip(p)[0]);
            assert(orig.skip(p)[0] == orig[p]);
            assert(orig.skip(p).drop_first() =~= orig.skip(p + 1));
        }
        let keep = v[i].expires > now || has_chan_ip(chans, v[i].ip.as_slice());
        if keep {
            i = i + 1;
        } else {
            v.remove(i);
        }
        proof {
            p = p + 1;
            assert(v@ =~= spec_keep_perms(orig.take(p), chans@, now) + orig.skip(p));
        }
    }
    proof {
        assert(p == orig.len());
        assert(orig.take(p) =~= orig);
        assert(orig.skip(p) =~= Seq::<Permission>::empty());
        assert(v@ =~= spec_keep_perms(orig, chans@, now));
    }
}

/// Prune one surviving allocation: bindings past their quiet
/// interval leave, then permissions that are expired and unreferenced.
#[verifier::loop_isolation(false)]
#[verifier::rlimit(100)]
fn sweep_alloc(a: &mut Allocation, now: u64)
    requires
        alloc_wf(*old(a)),
    ensures
        alloc_wf(*final(a)),
        final(a).client@ == old(a).client@,
        final(a).username@ == old(a).username@,
        final(a).relayed_port == old(a).relayed_port,
        final(a).expires == old(a).expires,
        final(a).channels@ == spec_live_chans(old(a).channels@, now),
        final(a).permissions@ == spec_keep_perms(old(a).permissions@, final(a).channels@, now),
{
    let ghost oa = *old(a);
    prune_chans(&mut a.channels, now);
    prune_perms(&mut a.permissions, &a.channels, now);
    proof {
        lemma_live_chans_wf(oa.channels@, now);
        lemma_keep_perms_wf(oa.permissions@, a.channels@, now);
        assert forall|c: int|
            0 <= c < a.channels@.len() implies exists|m: int|
                0 <= m < a.permissions@.len() && (#[trigger] a.permissions@[m]).ip@ == (
                #[trigger] a.channels@[c]).peer@.ip && a.permissions@[m].expires
                    >= a.channels@[c].expires by {
            assert(a.channels@[c] == spec_live_chans(oa.channels@, now)[c]);
            let k = choose|k: int|
                0 <= k < oa.channels@.len() && (#[trigger] oa.channels@[k]) == spec_live_chans(
                    oa.channels@,
                    now,
                )[c];
            assert(oa.channels@[k] == a.channels@[c]);
            let d = choose|d: int|
                0 <= d < oa.permissions@.len() && (#[trigger] oa.permissions@[d]).ip@
                    == oa.channels@[k].peer@.ip && oa.permissions@[d].expires >= oa.channels@[
                k].expires;
            assert(spec_chan_ip(a.channels@, oa.permissions@[d].ip@));
            lemma_keep_perms_has(oa.permissions@, a.channels@, now, d);
            let m = choose|m: int|
                0 <= m < spec_keep_perms(oa.permissions@, a.channels@, now).len() && (
                #[trigger] spec_keep_perms(oa.permissions@, a.channels@, now)[m])
                    == oa.permissions@[d];
            assert(a.permissions@[m].ip@ == a.channels@[c].peer@.ip && a.permissions@[m].expires
                >= a.channels@[c].expires);
        }
        assert(addr_wf(a.client@));
        assert(chans_wf(a.channels@));
        assert(perms_wf(a.permissions@));
        assert(chans_covered(a.channels@, a.permissions@));
        assert(alloc_wf(*a));
    }
}

impl RelayState {
    /// The periodic sweep: expired nonces and allocations leave the
    /// ledgers (an allocation's port is thereby freed and its
    /// permissions and bindings go with it); within the survivors, a
    /// channel binding is kept exactly while its quiet interval lasts,
    /// and a permission exactly while it is unexpired or a kept
    /// binding still references its IP.
    #[verifier::loop_isolation(false)]
    #[verifier::rlimit(100)]
    pub fn sweep(&mut self, now: u64)
        requires
            state_wf(*old(self)),
        ensures
            state_wf(*final(self)),
            final(self).credentials@ == old(self).credentials@,
            final(self).nonces@ == spec_live_nonces(old(self).nonces@, now),
            final(self).allocations@.len() == spec_live_allocs(old(self).allocations@, now).len(),
            forall|i: int|
                0 <= i < final(self).allocations@.len() ==> ({
                    let oa = spec_live_allocs(old(self).allocations@, now)[i];
                    let na = #[trigger] final(self).allocations@[i];
                    &&& na.client@ == oa.client@
                    &&& na.username@ == oa.username@
                    &&& na.relayed_port == oa.relayed_port
                    &&& na.expires == oa.expires
                    &&& na.expires > now
                    &&& na.channels@ == spec_live_chans(oa.channels@, now)
                    &&& na.permissions@ == spec_keep_perms(oa.permissions@, na.channels@, now)
                }),
    {
        prune_nonces(&mut self.nonces, now);
        proof {
            lemma_live_nonces_wf(old(self).nonces@, now);
        }
        prune_allocs(&mut self.allocations, now);
        let ghost live = spec_live_allocs(old(self).allocations@, now);
        proof {
            lemma_live_allocs_sub(old(self).allocations@, now);
            assert forall|j: int|
                0 <= j < live.len() implies alloc_wf(#[trigger] live[j]) && live[j].expires
                    > now by {
                let k = choose|k: int|
                    0 <= k < old(self).allocations@.len() && (#[trigger] old(
                        self,
                    ).allocations@[k]) == live[j] && old(self).allocations@[k].expires > now;
                assert(alloc_wf(old(self).allocations@[k]));
            }
        }
        let n = self.allocations.len();
        let mut i: usize = 0;
        while i < n
            invariant
                i <= n,
                n == self.allocations@.len(),
                n == live.len(),
                self.nonces@ == spec_live_nonces(old(self).nonces@, now),
                self.credentials@ == old(self).credentials@,
                forall|j: int| i <= j < n ==> (#[trigger] self.allocations@[j]) == live[j],
                forall|j: int|
                    0 <= j < i ==> ({
                        let oa = live[j];
                        let na = #[trigger] self.allocations@[j];
                        &&& na.client@ == oa.client@
                        &&& na.username@ == oa.username@
                        &&& na.relayed_port == oa.relayed_port
                        &&& na.expires == oa.expires
                        &&& na.expires > now
                        &&& alloc_wf(na)
                        &&& na.channels@ == spec_live_chans(oa.channels@, now)
                        &&& na.permissions@ == spec_keep_perms(oa.permissions@, na.channels@, now)
                    }),
            decreases n - i,
        {
            let ghost pre = self.allocations@;
            let mut a = self.allocations.remove(i);
            let ghost oa = live[i as int];
            proof {
                assert(alloc_wf(live[i as int]));
            }
            sweep_alloc(&mut a, now);
            self.allocations.insert(i, a);
            proof {
                assert(self.allocations@ =~= pre.update(i as int, self.allocations@[i as int]));
            }
            i = i + 1;
        }
        proof {
            assert forall|x: int, y: int|
                0 <= x < y < self.allocations@.len() implies (
                #[trigger] self.allocations@[x]).client@ != (
                #[trigger] self.allocations@[y]).client@ && self.allocations@[x].relayed_port
                    != self.allocations@[y].relayed_port by {
                assert(live[x].client@ != live[y].client@ && live[x].relayed_port != live[
                y].relayed_port);
            }
            assert(allocs_wf(self.allocations@));
            assert(nonces_wf(self.nonces@));
            assert(creds_wf(self.credentials@));
        }
    }
}

/// Allocation uniqueness: in a well-formed state no two allocations
/// share a relayed port (nor a client).
pub proof fn lemma_allocation_ports_unique(s: RelayState)
    requires
        state_wf(s),
    ensures
        forall|i: int, j: int|
            0 <= i < j < s.allocations@.len() ==> (#[trigger] s.allocations@[i]).relayed_port != (
            #[trigger] s.allocations@[j]).relayed_port,
{
    assert forall|i: int, j: int|
        0 <= i < j < s.allocations@.len() implies (#[trigger] s.allocations@[i]).relayed_port != (
        #[trigger] s.allocations@[j]).relayed_port by {
        assert(s.allocations@[i].client@ != s.allocations@[j].client@ && s.allocations@[
        i].relayed_port != s.allocations@[j].relayed_port);
    }
}

/// Channel binding exclusivity: within a well-formed allocation the
/// channel ↔ peer map is a bijection — no channel number and no peer
/// appears in two bindings.
pub proof fn lemma_channel_bijection(a: Allocation)
    requires
        alloc_wf(a),
    ensures
        forall|i: int, j: int|
            0 <= i < a.channels@.len() && 0 <= j < a.channels@.len() && i != j ==> (
            #[trigger] a.channels@[i]).number != (#[trigger] a.channels@[j]).number
                && a.channels@[i].peer@ != a.channels@[j].peer@,
{
    assert forall|i: int, j: int|
        0 <= i < a.channels@.len() && 0 <= j < a.channels@.len() && i != j implies (
        #[trigger] a.channels@[i]).number != (#[trigger] a.channels@[j]).number && a.channels@[
    i].peer@ != a.channels@[j].peer@ by {
        if i < j {
            assert(a.channels@[i].number != a.channels@[j].number && a.channels@[i].peer@
                != a.channels@[j].peer@);
        } else {
            assert(a.channels@[j].number != a.channels@[i].number && a.channels@[j].peer@
                != a.channels@[i].peer@);
        }
    }
}

} // verus!
