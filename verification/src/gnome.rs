use vstd::prelude::*;

use crate::data::{SyncData, MAX_SYNC_DATA};
use crate::message::{
    config_encode, config_gid, config_header_byte, config_len, config_same, payload_same, signature_same, BlockID,
    Configuration, Header, Message, Payload, Signature,
};
use crate::neighbor::{Neighbor, Neighborhood};
use crate::capabilities::{capability_tree, CapabiliTree, Capabilities};
use crate::key_registry::{
    capacity_of_size, first_slot, registry_insert, slots_view, unused_slots, used_prefix_len, KeyRegistry, Slot,
};
use crate::policy::Policy;
use crate::requirement::Requirement;
use crate::neighbor::{time_since, timeouts_sum, NeighborRequest, NeighborResponse, SwarmSyncResponse};
use crate::next_state::{update_outcome, ChangeConfig, NextState};
use crate::swarm::{
    cap_pairs_view, cast_ids_below, cast_unchanged_but, free_unicast_ids, not_in, capability_chunks_of, insert_pairs_from_back, policy_chunks_of, Swarm, SwarmTime, SwarmType,
    DEFAULT_SWARM_DIAMETER,
};
use crate::requirement::requirement_size;
use crate::CastID;
use std::collections::VecDeque;

verus! {

/// Identifier of a gnome (a participant of a swarm).
/// The value `0` stands for "any gnome".
#[derive(Debug, Clone, Copy, PartialEq, Eq, PartialOrd, Ord, Hash, Structural)]
pub struct GnomeId(pub u64);

/// Big-endian byte representation of a `u64`.
pub open spec fn be_bytes_u64(x: u64) -> Seq<u8> {
    seq![
        (x >> 56u64) as u8,
        (x >> 48u64) as u8,
        (x >> 40u64) as u8,
        (x >> 32u64) as u8,
        (x >> 24u64) as u8,
        (x >> 16u64) as u8,
        (x >> 8u64) as u8,
        x as u8,
    ]
}

/// The `u64` whose big-endian representation is `b[0..8]`.
pub open spec fn u64_from_be(b: Seq<u8>) -> u64 {
    ((b[0] as u64) << 56u64) | ((b[1] as u64) << 48u64) | ((b[2] as u64) << 40u64) | ((
    b[3] as u64) << 32u64) | ((b[4] as u64) << 24u64) | ((b[5] as u64) << 16u64) | ((
    b[6] as u64) << 8u64) | (b[7] as u64)
}

/// Reading back the eight big-endian bytes of a number gives the number.
pub proof fn lemma_be_roundtrip(x: u64)
    ensures
        u64_from_be(be_bytes_u64(x)) == x,
{
    let b0 = (x >> 56u64) as u8;
    let b1 = (x >> 48u64) as u8;
    let b2 = (x >> 40u64) as u8;
    let b3 = (x >> 32u64) as u8;
    let b4 = (x >> 24u64) as u8;
    let b5 = (x >> 16u64) as u8;
    let b6 = (x >> 8u64) as u8;
    let b7 = x as u8;
    assert(((b0 as u64) << 56u64) | ((b1 as u64) << 48u64) | ((b2 as u64) << 40u64) | ((
    b3 as u64) << 32u64) | ((b4 as u64) << 24u64) | ((b5 as u64) << 16u64) | ((b6 as u64)
        << 8u64) | (b7 as u64) == x) by (bit_vector)
        requires
            b0 == (x >> 56u64) as u8,
            b1 == (x >> 48u64) as u8,
            b2 == (x >> 40u64) as u8,
            b3 == (x >> 32u64) as u8,
            b4 == (x >> 24u64) as u8,
            b5 == (x >> 16u64) as u8,
            b6 == (x >> 8u64) as u8,
            b7 == x as u8,
    ;
}

impl GnomeId {
    pub fn bytes(&self) -> (res: [u8; 8])
        ensures
            res@ == be_bytes_u64(self.0),
    {
        let x = self.0;
        let res: [u8; 8] = [
            (x >> 56u64) as u8,
            (x >> 48u64) as u8,
            (x >> 40u64) as u8,
            (x >> 32u64) as u8,
            (x >> 24u64) as u8,
            (x >> 16u64) as u8,
            (x >> 8u64) as u8,
            x as u8,
        ];
        assert(res@ =~= be_bytes_u64(self.0));
        res
    }

    pub fn any() -> (res: Self)
        ensures
            res.0 == 0,
    {
        GnomeId(0)
    }

    pub fn from(bytes: [u8; 8]) -> (res: Self)
        ensures
            res.0 == u64_from_be(bytes@),
    {
        let x: u64 = ((bytes[0] as u64) << 56u64) | ((bytes[1] as u64) << 48u64) | ((
        bytes[2] as u64) << 40u64) | ((bytes[3] as u64) << 32u64) | ((bytes[4] as u64)
            << 24u64) | ((bytes[5] as u64) << 16u64) | ((bytes[6] as u64) << 8u64) | (
        bytes[7] as u64);
        GnomeId(x)
    }

    pub fn is_any(&self) -> (res: bool)
        ensures
            res == (self.0 == 0),
    {
        self.0 == 0
    }
}

/// The kind of address translation a gnome sits behind.
#[derive(Clone, Copy, Debug, PartialEq, Eq, Structural)]
pub enum Nat {
    Unknown,
    NotNatted,
    FullCone,
    AddressRestrictedCone,
    PortRestrictedCone,
    SymmetricWithPortControl,
    Symmetric,
}

/// The byte that stands for each kind of translation on the wire.
pub open spec fn nat_byte(n: Nat) -> u8 {
    match n {
        Nat::Unknown => 0,
        Nat::NotNatted => 1,
        Nat::FullCone => 2,
        Nat::AddressRestrictedCone => 4,
        Nat::PortRestrictedCone => 8,
        Nat::SymmetricWithPortControl => 16,
        Nat::Symmetric => 32,
    }
}

impl Nat {
    /// Reads a translation kind; a byte that names none gives `Unknown`.
    pub fn from(byte: u8) -> (res: Self)
        ensures
            (byte == 1 || byte == 2 || byte == 4 || byte == 8 || byte == 16 || byte == 32)
                ==> nat_byte(res) == byte,
            !(byte == 1 || byte == 2 || byte == 4 || byte == 8 || byte == 16 || byte == 32)
                ==> res == Nat::Unknown,
    {
        match byte {
            1 => Nat::NotNatted,
            2 => Nat::FullCone,
            4 => Nat::AddressRestrictedCone,
            8 => Nat::PortRestrictedCone,
            16 => Nat::SymmetricWithPortControl,
            32 => Nat::Symmetric,
            _o => Nat::Unknown,
        }
    }
}

/// How a translating router picks the public port of a new connection.
#[derive(Clone, Copy, Debug, PartialEq, Eq, Structural)]
pub enum PortAllocationRule {
    Random,
    FullCone,
    AddressSensitive,
    PortSensitive,
}

/// The byte that stands for each allocation rule on the wire.
pub open spec fn port_rule_byte(r: PortAllocationRule) -> u8 {
    match r {
        PortAllocationRule::Random => 0,
        PortAllocationRule::FullCone => 1,
        PortAllocationRule::AddressSensitive => 2,
        PortAllocationRule::PortSensitive => 4,
    }
}

impl PortAllocationRule {
    /// Reads an allocation rule; a byte that names none gives `Random`.
    pub fn from(byte: u8) -> (res: Self)
        ensures
            (byte == 1 || byte == 2 || byte == 4) ==> port_rule_byte(res) == byte,
            !(byte == 1 || byte == 2 || byte == 4) ==> res == PortAllocationRule::Random,
    {
        match byte {
            1 => PortAllocationRule::FullCone,
            2 => PortAllocationRule::AddressSensitive,
            4 => PortAllocationRule::PortSensitive,
            _o => PortAllocationRule::Random,
        }
    }
}

/// A public IP address, version 4 or 6.
#[derive(Clone, Copy, Debug, PartialEq, Eq)]
pub enum IpAddress {
    V4([u8; 4]),
    V6([u16; 8]),
}

/// What a gnome knows of how it is reached from the outside.
#[derive(Clone, Copy, Debug, PartialEq, Eq)]
pub struct NetworkSettings {
    pub pub_ip: IpAddress,
    pub pub_port: u16,
    pub nat_type: Nat,
    pub port_allocation: (PortAllocationRule, i8),
}

/// By how much each new connection moves the public port.
pub open spec fn port_step(s: NetworkSettings) -> int {
    match s.port_allocation.0 {
        PortAllocationRule::AddressSensitive => s.port_allocation.1 as int,
        PortAllocationRule::PortSensitive => s.port_allocation.1 as int,
        _ => 0,
    }
}

/// Whether `count` connections after `port` still give a port that fits in 16 bits.
pub open spec fn ports_fit(s: NetworkSettings, port: u16, count: int) -> bool {
    0 <= port + count * port_step(s) <= u16::MAX
}

proof fn lemma_ports_fit_between(s: NetworkSettings, port: u16, k: int, n: int)
    requires
        0 <= k <= n,
        ports_fit(s, port, n),
    ensures
        ports_fit(s, port, k),
{
    let st = port_step(s);
    if st >= 0 {
        assert(0 <= k * st <= n * st) by (nonlinear_arith)
            requires
                0 <= k <= n,
                st >= 0,
        ;
    } else {
        assert(n * st <= k * st <= 0) by (nonlinear_arith)
            requires
                0 <= k <= n,
                st < 0,
        ;
    }
}

/// The settings of a gnome reached directly at `pub_ip` and `pub_port`.
pub open spec fn not_natted(pub_ip: IpAddress, pub_port: u16) -> NetworkSettings {
    NetworkSettings {
        pub_ip,
        pub_port,
        nat_type: Nat::NotNatted,
        port_allocation: (PortAllocationRule::FullCone, 0),
    }
}

impl NetworkSettings {
    pub fn new_not_natted(pub_ip: IpAddress, pub_port: u16) -> (res: Self)
        ensures
            res == not_natted(pub_ip, pub_port),
    {
        NetworkSettings {
            pub_ip,
            pub_port,
            nat_type: Nat::NotNatted,
            port_allocation: (PortAllocationRule::FullCone, 0),
        }
    }

    pub fn update(&mut self, other: Self)
        ensures
            *final(self) == other,
    {
        self.pub_ip = other.pub_ip;
        self.pub_port = other.pub_port;
        self.nat_type = other.nat_type;
        self.port_allocation = other.port_allocation;
    }

    pub fn set_port(&mut self, port: u16)
        ensures
            *final(self) == (NetworkSettings { pub_port: port, ..*old(self) }),
    {
        self.pub_port = port;
    }

    /// The address that the `iter`-th next connection is expected to get.
    pub fn get_predicted_addr(&self, iter: u8) -> (res: (IpAddress, u16))
        requires
            ports_fit(*self, self.pub_port, iter + 1),
        ensures
            res.0 == self.pub_ip,
            res.1 == self.pub_port + (iter + 1) * port_step(*self),
    {
        proof {
            lemma_ports_fit_between(*self, self.pub_port, 1, iter + 1);
        }
        let mut port = self.port_increment(self.pub_port);
        let mut left: u8 = iter;
        while left > 0
            invariant
                left <= iter,
                ports_fit(*self, self.pub_port, iter + 1),
                port == self.pub_port + (iter + 1 - left) * port_step(*self),
            decreases left,
        {
            let ghost done: int = iter + 1 - left;
            proof {
                lemma_ports_fit_between(*self, self.pub_port, done + 1, iter + 1);
                assert(port + port_step(*self) == self.pub_port + (done + 1) * port_step(*self))
                    by (nonlinear_arith)
                    requires
                        port == self.pub_port + done * port_step(*self),
                ;
            }
            left = left - 1;
            port = self.port_increment(port);
        }
        (self.pub_ip, port)
    }

    pub fn refresh_required(&self) -> (res: bool)
        ensures
            res == (self.port_allocation.0 != PortAllocationRule::FullCone),
    {
        self.port_allocation.0 != PortAllocationRule::FullCone
    }

    pub fn nat_at_most_address_sensitive(&self) -> (res: bool)
        ensures
            res == (self.nat_type == Nat::NotNatted || self.nat_type == Nat::FullCone
                || self.nat_type == Nat::AddressRestrictedCone),
    {
        self.nat_type == Nat::NotNatted || self.nat_type == Nat::FullCone || self.nat_type
            == Nat::AddressRestrictedCone
    }

    pub fn no_nat(&self) -> (res: bool)
        ensures
            res == (self.nat_type == Nat::NotNatted),
    {
        self.nat_type == Nat::NotNatted
    }

    pub fn nat_port_restricted(&self) -> (res: bool)
        ensures
            res == (self.nat_type == Nat::PortRestrictedCone),
    {
        self.nat_type == Nat::PortRestrictedCone
    }

    pub fn nat_symmetric(&self) -> (res: bool)
        ensures
            res == (self.nat_type == Nat::Symmetric),
    {
        self.nat_type == Nat::Symmetric
    }

    pub fn nat_symmetric_with_port_control(&self) -> (res: bool)
        ensures
            res == (self.nat_type == Nat::SymmetricWithPortControl),
    {
        self.nat_type == Nat::SymmetricWithPortControl
    }

    pub fn nat_unknown(&self) -> (res: bool)
        ensures
            res == (self.nat_type == Nat::Unknown),
    {
        self.nat_type == Nat::Unknown
    }

    pub fn port_allocation_predictable(&self) -> (res: bool)
        ensures
            res == (self.port_allocation.0 != PortAllocationRule::Random),
    {
        self.port_allocation.0 == PortAllocationRule::FullCone || self.port_allocation.0
            == PortAllocationRule::AddressSensitive || self.port_allocation.0
            == PortAllocationRule::PortSensitive
    }

    pub fn port_sensitive_allocation(&self) -> (res: bool)
        ensures
            res == (self.port_allocation.0 == PortAllocationRule::PortSensitive),
    {
        self.port_allocation.0 == PortAllocationRule::PortSensitive
    }

    /// The public port the next connection gets after one on `port`.
    pub fn port_increment(&self, port: u16) -> (res: u16)
        requires
            ports_fit(*self, port, 1),
        ensures
            res == port + port_step(*self),
    {
        match self.port_allocation {
            (PortAllocationRule::AddressSensitive, value) | (
                PortAllocationRule::PortSensitive,
                value,
            ) => {
                if value > 0 {
                    port + (value as u16)
                } else {
                    let down: i16 = 0i16 - (value as i16);
                    port - (down as u16)
                }
            },
            _ => port,
        }
    }
}

impl Default for NetworkSettings {
    fn default() -> (res: Self)
        ensures
            res == (NetworkSettings {
                pub_ip: IpAddress::V4([0, 0, 0, 0]),
                pub_port: 1026,
                nat_type: Nat::Unknown,
                port_allocation: (PortAllocationRule::Random, 0),
            }),
    {
        NetworkSettings {
            pub_ip: IpAddress::V4([0, 0, 0, 0]),
            pub_port: 1026,
            nat_type: Nat::Unknown,
            port_allocation: (PortAllocationRule::Random, 0),
        }
    }
}

/// When to look for new neighbors: every `treshold` turns, and again after a
/// failed search, at most `attempts` times in a row.
pub struct NeighborDiscovery {
    pub counter: u16,
    pub treshold: u16,
    pub attempts: u8,
    pub try_next: bool,
    pub queried_neighbors: Vec<GnomeId>,
}

impl NeighborDiscovery {
    /// Counts one more turn and says whether a search is due now.
    pub fn tick_and_check(&mut self) -> (res: bool)
        requires
            old(self).counter < u16::MAX,
        ensures
            final(self).treshold == old(self).treshold,
            final(self).queried_neighbors@ == old(self).queried_neighbors@,
            old(self).counter + 1 >= old(self).treshold ==> res && final(self).counter == 0
                && final(self).attempts == 3 && !final(self).try_next,
            old(self).counter + 1 < old(self).treshold ==> final(self).counter == old(self).counter
                + 1,
            old(self).counter + 1 < old(self).treshold && old(self).try_next && old(self).attempts
                > 0 ==> res && final(self).attempts == old(self).attempts - 1
                && !final(self).try_next,
            old(self).counter + 1 < old(self).treshold && !(old(self).try_next && old(self).attempts > 0) ==> !res && final(self).attempts == old(self).attempts
                && final(self).try_next == old(self).try_next,
    {
        self.counter = self.counter + 1;
        let treshold_reached = self.counter >= self.treshold;
        if treshold_reached {
            self.counter = 0;
            self.attempts = 3;
            self.try_next = false;
            true
        } else if self.try_next && self.attempts > 0 {
            self.attempts = self.attempts - 1;
            self.try_next = false;
            true
        } else {
            false
        }
    }
}

impl Default for NeighborDiscovery {
    fn default() -> (res: Self)
        ensures
            res.counter == 1000,
            res.treshold == 1000,
            res.attempts == 3,
            res.try_next,
            res.queried_neighbors@.len() == 0,
    {
        NeighborDiscovery {
            counter: 1000,
            treshold: 1000,
            attempts: 3,
            try_next: true,
            queried_neighbors: Vec::new(),
        }
    }
}

/// Something a gnome proposes to its swarm: a block of data or a change of
/// configuration.
pub enum Proposal {
    Block(BlockID, SyncData),
    Config(Configuration),
}

/// The number of bytes a proposal takes.
pub open spec fn proposal_len(p: Proposal) -> nat {
    match p {
        Proposal::Block(_id, d) => d.view_bytes().len(),
        Proposal::Config(c) => config_len(c),
    }
}

/// The bytes of a proposal that its signature covers.
pub open spec fn proposal_signed_bytes(p: Proposal) -> Seq<u8> {
    match p {
        Proposal::Block(_id, d) => d.view_bytes(),
        Proposal::Config(c) => config_encode(c),
    }
}

/// Two proposals with the same content.
pub open spec fn proposal_same(a: Proposal, b: Proposal) -> bool {
    match (a, b) {
        (Proposal::Block(i1, d1), Proposal::Block(i2, d2)) => i1 == i2 && d1.view_bytes()
            == d2.view_bytes(),
        (Proposal::Config(c1), Proposal::Config(c2)) => config_same(c1, c2),
        _ => false,
    }
}

impl Proposal {
    /// A copy with the same content.
    pub fn duplicate(&self) -> (res: Self)
        ensures
            proposal_same(res, *self),
    {
        match self {
            Proposal::Block(id, d) => Proposal::Block(*id, d.duplicate()),
            Proposal::Config(c) => Proposal::Config(c.duplicate()),
        }
    }

    /// The proposal that a block or reconfiguration payload carries.
    pub fn new(payload: Payload) -> (res: Self)
        requires
            payload is Block || payload is Reconfigure,
        ensures
            payload matches Payload::Block(id, _s, d) ==> res == Proposal::Block(id, d),
            payload matches Payload::Reconfigure(_s, c) ==> res == Proposal::Config(c),
    {
        if payload.has_data() {
            let (id, data) = payload.id_and_data().unwrap();
            Proposal::Block(id, data)
        } else {
            let conf = payload.config().unwrap();
            Proposal::Config(conf)
        }
    }

    /// Whether the proposal leaves room for a public key next to its signature.
    pub fn can_be_extended(&self) -> (res: bool)
        requires
            proposal_len(*self) <= usize::MAX,
        ensures
            res == (proposal_len(*self) <= 900),
    {
        match self {
            Proposal::Block(_bid, data) => data.len() <= 900,
            Proposal::Config(conf) => conf.len() <= 900,
        }
    }

    /// The bytes that a gnome signs to propose this.
    pub fn signed_bytes(&self) -> (res: Vec<u8>)
        ensures
            res@ == proposal_signed_bytes(*self),
    {
        match self {
            Proposal::Block(_bid, data) => data.ref_bytes().clone(),
            Proposal::Config(conf) => conf.bytes(),
        }
    }

    /// The header and payload that announce this proposal, signed by
    /// `gnome_id` with `signature`. `block_bytes` are the bytes of a block as
    /// they stand after signing; a configuration is sent as it is. With
    /// `extend`, the signer's public key goes along.
    pub fn to_header_payload(
        self,
        gnome_id: GnomeId,
        extend: bool,
        pubkey_bytes: Vec<u8>,
        block_bytes: Vec<u8>,
        signature: Vec<u8>,
    ) -> (res: (Header, Payload))
        requires
            self is Block ==> block_bytes@.len() <= MAX_SYNC_DATA,
        ensures
            ({
                let sig = if extend {
                    Signature::Extended(gnome_id, pubkey_bytes, signature)
                } else {
                    Signature::Regular(gnome_id, signature)
                };
                match self {
                    Proposal::Block(id, _d) => res.0 == Header::Block(id) && (res.1 matches Payload::Block(
                        rid,
                        rs,
                        rd,
                    ) && rid == id && rs == sig && rd.view_bytes() == block_bytes@),
                    Proposal::Config(c) => res.0 == Header::Reconfigure(
                        config_header_byte(c),
                        GnomeId(config_gid(c)),
                    ) && res.1 == Payload::Reconfigure(sig, c),
                }
            }),
    {
        let sig = if extend {
            Signature::Extended(gnome_id, pubkey_bytes, signature)
        } else {
            Signature::Regular(gnome_id, signature)
        };
        match self {
            Proposal::Block(b_id, _data) => {
                let data = match SyncData::new(block_bytes) {
                    Ok(d) => d,
                    Err(_) => {
                        proof {
                            assert(false);
                        }
                        SyncData::empty()
                    },
                };
                (Header::Block(b_id), Payload::Block(b_id, sig, data))
            },
            Proposal::Config(config) => {
                let ct = config.as_ct();
                let gid = config.as_gid();
                (Header::Reconfigure(ct, gid), Payload::Reconfigure(sig, config))
            },
        }
    }
}


/// Index of the first neighbor in `s` with id `id`, or `-1`.
pub open spec fn neighbor_index(s: Seq<Neighbor>, id: GnomeId) -> int
    decreases s.len(),
{
    if s.len() == 0 {
        -1
    } else if s[0].id == id {
        0
    } else {
        let i = neighbor_index(s.drop_first(), id);
        if i < 0 {
            -1
        } else {
            i + 1
        }
    }
}

/// `neighbor_index` is the first position of a neighbor with that id.
pub proof fn lemma_neighbor_index(s: Seq<Neighbor>, id: GnomeId)
    ensures
        -1 <= neighbor_index(s, id) < s.len(),
        neighbor_index(s, id) >= 0 ==> s[neighbor_index(s, id)].id == id,
        forall|m: int| 0 <= m < neighbor_index(s, id) ==> s[m].id != id,
        neighbor_index(s, id) < 0 <==> forall|m: int| 0 <= m < s.len() ==> s[m].id != id,
    decreases s.len(),
{
    if s.len() > 0 {
        lemma_neighbor_index(s.drop_first(), id);
        if s[0].id != id {
            assert forall|m: int| 0 <= m < s.len() && s[m].id == id implies neighbor_index(s, id)
                >= 0 && neighbor_index(s, id) <= m by {
                assert(s.drop_first()[m - 1] == s[m]);
            }
            assert forall|m: int| 0 < m < neighbor_index(s, id) implies s[m].id != id by {
                assert(s.drop_first()[m - 1] == s[m]);
            }
            if neighbor_index(s, id) >= 0 {
                assert(s.drop_first()[neighbor_index(s, id) - 1] == s[neighbor_index(s, id)]);
            }
        }
    }
}

/// `s` without its first neighbor with id `id`, if any.
pub open spec fn without_neighbor(s: Seq<Neighbor>, id: GnomeId) -> Seq<Neighbor> {
    let i = neighbor_index(s, id);
    if i < 0 {
        s
    } else {
        s.remove(i)
    }
}

/// The best source among `list` for a cast: a neighbor in `alts` with more
/// bandwidth than `band`, the last such one winning, starting from `pick`.
pub open spec fn best_source(list: Seq<Neighbor>, alts: Seq<GnomeId>, pick: GnomeId, band: u64) -> (
    GnomeId,
    u64,
)
    decreases list.len(),
{
    if list.len() == 0 {
        (pick, band)
    } else {
        let n = list[0];
        if alts.contains(n.id) && n.available_bandwith > band {
            best_source(list.drop_first(), alts, n.id, n.available_bandwith)
        } else {
            best_source(list.drop_first(), alts, pick, band)
        }
    }
}

/// The neighbor of `list` with the most bandwidth, the last one on a tie,
/// starting from `pick` with `band`.
pub open spec fn widest(list: Seq<Neighbor>, pick: GnomeId, band: u64) -> (GnomeId, u64)
    decreases list.len(),
{
    if list.len() == 0 {
        (pick, band)
    } else {
        let n = list[0];
        if n.available_bandwith >= band {
            widest(list.drop_first(), n.id, n.available_bandwith)
        } else {
            widest(list.drop_first(), pick, band)
        }
    }
}

/// What `widest` picks has the most bandwidth: it has at least `band` and at
/// least every neighbor's, and it is either the starting pick, where every
/// neighbor has less than `band`, or a neighbor of the list that no later
/// neighbor matches.
pub proof fn lemma_widest_has_most_bandwidth(list: Seq<Neighbor>, pick: GnomeId, band: u64)
    ensures
        widest(list, pick, band).1 >= band,
        forall|j: int| 0 <= j < list.len() ==> widest(list, pick, band).1 >= #[trigger] list[j].available_bandwith,
        (widest(list, pick, band) == (pick, band) && forall|j: int| 0 <= j < list.len()
            ==> #[trigger] list[j].available_bandwith < band) || exists|i: int|
            0 <= i < list.len() && widest(list, pick, band) == (list[i].id, list[i].available_bandwith)
                && forall|j: int| i < j < list.len() ==> #[trigger] list[j].available_bandwith
                < list[i].available_bandwith,
    decreases list.len(),
{
    if list.len() > 0 {
        let n = list[0];
        let rest = list.drop_first();
        let r = widest(list, pick, band);
        if n.available_bandwith >= band {
            lemma_widest_has_most_bandwidth(rest, n.id, n.available_bandwith);
            assert forall|j: int| 0 <= j < list.len() implies r.1 >= #[trigger] list[j].available_bandwith by {
                if j > 0 {
                    assert(list[j] == rest[j - 1]);
                }
            }
            if r == (n.id, n.available_bandwith) && forall|j: int| 0 <= j < rest.len()
                ==> #[trigger] rest[j].available_bandwith < n.available_bandwith {
                assert forall|j: int| 0 < j < list.len() implies #[trigger] list[j].available_bandwith
                    < list[0].available_bandwith by {
                    assert(list[j] == rest[j - 1]);
                }
            } else {
                let i = choose|i: int|
                    0 <= i < rest.len() && r == (rest[i].id, rest[i].available_bandwith) && forall|j: int|
                        i < j < rest.len() ==> #[trigger] rest[j].available_bandwith < rest[i].available_bandwith;
                assert(list[i + 1] == rest[i]);
                assert forall|j: int| i + 1 < j < list.len() implies #[trigger] list[j].available_bandwith
                    < list[i + 1].available_bandwith by {
                    assert(list[j] == rest[j - 1]);
                }
            }
        } else {
            lemma_widest_has_most_bandwidth(rest, pick, band);
            assert forall|j: int| 0 <= j < list.len() implies r.1 >= #[trigger] list[j].available_bandwith by {
                if j > 0 {
                    assert(list[j] == rest[j - 1]);
                }
            }
            if r == (pick, band) && forall|j: int| 0 <= j < rest.len() ==> #[trigger] rest[j].available_bandwith < band {
                assert forall|j: int| 0 <= j < list.len() implies #[trigger] list[j].available_bandwith < band by {
                    if j > 0 {
                        assert(list[j] == rest[j - 1]);
                    }
                }
            } else {
                let i = choose|i: int|
                    0 <= i < rest.len() && r == (rest[i].id, rest[i].available_bandwith) && forall|j: int|
                        i < j < rest.len() ==> #[trigger] rest[j].available_bandwith < rest[i].available_bandwith;
                assert(list[i + 1] == rest[i]);
                assert forall|j: int| i + 1 < j < list.len() implies #[trigger] list[j].available_bandwith
                    < list[i + 1].available_bandwith by {
                    assert(list[j] == rest[j - 1]);
                }
            }
        }
    }
}

/// With at least one fast neighbor, the one chosen for its bandwidth is a
/// fast neighbor with the most bandwidth, the last such one.
pub proof fn lemma_highest_bandwidth_is_a_widest_neighbor(list: Seq<Neighbor>)
    requires
        list.len() > 0,
    ensures
        exists|i: int|
            0 <= i < list.len() && widest(list, GnomeId(0), 0).0 == #[trigger] list[i].id && (forall|j: int|
                0 <= j < list.len() ==> list[i].available_bandwith >= #[trigger] list[j].available_bandwith)
                && (forall|j: int| i < j < list.len() ==> #[trigger] list[j].available_bandwith
                < list[i].available_bandwith),
{
    lemma_widest_has_most_bandwidth(list, GnomeId(0), 0);
    assert(!(list[0].available_bandwith < 0u64));
    let i = choose|i: int|
        0 <= i < list.len() && widest(list, GnomeId(0), 0) == (list[i].id, list[i].available_bandwith)
            && forall|j: int| i < j < list.len() ==> #[trigger] list[j].available_bandwith
            < list[i].available_bandwith;
    assert(widest(list, GnomeId(0), 0).0 == list[i].id);
}

/// Index of the first neighbor in `list` whose id is not in `queried`, or `-1`.
pub open spec fn first_unqueried(list: Seq<Neighbor>, queried: Seq<GnomeId>) -> int
    decreases list.len(),
{
    if list.len() == 0 {
        -1
    } else if !queried.contains(list[0].id) {
        0
    } else {
        let i = first_unqueried(list.drop_first(), queried);
        if i < 0 {
            -1
        } else {
            i + 1
        }
    }
}

/// A gnome: its place in one swarm, its neighbors as it sees them, and what it
/// proposes and agrees on turn after turn.
pub struct Gnome {
    pub id: GnomeId,
    pub pub_key_bytes: Vec<u8>,
    pub neighborhood: Neighborhood,
    pub swarm: Swarm,
    pub swarm_time: SwarmTime,
    pub round_start: SwarmTime,
    pub swarm_diameter: SwarmTime,
    pub fast_neighbors: Vec<Neighbor>,
    pub slow_neighbors: Vec<Neighbor>,
    pub new_neighbors: Vec<Neighbor>,
    pub refreshed_neighbors: Vec<Neighbor>,
    pub header: Header,
    pub payload: Payload,
    pub my_proposal: Option<Proposal>,
    pub proposals: VecDeque<Proposal>,
    pub next_state: NextState,
    pub send_immediate: bool,
    pub ipv6_network_settings: NetworkSettings,
    pub network_settings: NetworkSettings,
    pub neighbor_discovery: NeighborDiscovery,
    pub chill_out: bool,
    pub ongoing_requests: Vec<(u8, OngoingRequest)>,
    pub pending_conn_requests: VecDeque<ConnRequest>,
}

/// A neighbor's wish to connect to a gnome that this gnome will hear of.
#[derive(Clone, Copy, Debug, PartialEq, Eq, Structural)]
pub struct ConnRequest {
    pub conn_id: u8,
    pub neighbor_id: GnomeId,
}

/// A neighbor's request for a new neighbor, which this gnome forwards to its
/// other neighbors one at a time: who asked, who was asked, since when, and
/// the answer once there is one.
pub struct OngoingRequest {
    pub origin: GnomeId,
    pub queried_neighbors: Vec<GnomeId>,
    pub timestamp: SwarmTime,
    pub response: Option<NetworkSettings>,
    pub network_settings: NetworkSettings,
}

/// A message that brokering connections between neighbors asks the gnome
/// to send.
#[derive(Clone, Copy, Debug, PartialEq, Eq)]
pub enum OngoingAction {
    /// Ask `neighbor` to connect to `origin`, under request `conn_id`.
    Query { neighbor: GnomeId, conn_id: u8, origin: GnomeId, settings: NetworkSettings },
    /// Tell `origin` how to reach the gnome that answered.
    Respond { origin: GnomeId, settings: NetworkSettings },
    /// Tell `origin` that no neighbor could be found.
    Fail { origin: GnomeId },
}

fn index_of_neighbor(list: &Vec<Neighbor>, id: GnomeId) -> (res: Option<usize>)
    ensures
        res matches Some(i) ==> i == neighbor_index(list@, id) && i < list@.len(),
        res is None ==> neighbor_index(list@, id) < 0,
{
    proof {
        lemma_neighbor_index(list@, id);
    }
    let mut i: usize = 0;
    while i < list.len()
        invariant
            i <= list@.len(),
            forall|k: int| 0 <= k < i ==> list@[k].id != id,
            -1 <= neighbor_index(list@, id) < list@.len(),
            neighbor_index(list@, id) >= 0 ==> list@[neighbor_index(list@, id)].id == id,
            forall|m: int| 0 <= m < neighbor_index(list@, id) ==> list@[m].id != id,
            neighbor_index(list@, id) < 0 <==> forall|m: int| 0 <= m < list@.len() ==> list@[m].id != id,
        decreases list@.len() - i,
    {
        if list[i].id == id {
            return Some(i);
        }
        i = i + 1;
    }
    None
}

fn remove_neighbor(list: &mut Vec<Neighbor>, id: GnomeId)
    ensures
        final(list)@ == without_neighbor(old(list)@, id),
{
    if let Some(index) = index_of_neighbor(list, id) {
        list.remove(index);
    }
}

impl Gnome {
    pub fn new(id: GnomeId, pub_key_bytes: Vec<u8>, swarm: Swarm, network_settings: NetworkSettings) -> (res: Self)
        ensures
            res.id == id,
            res.pub_key_bytes == pub_key_bytes,
            res.neighborhood == Neighborhood(0),
            res.swarm == swarm,
            res.swarm_time == SwarmTime(0),
            res.round_start == SwarmTime(0),
            res.swarm_diameter == SwarmTime(DEFAULT_SWARM_DIAMETER),
            res.fast_neighbors@.len() == 0,
            res.slow_neighbors@.len() == 0,
            res.new_neighbors@.len() == 0,
            res.refreshed_neighbors@.len() == 0,
            res.header == Header::Sync,
            res.payload == Payload::KeepAlive(10240),
            res.my_proposal is None,
            res.proposals@.len() == 0,
            res.next_state.neighborhood == Neighborhood(0),
            res.next_state.header == Header::Sync,
            !res.send_immediate,
            network_settings.pub_ip is V4 ==> res.network_settings == network_settings
                && res.ipv6_network_settings == not_natted(
                IpAddress::V6([0, 0, 0, 0, 0, 0, 0, 0]),
                0,
            ),
            !(network_settings.pub_ip is V4) ==> res.ipv6_network_settings == network_settings
                && res.network_settings == not_natted(
                IpAddress::V4([0, 0, 0, 0]),
                0,
            ),
            res.neighbor_discovery.counter == 1000 && res.neighbor_discovery.treshold == 1000
                && res.neighbor_discovery.attempts == 3 && res.neighbor_discovery.try_next
                && res.neighbor_discovery.queried_neighbors@.len() == 0,
            !res.chill_out,
            res.ongoing_requests@.len() == 0,
            res.pending_conn_requests@.len() == 0,
    {
        let (ipv6_network_settings, network_settings) = if matches!(
            network_settings.pub_ip,
            IpAddress::V4(_)
        ) {
            (NetworkSettings::new_not_natted(IpAddress::V6([0, 0, 0, 0, 0, 0, 0, 0]), 0), network_settings)
        } else {
            (network_settings, NetworkSettings::new_not_natted(IpAddress::V4([0, 0, 0, 0]), 0))
        };
        Gnome {
            id,
            pub_key_bytes,
            neighborhood: Neighborhood(0),
            swarm,
            swarm_time: SwarmTime(0),
            round_start: SwarmTime(0),
            swarm_diameter: SwarmTime(DEFAULT_SWARM_DIAMETER),
            fast_neighbors: Vec::new(),
            slow_neighbors: Vec::new(),
            new_neighbors: Vec::new(),
            refreshed_neighbors: Vec::new(),
            header: Header::Sync,
            payload: Payload::KeepAlive(10240),
            my_proposal: None,
            proposals: VecDeque::new(),
            next_state: NextState::new(),
            send_immediate: false,
            ipv6_network_settings,
            network_settings,
            neighbor_discovery: NeighborDiscovery::default(),
            chill_out: false,
            ongoing_requests: Vec::new(),
            pending_conn_requests: VecDeque::new(),
        }
    }

    pub fn new_with_neighbors(
        id: GnomeId,
        pub_key_bytes: Vec<u8>,
        swarm: Swarm,
        neighbors: Vec<Neighbor>,
        network_settings: NetworkSettings,
    ) -> (res: Self)
        ensures
            res.id == id,
            res.swarm == swarm,
            res.fast_neighbors == neighbors,
            res.slow_neighbors@.len() == 0,
            res.new_neighbors@.len() == 0,
            res.refreshed_neighbors@.len() == 0,
            res.header == Header::Sync,
            res.proposals@.len() == 0,
    {
        let mut gnome = Gnome::new(id, pub_key_bytes, swarm, network_settings);
        gnome.fast_neighbors = neighbors;
        gnome
    }

    /// Whether a neighbor with `id` is among the slow, fast or refreshed ones.
    pub fn has_neighbor(&self, id: GnomeId) -> (res: bool)
        ensures
            res == (neighbor_index(self.slow_neighbors@, id) >= 0 || neighbor_index(
                self.fast_neighbors@,
                id,
            ) >= 0 || neighbor_index(self.refreshed_neighbors@, id) >= 0),
    {
        index_of_neighbor(&self.slow_neighbors, id).is_some() || index_of_neighbor(
            &self.fast_neighbors,
            id,
        ).is_some() || index_of_neighbor(&self.refreshed_neighbors, id).is_some()
    }

    /// Forgets the neighbor with id `neighbor_id`, in every list.
    pub fn drop_neighbor(&mut self, neighbor_id: GnomeId)
        ensures
            final(self).fast_neighbors@ == without_neighbor(old(self).fast_neighbors@, neighbor_id),
            final(self).slow_neighbors@ == without_neighbor(old(self).slow_neighbors@, neighbor_id),
            final(self).refreshed_neighbors@ == without_neighbor(
                old(self).refreshed_neighbors@,
                neighbor_id,
            ),
            final(self).new_neighbors@ == without_neighbor(old(self).new_neighbors@, neighbor_id),
            *final(self) == (Gnome {
                fast_neighbors: final(self).fast_neighbors,
                slow_neighbors: final(self).slow_neighbors,
                refreshed_neighbors: final(self).refreshed_neighbors,
                new_neighbors: final(self).new_neighbors,
                ..*old(self)
            }),
    {
        remove_neighbor(&mut self.fast_neighbors, neighbor_id);
        remove_neighbor(&mut self.slow_neighbors, neighbor_id);
        remove_neighbor(&mut self.refreshed_neighbors, neighbor_id);
        remove_neighbor(&mut self.new_neighbors, neighbor_id);
    }

    /// Takes in a neighbor, in place of one with the same id. It takes part
    /// at once while the gnome chills or has no one else to hear from;
    /// otherwise it waits for the next round.
    pub fn add_neighbor(&mut self, neighbor: Neighbor)
        ensures
            ({
                let known = neighbor_index(old(self).slow_neighbors@, neighbor.id) >= 0
                    || neighbor_index(old(self).fast_neighbors@, neighbor.id) >= 0
                    || neighbor_index(old(self).refreshed_neighbors@, neighbor.id) >= 0;
                let fast = if known {
                    without_neighbor(old(self).fast_neighbors@, neighbor.id)
                } else {
                    old(self).fast_neighbors@
                };
                let slow = if known {
                    without_neighbor(old(self).slow_neighbors@, neighbor.id)
                } else {
                    old(self).slow_neighbors@
                };
                let fresh = if known {
                    without_neighbor(old(self).new_neighbors@, neighbor.id)
                } else {
                    old(self).new_neighbors@
                };
                &&& final(self).slow_neighbors@ == slow
                &&& final(self).refreshed_neighbors@ == if known {
                    without_neighbor(old(self).refreshed_neighbors@, neighbor.id)
                } else {
                    old(self).refreshed_neighbors@
                }
                &&& if old(self).chill_out || (fast.len() == 0 && slow.len() == 0) {
                    final(self).fast_neighbors@ == fast.push(neighbor)
                        && final(self).new_neighbors@ == fresh
                } else {
                    final(self).fast_neighbors@ == fast && final(self).new_neighbors@
                        == fresh.push(neighbor)
                }
            }),
            *final(self) == (Gnome {
                fast_neighbors: final(self).fast_neighbors,
                slow_neighbors: final(self).slow_neighbors,
                refreshed_neighbors: final(self).refreshed_neighbors,
                new_neighbors: final(self).new_neighbors,
                ..*old(self)
            }),
    {
        if self.has_neighbor(neighbor.id) {
            self.drop_neighbor(neighbor.id);
        }
        if self.chill_out || (self.fast_neighbors.len() == 0 && self.slow_neighbors.len() == 0) {
            self.fast_neighbors.push(neighbor);
        } else {
            self.new_neighbors.push(neighbor);
        }
    }

    /// The message that the gnome announces now.
    pub fn prepare_message(&self) -> (res: Message)
        ensures
            res.swarm_time == self.swarm_time,
            res.neighborhood == self.neighborhood,
            res.header == self.header,
            payload_same(res.payload, self.payload),
    {
        Message {
            swarm_time: self.swarm_time,
            neighborhood: self.neighborhood,
            header: self.header,
            payload: self.payload.duplicate(),
        }
    }

    /// Prepares the announcement to every fast and slow neighbor. Returns the
    /// full message, for a neighbor that still has another header, and the
    /// same with a keep-alive payload telling `available_bandwith`, for a
    /// neighbor that already has it. Each of those neighbors notes what it
    /// is told.
    pub fn send_all(&mut self, available_bandwith: u64) -> (res: (Message, Message))
        ensures
            res.0.swarm_time == old(self).swarm_time,
            res.0.neighborhood == old(self).neighborhood,
            res.0.header == old(self).header,
            payload_same(res.0.payload, old(self).payload),
            res.1 == (Message { payload: Payload::KeepAlive(available_bandwith), ..res.0 }),
            final(self).fast_neighbors@.len() == old(self).fast_neighbors@.len(),
            final(self).slow_neighbors@.len() == old(self).slow_neighbors@.len(),
            forall|i: int| 0 <= i < old(self).fast_neighbors@.len() ==> #[trigger] final(self).fast_neighbors@[i]
                == (Neighbor {
                gnome_header: old(self).header,
                gnome_neighborhood: old(self).neighborhood,
                ..old(self).fast_neighbors@[i]
            }),
            forall|i: int| 0 <= i < old(self).slow_neighbors@.len() ==> #[trigger] final(self).slow_neighbors@[i]
                == (Neighbor {
                gnome_header: old(self).header,
                gnome_neighborhood: old(self).neighborhood,
                ..old(self).slow_neighbors@[i]
            }),
            *final(self) == (Gnome {
                fast_neighbors: final(self).fast_neighbors,
                slow_neighbors: final(self).slow_neighbors,
                ..*old(self)
            }),
    {
        let message = self.prepare_message();
        let keep_alive = Message {
            swarm_time: message.swarm_time,
            neighborhood: message.neighborhood,
            header: message.header,
            payload: Payload::KeepAlive(available_bandwith),
        };
        note_sent_to_all(&mut self.fast_neighbors, &keep_alive);
        note_sent_to_all(&mut self.slow_neighbors, &keep_alive);
        (message, keep_alive)
    }

    /// At the end of a turn: slow neighbors count one more timeout, fast ones
    /// become slow, and the neighbors heard from this turn become the fast ones.
    pub fn swap_neighbors(&mut self)
        requires
            forall|i: int| 0 <= i < old(self).slow_neighbors@.len() ==> (#[trigger] old(self).slow_neighbors@[i]).timeouts[0] < 255,
        ensures
            neighbors_swapped(*old(self), *final(self)),
            *final(self) == (Gnome {
                fast_neighbors: final(self).fast_neighbors,
                slow_neighbors: final(self).slow_neighbors,
                refreshed_neighbors: final(self).refreshed_neighbors,
                ..*old(self)
            }),
    {
        let mut counted: Vec<Neighbor> = Vec::new();
        std::mem::swap(&mut counted, &mut self.slow_neighbors);
        let ghost old_slow = counted@;
        let mut i: usize = 0;
        while i < counted.len()
            invariant
                i <= counted@.len(),
                counted@.len() == old_slow.len(),
                forall|k: int| 0 <= k < i ==> #[trigger] counted@[k] == (Neighbor {
                    timeouts: counted@[k].timeouts,
                    ..old_slow[k]
                }) && counted@[k].timeouts@ == old_slow[k].timeouts@.update(0, (old_slow[k].timeouts[0] + 1) as u8),
                forall|k: int| i <= k < counted@.len() ==> #[trigger] counted@[k] == old_slow[k],
                forall|k: int| 0 <= k < old_slow.len() ==> (#[trigger] old_slow[k]).timeouts[0] < 255,
            decreases counted@.len() - i,
        {
            counted[i].add_timeout();
            i = i + 1;
        }
        let mut fast: Vec<Neighbor> = Vec::new();
        std::mem::swap(&mut fast, &mut self.fast_neighbors);
        counted.append(&mut fast);
        self.slow_neighbors = counted;
        let mut refreshed: Vec<Neighbor> = Vec::new();
        std::mem::swap(&mut refreshed, &mut self.refreshed_neighbors);
        self.fast_neighbors = refreshed;
    }

    /// Among the refreshed and then the fast neighbors, the one in
    /// `alt_sources` with the most bandwidth; the first alternative where none
    /// of them has any.
    pub fn select_best_alternative(&self, alt_sources: Vec<GnomeId>) -> (res: Option<GnomeId>)
        ensures
            alt_sources@.len() == 0 ==> res is None,
            alt_sources@.len() > 0 ==> res == Some(
                best_source(
                    self.fast_neighbors@,
                    alt_sources@,
                    best_source(self.refreshed_neighbors@, alt_sources@, alt_sources@[0], 0).0,
                    best_source(self.refreshed_neighbors@, alt_sources@, alt_sources@[0], 0).1,
                ).0,
            ),
    {
        if alt_sources.len() == 0 {
            return None;
        }
        let (p, b) = best_among(&self.refreshed_neighbors, &alt_sources, alt_sources[0], 0);
        let (p2, _b2) = best_among(&self.fast_neighbors, &alt_sources, p, b);
        Some(p2)
    }

    /// The fast neighbor with the most bandwidth, the last one on a tie; the
    /// "any" id where there is none.
    pub fn neighbor_with_highest_bandwith(&self) -> (res: GnomeId)
        ensures
            res == widest(self.fast_neighbors@, GnomeId(0), 0).0,
    {
        let mut gnome_id = GnomeId::any();
        let mut curr_max_band: u64 = 0;
        let mut i: usize = 0;
        assert(self.fast_neighbors@.skip(0) =~= self.fast_neighbors@);
        while i < self.fast_neighbors.len()
            invariant
                i <= self.fast_neighbors@.len(),
                widest(self.fast_neighbors@, GnomeId(0), 0) == widest(
                    self.fast_neighbors@.skip(i as int),
                    gnome_id,
                    curr_max_band,
                ),
            decreases self.fast_neighbors@.len() - i,
        {
            proof {
                assert(self.fast_neighbors@.skip(i as int).drop_first() =~= self.fast_neighbors@.skip(i as int + 1));
            }
            if self.fast_neighbors[i].available_bandwith >= curr_max_band {
                gnome_id = self.fast_neighbors[i].id;
                curr_max_band = self.fast_neighbors[i].available_bandwith;
            }
            i = i + 1;
        }
        gnome_id
    }

    /// The first fast neighbor with at least `min_bandwith`.
    pub fn neighbor_with_enough_bandwith(&self, min_bandwith: u64) -> (res: Option<GnomeId>)
        ensures
            res matches Some(g) ==> exists|i: int| 0 <= i < self.fast_neighbors@.len() && self.fast_neighbors@[i].id == g
                && self.fast_neighbors@[i].available_bandwith >= min_bandwith
                && forall|j: int| 0 <= j < i ==> (#[trigger] self.fast_neighbors@[j]).available_bandwith < min_bandwith,
            res is None ==> forall|j: int| 0 <= j < self.fast_neighbors@.len() ==> (#[trigger] self.fast_neighbors@[j]).available_bandwith < min_bandwith,
    {
        let mut i: usize = 0;
        while i < self.fast_neighbors.len()
            invariant
                i <= self.fast_neighbors@.len(),
                forall|j: int| 0 <= j < i ==> (#[trigger] self.fast_neighbors@[j]).available_bandwith < min_bandwith,
            decreases self.fast_neighbors@.len() - i,
        {
            if self.fast_neighbors[i].available_bandwith >= min_bandwith {
                return Some(self.fast_neighbors[i].id);
            }
            i = i + 1;
        }
        None
    }

    /// The refreshed neighbors join the fast ones.
    pub fn concat_neighbors(&mut self)
        ensures
            neighbors_concatenated(*old(self), *final(self)),
            *final(self) == (Gnome {
                fast_neighbors: final(self).fast_neighbors,
                refreshed_neighbors: final(self).refreshed_neighbors,
                ..*old(self)
            }),
    {
        self.fast_neighbors.append(&mut self.refreshed_neighbors);
    }

    /// At the end of a turn, once its state is updated and any proposal of
    /// the gnome announced: the neighbor lists are swapped, unless a new
    /// proposal came or the gnome sends at once, when the neighbors heard
    /// join the fast ones.
    pub fn arrange_neighbors(&mut self, new_proposal: bool)
        requires
            !new_proposal && !old(self).send_immediate ==> forall|i: int| 0 <= i < old(self).slow_neighbors@.len()
                ==> (#[trigger] old(self).slow_neighbors@[i]).timeouts[0] < 255,
        ensures
            !new_proposal && !old(self).send_immediate ==> neighbors_swapped(*old(self), *final(self)),
            new_proposal || old(self).send_immediate ==> neighbors_concatenated(*old(self), *final(self)),
            *final(self) == (Gnome {
                fast_neighbors: final(self).fast_neighbors,
                slow_neighbors: final(self).slow_neighbors,
                refreshed_neighbors: final(self).refreshed_neighbors,
                ..*old(self)
            }),
    {
        if !new_proposal && !self.send_immediate {
            self.swap_neighbors();
        } else {
            self.concat_neighbors();
        }
    }

    /// Picks the neighbor to ask for new neighbors: the first fast, else the
    /// first slow one not asked yet, and notes it as asked. Where every
    /// neighbor was asked, starts over and asks no one now.
    pub fn query_for_new_neighbors(&mut self) -> (res: Option<GnomeId>)
        ensures
            ({
                let q = old(self).neighbor_discovery.queried_neighbors@;
                let fi = first_unqueried(old(self).fast_neighbors@, q);
                let si = first_unqueried(old(self).slow_neighbors@, q);
                &&& fi >= 0 ==> res == Some(old(self).fast_neighbors@[fi].id)
                    && final(self).neighbor_discovery.queried_neighbors@ == q.push(old(self).fast_neighbors@[fi].id)
                &&& fi < 0 && si >= 0 ==> res == Some(old(self).slow_neighbors@[si].id)
                    && final(self).neighbor_discovery.queried_neighbors@ == q.push(old(self).slow_neighbors@[si].id)
                &&& fi < 0 && si < 0 ==> res is None
                    && final(self).neighbor_discovery.queried_neighbors@.len() == 0
            }),
            final(self).neighbor_discovery.counter == old(self).neighbor_discovery.counter,
            final(self).neighbor_discovery.treshold == old(self).neighbor_discovery.treshold,
            final(self).neighbor_discovery.attempts == old(self).neighbor_discovery.attempts,
            final(self).neighbor_discovery.try_next == old(self).neighbor_discovery.try_next,
            *final(self) == (Gnome { neighbor_discovery: final(self).neighbor_discovery, ..*old(self) }),
    {
        let target = match first_not_queried(&self.fast_neighbors, &self.neighbor_discovery.queried_neighbors) {
            Some(i) => Some(self.fast_neighbors[i].id),
            None => match first_not_queried(&self.slow_neighbors, &self.neighbor_discovery.queried_neighbors) {
                Some(i) => Some(self.slow_neighbors[i].id),
                None => None,
            },
        };
        match target {
            Some(id) => {
                self.neighbor_discovery.queried_neighbors.push(id);
            },
            None => {
                self.neighbor_discovery.queried_neighbors = Vec::new();
            },
        }
        target
    }
}

fn note_sent_to_all(list: &mut Vec<Neighbor>, message: &Message)
    ensures
        final(list)@.len() == old(list)@.len(),
        forall|i: int| 0 <= i < old(list)@.len() ==> #[trigger] final(list)@[i] == (Neighbor {
            gnome_header: message.header,
            gnome_neighborhood: message.neighborhood,
            ..old(list)@[i]
        }),
{
    let ghost orig = list@;
    let mut i: usize = 0;
    while i < list.len()
        invariant
            i <= list@.len(),
            list@.len() == orig.len(),
            forall|k: int| 0 <= k < i ==> #[trigger] list@[k] == (Neighbor {
                gnome_header: message.header,
                gnome_neighborhood: message.neighborhood,
                ..orig[k]
            }),
            forall|k: int| i <= k < list@.len() ==> #[trigger] list@[k] == orig[k],
        decreases list@.len() - i,
    {
        list[i].send_out(message);
        i = i + 1;
    }
}

fn best_among(list: &Vec<Neighbor>, alts: &Vec<GnomeId>, pick: GnomeId, band: u64) -> (res: (GnomeId, u64))
    ensures
        res == best_source(list@, alts@, pick, band),
{
    let mut curr_pick = pick;
    let mut curr_bandwith = band;
    let mut i: usize = 0;
    assert(list@.skip(0) =~= list@);
    while i < list.len()
        invariant
            i <= list@.len(),
            best_source(list@, alts@, pick, band) == best_source(list@.skip(i as int), alts@, curr_pick, curr_bandwith),
        decreases list@.len() - i,
    {
        proof {
            assert(list@.skip(i as int).drop_first() =~= list@.skip(i as int + 1));
        }
        let n_id = list[i].id;
        if contains_id(alts, n_id) {
            let n_bandwith = list[i].available_bandwith;
            if n_bandwith > curr_bandwith {
                curr_pick = n_id;
                curr_bandwith = n_bandwith;
            }
        }
        i = i + 1;
    }
    proof {
        assert(list@.skip(i as int) =~= Seq::<Neighbor>::empty());
    }
    (curr_pick, curr_bandwith)
}

fn contains_id(ids: &Vec<GnomeId>, id: GnomeId) -> (res: bool)
    ensures
        res == ids@.contains(id),
{
    let mut i: usize = 0;
    while i < ids.len()
        invariant
            i <= ids@.len(),
            forall|k: int| 0 <= k < i ==> ids@[k] != id,
        decreases ids@.len() - i,
    {
        if ids[i] == id {
            return true;
        }
        i = i + 1;
    }
    false
}

fn first_not_queried(list: &Vec<Neighbor>, queried: &Vec<GnomeId>) -> (res: Option<usize>)
    ensures
        res matches Some(i) ==> i == first_unqueried(list@, queried@) && i < list@.len(),
        res is None ==> first_unqueried(list@, queried@) < 0,
{
    let mut i: usize = 0;
    assert(list@.skip(0) =~= list@);
    while i < list.len()
        invariant
            i <= list@.len(),
            first_unqueried(list@, queried@) == if first_unqueried(list@.skip(i as int), queried@) < 0 {
                -1
            } else {
                first_unqueried(list@.skip(i as int), queried@) + i
            },
        decreases list@.len() - i,
    {
        proof {
            assert(list@.skip(i as int).drop_first() =~= list@.skip(i as int + 1));
            assert(list@.skip(i as int)[0] == list@[i as int]);
        }
        if !contains_id(queried, list[i].id) {
            return Some(i);
        }
        i = i + 1;
    }
    proof {
        assert(list@.skip(i as int) =~= Seq::<Neighbor>::empty());
    }
    None
}


/// The neighbor lists of `f` are those of `o` at the end of a turn in which
/// the lists are swapped: the neighbors heard become the fast ones, the fast
/// ones become slow, and each slow one counts one more timeout.
pub open spec fn neighbors_swapped(o: Gnome, f: Gnome) -> bool {
    &&& f.fast_neighbors@ == o.refreshed_neighbors@
    &&& f.refreshed_neighbors@.len() == 0
    &&& f.slow_neighbors@.len() == o.slow_neighbors@.len() + o.fast_neighbors@.len()
    &&& forall|i: int| 0 <= i < o.slow_neighbors@.len() ==> #[trigger] f.slow_neighbors@[i] == (Neighbor {
        timeouts: f.slow_neighbors@[i].timeouts,
        ..o.slow_neighbors@[i]
    }) && f.slow_neighbors@[i].timeouts@ == o.slow_neighbors@[i].timeouts@.update(
        0,
        (o.slow_neighbors@[i].timeouts[0] + 1) as u8,
    )
    &&& forall|i: int| 0 <= i < o.fast_neighbors@.len() ==> f.slow_neighbors@[o.slow_neighbors@.len() + i]
        == #[trigger] o.fast_neighbors@[i]
}

/// The neighbor lists of `f` are those of `o` with the neighbors heard joined
/// to the fast ones.
pub open spec fn neighbors_concatenated(o: Gnome, f: Gnome) -> bool {
    &&& f.fast_neighbors@ == o.fast_neighbors@ + o.refreshed_neighbors@
    &&& f.refreshed_neighbors@.len() == 0
    &&& f.slow_neighbors == o.slow_neighbors
}

/// What the end of a round leaves for the gnome to act on outside the
/// library: the block agreed on, for the application; the configuration
/// change agreed on; the gnome's own proposal of the round, to compare with
/// what was agreed; and whether a proposal had been under way.
pub struct RoundConclusion {
    pub accepted_block: Option<(BlockID, SyncData)>,
    pub change: ChangeConfig,
    pub my_proposal: Option<Proposal>,
    pub proposal_round: bool,
}

/// The configuration change that the gnome's own reconfiguration `p` starts.
pub open spec fn own_change(old_change: ChangeConfig, new_change: ChangeConfig, p: Payload) -> bool {
    match p {
        Payload::Reconfigure(_s, Configuration::StartBroadcast(g, c)) => new_change
            == ChangeConfig::AddBroadcast {
            id: c,
            origin: g,
            source: g,
            filtered_neighbors: new_change->filtered_neighbors,
            turn_ended: false,
        } && new_change->filtered_neighbors@.len() == 0,
        Payload::Reconfigure(_s, Configuration::InsertPubkey(id, key)) => (new_change matches ChangeConfig::InsertPubkey {
            id: nid,
            key: nkey,
            turn_ended,
        } && nid == id && nkey@ == key@ && !turn_ended),
        Payload::Reconfigure(_s, Configuration::EndBroadcast(c)) => new_change
            == ChangeConfig::RemoveBroadcast { id: c, turn_ended: false },
        _ => new_change == old_change,
    }
}

/// `s` is the signature of gnome `id` with bytes `sig`, carrying its public
/// key `key` where `extend` asks for it.
pub open spec fn signed_by(s: Signature, extend: bool, id: GnomeId, key: Seq<u8>, sig: Seq<u8>) -> bool {
    if extend {
        s matches Signature::Extended(g, k, b) && g == id && k@ == key && b@ == sig
    } else {
        s matches Signature::Regular(g, b) && g == id && b@ == sig
    }
}

/// Each slow neighbor's timeouts still count within a byte once shifted.
pub open spec fn shifted_timeouts_fit(s: Seq<Neighbor>) -> bool {
    forall|i: int| 0 <= i < s.len() ==> timeouts_sum(
        seq![0u8] + (#[trigger] s[i]).timeouts@.take(7),
        8,
    ) <= u8::MAX
}

impl Gnome {
    /// Takes the newest waiting proposal, with whether its signature must
    /// carry the gnome's public key, which the swarm does not know yet. A
    /// proposal too long to carry the key waits, and a proposal that tells
    /// the swarm the key goes first.
    pub fn take_next_proposal(&mut self) -> (res: Option<(Proposal, bool)>)
        requires
            old(self).proposals@.len() > 0 ==> proposal_len(old(self).proposals@.last()) <= usize::MAX,
        ensures
            old(self).proposals@.len() == 0 ==> res is None && final(self).proposals@ == old(self).proposals@,
            old(self).proposals@.len() > 0 ==> {
                let p = old(self).proposals@.last();
                let extend = first_slot(old(self).swarm.key_reg@, old(self).id.0) < 0;
                if extend && proposal_len(p) > 900 {
                    &&& final(self).proposals@ == old(self).proposals@
                    &&& res matches Some((Proposal::Config(Configuration::InsertPubkey(g, k)), e)) && g
                        == old(self).id && k@ == old(self).pub_key_bytes@ && e
                } else {
                    &&& final(self).proposals@ == old(self).proposals@.drop_last()
                    &&& res == Some((p, extend))
                }
            },
            *final(self) == (Gnome { proposals: final(self).proposals, ..*old(self) }),
    {
        match self.proposals.pop_back() {
            Some(proposal) => {
                let extend = !self.swarm.key_reg.has_key(self.id);
                let proposal_can_extend = proposal.can_be_extended();
                if extend && !proposal_can_extend {
                    self.proposals.push_back(proposal);
                    let configuration = Configuration::InsertPubkey(self.id, self.pub_key_bytes.clone());
                    Some((Proposal::Config(configuration), extend))
                } else {
                    Some((proposal, extend))
                }
            },
            None => None,
        }
    }

    /// Announces `proposal`, signed with `signature`; `block_bytes` are the
    /// bytes of a block as they stand after signing. The gnome remembers
    /// it as its own and sends at once.
    pub fn announce_proposal(
        &mut self,
        proposal: Proposal,
        extend: bool,
        block_bytes: Vec<u8>,
        signature: Vec<u8>,
    )
        requires
            proposal is Block ==> block_bytes@.len() <= MAX_SYNC_DATA,
        ensures
            match proposal {
                Proposal::Block(id, _d) => final(self).header == Header::Block(id) && (final(self).payload matches Payload::Block(
                    rid,
                    rs,
                    rd,
                ) && rid == id && signed_by(rs, extend, old(self).id, old(self).pub_key_bytes@, signature@)
                    && rd.view_bytes() == block_bytes@),
                Proposal::Config(c) => final(self).header == Header::Reconfigure(
                    config_header_byte(c),
                    GnomeId(config_gid(c)),
                ) && (final(self).payload matches Payload::Reconfigure(rs, rc) && signed_by(
                    rs,
                    extend,
                    old(self).id,
                    old(self).pub_key_bytes@,
                    signature@,
                ) && config_same(rc, c)),
            },
            final(self).my_proposal matches Some(mp) && proposal_same(mp, proposal),
            final(self).send_immediate,
            *final(self) == (Gnome {
                header: final(self).header,
                payload: final(self).payload,
                my_proposal: final(self).my_proposal,
                send_immediate: true,
                ..*old(self)
            }),
    {
        let announced = proposal.duplicate();
        let key = self.pub_key_bytes.clone();
        assert(key@ =~= self.pub_key_bytes@);
        let (header, payload) = announced.to_header_payload(
            self.id,
            extend,
            key,
            block_bytes,
            signature,
        );
        self.header = header;
        self.payload = payload;
        self.my_proposal = Some(proposal);
        self.send_immediate = true;
    }

    /// Moves to the time, neighborhood, header and payload gathered for the
    /// next turn. The neighborhood stays where the gnome is catching up with
    /// the swarm. Between proposals, early in a round, the gnome takes its
    /// next proposal, to be signed and then announced with
    /// `propose_in_turn`.
    pub fn update_state(&mut self) -> (res: Option<(Proposal, bool)>)
        requires
            old(self).next_state.same_header() && old(self).next_state.updated_this_turn()
                ==> old(self).next_state.neighborhood.0 < 255,
            2 * old(self).swarm_diameter.0 <= u32::MAX,
            old(self).proposals@.len() > 0 ==> proposal_len(old(self).proposals@.last()) <= usize::MAX,
        ensures
            ({
                let ns = old(self).next_state;
                let n_st: int = if ns.swarm_time.0 == u32::MAX { 0 } else { ns.swarm_time.0 + 1 };
                let n_hood: int = if ns.same_header() && ns.updated_this_turn() {
                    ns.neighborhood.0 + 1
                } else {
                    ns.neighborhood.0 as int
                };
                let catching_up = n_st >= old(self).swarm_time.0 && n_st - old(self).swarm_time.0
                    >= 2 * old(self).swarm_diameter.0;
                let hood: int = if catching_up { old(self).neighborhood.0 as int } else { n_hood };
                let proposing = ns.header == Header::Sync && old(self).round_start.0 > 0 && hood <= 1
                    && old(self).proposals@.len() > 0;
                &&& final(self).swarm_time.0 == n_st
                &&& final(self).header == ns.header
                &&& payload_same(final(self).payload, ns.payload)
                &&& final(self).neighborhood.0 == if proposing { 0 } else { hood }
                &&& proposing <==> res is Some
                &&& !proposing ==> final(self).proposals@ == old(self).proposals@
                &&& proposing ==> {
                    let p = old(self).proposals@.last();
                    let extend = first_slot(old(self).swarm.key_reg@, old(self).id.0) < 0;
                    if extend && proposal_len(p) > 900 {
                        &&& final(self).proposals@ == old(self).proposals@
                        &&& res matches Some((Proposal::Config(Configuration::InsertPubkey(g, k)), e)) && g
                            == old(self).id && k@ == old(self).pub_key_bytes@ && e
                    } else {
                        &&& final(self).proposals@ == old(self).proposals@.drop_last()
                        &&& res == Some((p, extend))
                    }
                }
            }),
            *final(self) == (Gnome {
                swarm_time: final(self).swarm_time,
                neighborhood: final(self).neighborhood,
                header: final(self).header,
                payload: final(self).payload,
                proposals: final(self).proposals,
                ..*old(self)
            }),
    {
        let (n_st, n_neigh, n_head, n_payload) = self.next_state.next_params();
        if n_st.0 >= self.swarm_time.0 {
            let sub = n_st.0 - self.swarm_time.0;
            if sub < self.swarm_diameter.0 + self.swarm_diameter.0 {
                self.neighborhood = n_neigh;
            }
        } else {
            self.neighborhood = n_neigh;
        }
        self.swarm_time = n_st;
        self.header = n_head;
        self.payload = n_payload;
        if self.header == Header::Sync && self.round_start.0 > 0 && self.neighborhood.0 <= 1 {
            let next = self.take_next_proposal();
            if next.is_some() {
                self.neighborhood = Neighborhood(0);
            }
            return next;
        }
        None
    }

    /// Announces the proposal that `update_state` took, signed, and makes it
    /// what the gnome gathers for the next turn, with the configuration
    /// change it starts.
    pub fn propose_in_turn(
        &mut self,
        proposal: Proposal,
        extend: bool,
        block_bytes: Vec<u8>,
        signature: Vec<u8>,
    )
        requires
            proposal is Block ==> block_bytes@.len() <= MAX_SYNC_DATA,
        ensures
            final(self).my_proposal matches Some(mp) && proposal_same(mp, proposal),
            final(self).send_immediate,
            final(self).next_state.header == final(self).header,
            payload_same(final(self).next_state.payload, final(self).payload),
            final(self).header is Reconfigure ==> own_change(
                old(self).next_state.change_config,
                final(self).next_state.change_config,
                final(self).payload,
            ),
            !(final(self).header is Reconfigure) ==> final(self).next_state.change_config
                == old(self).next_state.change_config,
            final(self).next_state == (NextState {
                header: final(self).next_state.header,
                payload: final(self).next_state.payload,
                change_config: final(self).next_state.change_config,
                ..old(self).next_state
            }),
            *final(self) == (Gnome {
                header: final(self).header,
                payload: final(self).payload,
                my_proposal: final(self).my_proposal,
                send_immediate: true,
                next_state: final(self).next_state,
                ..*old(self)
            }),
    {
        self.announce_proposal(proposal, extend, block_bytes, signature);
        self.next_state.header = self.header;
        self.next_state.payload = self.payload.duplicate();
        if self.header.is_reconfigure() {
            match &self.payload {
                Payload::Reconfigure(_signature, Configuration::StartBroadcast(g_id, c_id)) => {
                    self.next_state.change_config = ChangeConfig::AddBroadcast {
                        id: *c_id,
                        origin: *g_id,
                        source: *g_id,
                        filtered_neighbors: Vec::new(),
                        turn_ended: false,
                    };
                },
                Payload::Reconfigure(_signature, Configuration::InsertPubkey(id, key)) => {
                    self.next_state.change_config = ChangeConfig::InsertPubkey {
                        id: *id,
                        key: key.clone(),
                        turn_ended: false,
                    };
                },
                Payload::Reconfigure(_signature, Configuration::EndBroadcast(c_id)) => {
                    self.next_state.change_config = ChangeConfig::RemoveBroadcast {
                        id: *c_id,
                        turn_ended: false,
                    };
                },
                _ => {},
            }
        }
    }

    /// Whether every gnome of the swarm has seen what was proposed, and
    /// whether the round has run out of time.
    pub fn round_status(&self) -> (res: (bool, bool))
        requires
            2 * self.swarm_diameter.0 <= u32::MAX,
        ensures
            res.0 == (self.neighborhood.0 >= self.swarm_diameter.0),
            res.1 == (time_since(self.swarm_time.0, self.round_start.0) >= 2 * self.swarm_diameter.0),
    {
        let all_gnomes_aware = (self.neighborhood.0 as u32) >= self.swarm_diameter.0;
        let since: u32 = if self.swarm_time.0 >= self.round_start.0 {
            self.swarm_time.0 - self.round_start.0
        } else {
            (u32::MAX - self.round_start.0) + self.swarm_time.0 + 1
        };
        let finish_round = since >= self.swarm_diameter.0 + self.swarm_diameter.0;
        (all_gnomes_aware, finish_round)
    }

    /// Closes a round that has ended. Slow neighbors are dropped and fast ones
    /// start a new period of timeouts. Where a block or a reconfiguration was
    /// under way and every gnome has seen it, it is accepted: it becomes the
    /// last accepted message, the public key its signature carries goes into
    /// the registry, and an ended broadcast is removed; the gnome then
    /// announces a keep-alive with `available_bandwith`. A round with
    /// nothing under way just starts over from the current time.
    pub fn conclude_round(&mut self, all_gnomes_aware: bool, available_bandwith: u64) -> (res:
        RoundConclusion)
        requires
            old(self).swarm.wf(),
            shifted_timeouts_fit(old(self).slow_neighbors@),
        ensures
            final(self).swarm.wf(),
            final(self).slow_neighbors@.len() == 0,
            final(self).fast_neighbors@.len() == old(self).fast_neighbors@.len(),
            forall|i: int| 0 <= i < old(self).fast_neighbors@.len() ==> #[trigger] final(self).fast_neighbors@[i]
                == (Neighbor {
                timeouts: final(self).fast_neighbors@[i].timeouts,
                ..old(self).fast_neighbors@[i]
            }) && final(self).fast_neighbors@[i].timeouts@ == seq![0u8] + old(self).fast_neighbors@[i].timeouts@.take(7),
            res.proposal_round == (old(self).header.non_zero_block_spec() || old(self).header is Reconfigure),
            res.proposal_round ==> final(self).send_immediate,
            !res.proposal_round ==> {
                &&& final(self).round_start == old(self).swarm_time
                &&& final(self).neighborhood == Neighborhood(0)
                &&& final(self).next_state.last_accepted_message.swarm_time == old(self).swarm_time
                &&& final(self).next_state.last_accepted_message.neighborhood == old(self).neighborhood
                &&& final(self).next_state.last_accepted_message.header == old(self).header
                &&& payload_same(final(self).next_state.last_accepted_message.payload, old(self).payload)
                &&& final(self).payload == old(self).payload
                &&& final(self).swarm == old(self).swarm
                &&& res.accepted_block is None && res.my_proposal is None
                &&& res.change == ChangeConfig::NoChange
                &&& final(self).next_state == (NextState {
                    last_accepted_message: final(self).next_state.last_accepted_message,
                    ..old(self).next_state
                })
                &&& final(self).my_proposal == old(self).my_proposal
                &&& final(self).send_immediate == old(self).send_immediate
            },
            res.proposal_round && !all_gnomes_aware ==> {
                &&& final(self).round_start == old(self).round_start
                &&& final(self).payload == old(self).payload
                &&& final(self).swarm == old(self).swarm
                &&& final(self).next_state == old(self).next_state
                &&& final(self).my_proposal == old(self).my_proposal
                &&& final(self).neighborhood == old(self).neighborhood
                &&& res.accepted_block is None && res.my_proposal is None
                &&& res.change == ChangeConfig::NoChange
            },
            res.proposal_round && all_gnomes_aware ==> {
                &&& final(self).round_start == old(self).swarm_time
                &&& final(self).payload == Payload::KeepAlive(available_bandwith)
                &&& final(self).my_proposal is None
                &&& res.my_proposal == old(self).my_proposal
                &&& final(self).next_state.last_accepted_message.swarm_time == old(self).swarm_time
                &&& final(self).next_state.last_accepted_message.neighborhood == old(self).neighborhood
                &&& final(self).next_state.last_accepted_message.header == old(self).header
                &&& payload_same(final(self).next_state.last_accepted_message.payload, old(self).payload)
                &&& final(self).swarm.key_reg@ == if old(self).header.non_zero_block_spec() {
                    match old(self).payload {
                        Payload::Block(_i, Signature::Extended(g, k, _s), _d) => registry_insert(old(self).swarm.key_reg@, g.0, k@),
                        _ => old(self).swarm.key_reg@,
                    }
                } else {
                    match old(self).payload {
                        Payload::Reconfigure(Signature::Extended(g, k, _s), _c) => registry_insert(old(self).swarm.key_reg@, g.0, k@),
                        _ => old(self).swarm.key_reg@,
                    }
                }
                &&& old(self).header.non_zero_block_spec() ==> res.change == ChangeConfig::NoChange
                    && final(self).next_state.change_config == old(self).next_state.change_config
                    && res.accepted_block == match old(self).payload {
                        Payload::Block(i, _s, d) => Some((i, d)),
                        _ => None::<(BlockID, SyncData)>,
                    }
                &&& !old(self).header.non_zero_block_spec() ==> res.change == old(self).next_state.change_config
                    && final(self).next_state.change_config == ChangeConfig::NoChange
                    && res.accepted_block is None
                &&& !old(self).header.non_zero_block_spec() ==> (old(self).next_state.change_config matches ChangeConfig::RemoveBroadcast { id, .. }
                    ==> crate::assoc::assoc_lookup(final(self).swarm.active_broadcasts@, id) is None
                        && cast_unchanged_but(old(self).swarm.active_broadcasts@, final(self).swarm.active_broadcasts@, id))
                &&& !(!old(self).header.non_zero_block_spec() && old(self).next_state.change_config is RemoveBroadcast)
                    ==> final(self).swarm.active_broadcasts == old(self).swarm.active_broadcasts
                &&& final(self).swarm == (Swarm {
                    key_reg: final(self).swarm.key_reg,
                    active_broadcasts: final(self).swarm.active_broadcasts,
                    ..old(self).swarm
                })
                &&& final(self).next_state == (NextState {
                    last_accepted_message: final(self).next_state.last_accepted_message,
                    change_config: final(self).next_state.change_config,
                    ..old(self).next_state
                })
                &&& final(self).neighborhood == old(self).neighborhood
            },
            *final(self) == (Gnome {
                slow_neighbors: final(self).slow_neighbors,
                fast_neighbors: final(self).fast_neighbors,
                send_immediate: final(self).send_immediate,
                next_state: final(self).next_state,
                payload: final(self).payload,
                swarm: final(self).swarm,
                my_proposal: final(self).my_proposal,
                round_start: final(self).round_start,
                neighborhood: final(self).neighborhood,
                ..*old(self)
            }),
            final(self).header == old(self).header,
            final(self).proposals == old(self).proposals,
            final(self).new_neighbors == old(self).new_neighbors,
            final(self).refreshed_neighbors == old(self).refreshed_neighbors,
            final(self).swarm_time == old(self).swarm_time,
    {
        let ghost slow_before = self.slow_neighbors@;
        let mut slow: Vec<Neighbor> = Vec::new();
        std::mem::swap(&mut slow, &mut self.slow_neighbors);
        let ghost pre = *self;
        while slow.len() > 0
            invariant
                *self == pre,
                forall|i: int| 0 <= i < slow@.len() ==> timeouts_sum(
                    seq![0u8] + (#[trigger] slow@[i]).timeouts@.take(7),
                    8,
                ) <= u8::MAX,
            decreases slow@.len(),
        {
            let mut neighbor = slow.pop().unwrap();
            neighbor.shift_timeout();
            let _count = neighbor.timeouts_count();
        }
        let ghost fast_before = self.fast_neighbors@;
        let ghost pre_fast = *self;
        let mut i: usize = 0;
        while i < self.fast_neighbors.len()
            invariant
                *self == (Gnome { fast_neighbors: self.fast_neighbors, ..pre_fast }),
                i <= self.fast_neighbors@.len(),
                self.fast_neighbors@.len() == fast_before.len(),
                forall|k: int| 0 <= k < i ==> #[trigger] self.fast_neighbors@[k] == (Neighbor {
                    timeouts: self.fast_neighbors@[k].timeouts,
                    ..fast_before[k]
                }) && self.fast_neighbors@[k].timeouts@ == seq![0u8] + fast_before[k].timeouts@.take(7),
                forall|k: int| i <= k < self.fast_neighbors@.len() ==> #[trigger] self.fast_neighbors@[k] == fast_before[k],
            decreases self.fast_neighbors@.len() - i,
        {
            self.fast_neighbors[i].shift_timeout();
            i = i + 1;
        }
        let block_proposed = self.header.non_zero_block();
        let reconfig = self.header.is_reconfigure();
        let mut conclusion = RoundConclusion {
            accepted_block: None,
            change: ChangeConfig::NoChange,
            my_proposal: None,
            proposal_round: block_proposed || reconfig,
        };
        if block_proposed || reconfig {
            self.send_immediate = true;
            if all_gnomes_aware {
                self.next_state.last_accepted_message = self.prepare_message();
                let mut payload = Payload::KeepAlive(available_bandwith);
                std::mem::swap(&mut payload, &mut self.payload);
                if block_proposed {
                    if let Payload::Block(block_id, signature, data) = payload {
                        if let Some((g_id, pub_key)) = signature.pubkey() {
                            self.swarm.key_reg.insert(g_id, pub_key);
                        }
                        conclusion.accepted_block = Some((block_id, data));
                    }
                } else {
                    if let Payload::Reconfigure(signature, _conf) = payload {
                        if let Some((g_id, pub_key)) = signature.pubkey() {
                            self.swarm.key_reg.insert(g_id, pub_key);
                        }
                    }
                    let mut change = ChangeConfig::NoChange;
                    std::mem::swap(&mut change, &mut self.next_state.change_config);
                    if let ChangeConfig::RemoveBroadcast { id, .. } = &change {
                        let _ = self.swarm.remove_cast(true, id);
                    }
                    conclusion.change = change;
                }
                let mut mine: Option<Proposal> = None;
                std::mem::swap(&mut mine, &mut self.my_proposal);
                conclusion.my_proposal = mine;
                self.round_start = self.swarm_time;
            }
        } else {
            self.round_start = self.swarm_time;
            self.next_state.last_accepted_message = self.prepare_message();
            self.neighborhood = Neighborhood(0);
        }
        conclusion
    }

    /// With nothing to propose after a round under a proposal, the gnome
    /// announces a keep-alive and chills; after a plain round it only chills.
    pub fn start_chill(&mut self, after_proposal_round: bool, available_bandwith: u64)
        ensures
            final(self).chill_out,
            after_proposal_round ==> final(self).header == Header::Sync && final(self).payload
                == Payload::KeepAlive(available_bandwith),
            !after_proposal_round ==> final(self).header == old(self).header && final(self).payload
                == old(self).payload,
            *final(self) == (Gnome {
                header: final(self).header,
                payload: final(self).payload,
                chill_out: true,
                ..*old(self)
            }),
    {
        if after_proposal_round {
            self.header = Header::Sync;
            self.payload = Payload::KeepAlive(available_bandwith);
        }
        self.chill_out = true;
    }

    /// Takes out the neighbors waiting for a new round, to be heard once and
    /// then joined to the fast ones.
    pub fn take_new_neighbors(&mut self) -> (res: Vec<Neighbor>)
        ensures
            res == old(self).new_neighbors,
            final(self).new_neighbors@.len() == 0,
            *final(self) == (Gnome { new_neighbors: final(self).new_neighbors, ..*old(self) }),
    {
        let mut taken: Vec<Neighbor> = Vec::new();
        std::mem::swap(&mut taken, &mut self.new_neighbors);
        taken
    }

    /// Joins a neighbor that was heard at the start of a round, after it was
    /// told `message`.
    pub fn admit_neighbor(&mut self, neighbor: Neighbor, message: &Message)
        ensures
            final(self).fast_neighbors@ == old(self).fast_neighbors@.push(
                Neighbor {
                    gnome_header: message.header,
                    gnome_neighborhood: message.neighborhood,
                    ..neighbor
                },
            ),
            *final(self) == (Gnome { fast_neighbors: final(self).fast_neighbors, ..*old(self) }),
    {
        let mut neighbor = neighbor;
        neighbor.send_out(message);
        self.fast_neighbors.push(neighbor);
    }

    /// Prepares the next turn, a new round or not: the gathered state starts
    /// from what the gnome announces, and on a new round every fast and slow
    /// neighbor starts the round at the gnome's time.
    pub fn open_next_turn(&mut self, new_round: bool)
        requires
            !new_round ==> old(self).next_state.neighborhood.0 < 255,
        ensures
            final(self).next_state.header == old(self).header,
            payload_same(final(self).next_state.payload, old(self).payload),
            final(self).next_state.swarm_time.0 == (if old(self).next_state.swarm_time.0 == u32::MAX {
                0
            } else {
                old(self).next_state.swarm_time.0 + 1
            }),
            new_round ==> final(self).next_state.neighborhood == Neighborhood(0),
            !new_round ==> final(self).next_state.neighborhood.0 == old(self).next_state.neighborhood.0 + 1,
            !new_round ==> final(self).fast_neighbors == old(self).fast_neighbors && final(self).slow_neighbors
                == old(self).slow_neighbors,
            new_round ==> final(self).fast_neighbors@.len() == old(self).fast_neighbors@.len()
                && forall|i: int| 0 <= i < old(self).fast_neighbors@.len() ==> #[trigger] final(self).fast_neighbors@[i]
                == (Neighbor {
                round_start: old(self).swarm_time,
                header: Header::Sync,
                payload: Payload::KeepAlive(old(self).fast_neighbors@[i].available_bandwith),
                prev_neighborhood: None,
                neighborhood: Neighborhood(0),
                ..old(self).fast_neighbors@[i]
            }),
            new_round ==> final(self).slow_neighbors@.len() == old(self).slow_neighbors@.len()
                && forall|i: int| 0 <= i < old(self).slow_neighbors@.len() ==> #[trigger] final(self).slow_neighbors@[i]
                == (Neighbor {
                round_start: old(self).swarm_time,
                header: Header::Sync,
                payload: Payload::KeepAlive(old(self).slow_neighbors@[i].available_bandwith),
                prev_neighborhood: None,
                neighborhood: Neighborhood(0),
                ..old(self).slow_neighbors@[i]
            }),
            *final(self) == (Gnome {
                next_state: final(self).next_state,
                fast_neighbors: final(self).fast_neighbors,
                slow_neighbors: final(self).slow_neighbors,
                ..*old(self)
            }),
    {
        let payload = self.payload.duplicate();
        self.next_state.reset_for_next_turn(new_round, self.header, payload);
        if new_round {
            start_round_for_all(&mut self.fast_neighbors, self.swarm_time);
            start_round_for_all(&mut self.slow_neighbors, self.swarm_time);
        }
    }
}

fn start_round_for_all(list: &mut Vec<Neighbor>, swarm_time: SwarmTime)
    ensures
        final(list)@.len() == old(list)@.len(),
        forall|i: int| 0 <= i < old(list)@.len() ==> #[trigger] final(list)@[i] == (Neighbor {
            round_start: swarm_time,
            header: Header::Sync,
            payload: Payload::KeepAlive(old(list)@[i].available_bandwith),
            prev_neighborhood: None,
            neighborhood: Neighborhood(0),
            ..old(list)@[i]
        }),
{
    let ghost orig = list@;
    let mut i: usize = 0;
    while i < list.len()
        invariant
            i <= list@.len(),
            list@.len() == orig.len(),
            forall|k: int| 0 <= k < i ==> #[trigger] list@[k] == (Neighbor {
                round_start: swarm_time,
                header: Header::Sync,
                payload: Payload::KeepAlive(orig[k].available_bandwith),
                prev_neighborhood: None,
                neighborhood: Neighborhood(0),
                ..orig[k]
            }),
            forall|k: int| i <= k < list@.len() ==> #[trigger] list@[k] == orig[k],
        decreases list@.len() - i,
    {
        list[i].start_new_round(swarm_time);
        i = i + 1;
    }
}


/// The registry size byte that a sync response asks for, as a registry
/// built from it takes it.
pub open spec fn registry_size_of(b: u8) -> u8 {
    if 1 <= b <= 7 {
        b
    } else {
        1
    }
}

/// The holder that a capability sync leaves for `c`: the last id of the
/// first pair for `c` with any id.
pub open spec fn synced_holder(s: Seq<(Capabilities, Vec<GnomeId>)>, c: Capabilities) -> Option<u64>
    decreases s.len(),
{
    if s.len() == 0 {
        None
    } else if s[0].0 == c && s[0].1@.len() > 0 {
        Some(s[0].1@.last().0)
    } else {
        synced_holder(s.drop_first(), c)
    }
}

/// The requirement that a policy sync leaves for `p`: that of the first pair
/// for `p`.
pub open spec fn synced_requirement(s: Seq<(Policy, Requirement)>, p: Policy) -> Option<Requirement>
    decreases s.len(),
{
    if s.len() == 0 {
        None
    } else if s[0].0 == p {
        Some(s[0].1)
    } else {
        synced_requirement(s.drop_first(), p)
    }
}

/// `t` holds `g` and no other gnome.
pub open spec fn holds_only(t: CapabiliTree, g: u64) -> bool {
    forall|x: u64| #[trigger] t.has(x) == (x == g)
}

fn insert_keys_from_back(reg: &mut KeyRegistry, pairs: Vec<(GnomeId, Vec<u8>)>)
    requires
        old(reg).wf(),
    ensures
        final(reg).wf(),
        final(reg)@ == insert_pairs_from_back(old(reg)@, pairs@),
        final(reg).size_spec() == old(reg).size_spec(),
{
    let mut pairs = pairs;
    let ghost orig = pairs@;
    let ghost orig_reg = reg@;
    while pairs.len() > 0
        invariant
            reg.wf(),
            reg.size_spec() == old(reg).size_spec(),
            insert_pairs_from_back(reg@, pairs@) == insert_pairs_from_back(orig_reg, orig),
        decreases pairs@.len(),
    {
        let ghost before = pairs@;
        let (gnome_id, pubkey) = pairs.pop().unwrap();
        proof {
            assert(pairs@ == before.drop_last());
        }
        reg.insert(gnome_id, pubkey);
    }
}

impl Gnome {
    /// Takes the state of the swarm that a neighbor sent on joining: founder,
    /// kind, times, and a key registry of the size it names holding its keys.
    /// A non-zero chill phase means the swarm is between rounds.
    pub fn apply_swarm_sync(&mut self, response: SwarmSyncResponse)
        requires
            old(self).swarm.wf(),
        ensures
            final(self).swarm.wf(),
            final(self).swarm.name == (crate::swarm::SwarmName { founder: response.founder, ..old(self).swarm.name }),
            capability_tree(final(self).swarm.capability_reg@, Capabilities::Founder) matches Some(t)
                && holds_only(t, response.founder.0),
            forall|c: Capabilities| c != Capabilities::Founder ==> #[trigger] capability_tree(final(self).swarm.capability_reg@, c)
                == capability_tree(old(self).swarm.capability_reg@, c),
            final(self).swarm.swarm_type == response.swarm_type,
            final(self).swarm.key_reg@ == insert_pairs_from_back(
                unused_slots(capacity_of_size(registry_size_of(response.key_reg_size))),
                response.key_reg_pairs@,
            ),
            final(self).swarm.policy_reg == old(self).swarm.policy_reg,
            final(self).swarm.active_broadcasts == old(self).swarm.active_broadcasts,
            final(self).swarm.active_multicasts == old(self).swarm.active_multicasts,
            final(self).swarm == (Swarm {
                name: final(self).swarm.name,
                capability_reg: final(self).swarm.capability_reg,
                swarm_type: final(self).swarm.swarm_type,
                key_reg: final(self).swarm.key_reg,
                ..old(self).swarm
            }),
            final(self).swarm_time == response.swarm_time,
            final(self).round_start == response.round_start,
            final(self).next_state == (NextState { swarm_time: response.swarm_time, ..old(self).next_state }),
            final(self).chill_out == (response.chill_phase > 0),
            *final(self) == (Gnome {
                swarm: final(self).swarm,
                swarm_time: response.swarm_time,
                round_start: response.round_start,
                next_state: final(self).next_state,
                chill_out: response.chill_phase > 0,
                ..*old(self)
            }),
    {
        self.chill_out = response.chill_phase > 0;
        self.swarm_time = response.swarm_time;
        self.round_start = response.round_start;
        self.swarm.set_founder(response.founder);
        self.swarm.swarm_type = response.swarm_type;
        let mut header: Vec<u8> = Vec::new();
        header.push(response.key_reg_size);
        header.push(0);
        header.push(0);
        let mut reg = KeyRegistry::from(&mut header);
        proof {
            assert(reg@ == unused_slots(capacity_of_size(registry_size_of(response.key_reg_size))));
        }
        self.next_state.swarm_time = response.swarm_time;
        insert_keys_from_back(&mut reg, response.key_reg_pairs);
        self.swarm.key_reg = reg;
    }

    /// Takes the keys of a registry sync, from the last pair to the first.
    pub fn apply_key_registry_sync(&mut self, pairs: Vec<(GnomeId, Vec<u8>)>)
        requires
            old(self).swarm.wf(),
        ensures
            final(self).swarm.wf(),
            final(self).swarm.key_reg@ == insert_pairs_from_back(old(self).swarm.key_reg@, pairs@),
            final(self).swarm == (Swarm { key_reg: final(self).swarm.key_reg, ..old(self).swarm }),
            *final(self) == (Gnome { swarm: final(self).swarm, ..*old(self) }),
    {
        insert_keys_from_back(&mut self.swarm.key_reg, pairs);
    }

    /// Takes the capabilities of a capability sync, from the last pair to the
    /// first.
    pub fn apply_capability_sync(&mut self, pairs: Vec<(Capabilities, Vec<GnomeId>)>)
        requires
            old(self).swarm.wf(),
        ensures
            final(self).swarm.wf(),
            forall|c: Capabilities| #[trigger] synced_holder(pairs@, c) matches Some(g) ==> (capability_tree(final(self).swarm.capability_reg@, c) matches Some(t)
                && holds_only(t, g)),
            forall|c: Capabilities| #[trigger] synced_holder(pairs@, c) is None ==> capability_tree(final(self).swarm.capability_reg@, c)
                == capability_tree(old(self).swarm.capability_reg@, c),
            final(self).swarm == (Swarm { capability_reg: final(self).swarm.capability_reg, ..old(self).swarm }),
            *final(self) == (Gnome { swarm: final(self).swarm, ..*old(self) }),
    {
        let mut pairs = pairs;
        let ghost orig = pairs@;
        let ghost pre = *self;
        while pairs.len() > 0
            invariant
                self.swarm.wf(),
                orig.take(pairs@.len() as int) == pairs@,
                pairs@.len() <= orig.len(),
                forall|c: Capabilities| #[trigger] synced_holder(orig.skip(pairs@.len() as int), c) matches Some(g) ==> (
                    capability_tree(self.swarm.capability_reg@, c) matches Some(t) && holds_only(t, g)),
                forall|c: Capabilities| #[trigger] synced_holder(orig.skip(pairs@.len() as int), c) is None ==> capability_tree(self.swarm.capability_reg@, c)
                    == capability_tree(pre.swarm.capability_reg@, c),
                self.swarm == (Swarm { capability_reg: self.swarm.capability_reg, ..pre.swarm }),
                *self == (Gnome { swarm: self.swarm, ..pre }),
            decreases pairs@.len(),
        {
            let ghost k = pairs@.len() as int;
            let (capability, ids) = pairs.pop().unwrap();
            proof {
                assert(orig.skip(k - 1).drop_first() =~= orig.skip(k));
                assert(orig.skip(k - 1)[0] == orig[k - 1]);
                assert(orig[k - 1] == (capability, ids));
                assert(orig.take(k - 1) =~= pairs@);
            }
            let ghost before_reg = self.swarm.capability_reg@;
            let ghost cap_ids = ids@;
            self.swarm.insert_capability(capability, ids);
            proof {
                assert forall|c: Capabilities| #![trigger synced_holder(orig.skip(k - 1), c)]
                    synced_holder(orig.skip(k - 1), c) matches Some(g) ==> (capability_tree(self.swarm.capability_reg@, c) matches Some(t)
                    && holds_only(t, g)) by {
                    assert(synced_holder(orig.skip(k - 1), c) == if capability == c && cap_ids.len() > 0 {
                        Some(cap_ids.last().0)
                    } else {
                        synced_holder(orig.skip(k), c)
                    });
                    if !(capability == c && cap_ids.len() > 0) {
                        assert(capability_tree(self.swarm.capability_reg@, c) == capability_tree(before_reg, c));
                    }
                }
                assert forall|c: Capabilities| #![trigger synced_holder(orig.skip(k - 1), c)]
                    synced_holder(orig.skip(k - 1), c) is None ==> capability_tree(self.swarm.capability_reg@, c)
                    == capability_tree(pre.swarm.capability_reg@, c) by {
                    assert(synced_holder(orig.skip(k - 1), c) == if capability == c && cap_ids.len() > 0 {
                        Some(cap_ids.last().0)
                    } else {
                        synced_holder(orig.skip(k), c)
                    });
                    if !(capability == c && cap_ids.len() > 0) {
                        assert(capability_tree(self.swarm.capability_reg@, c) == capability_tree(before_reg, c));
                    }
                }
            }
        }
        proof {
            assert(orig.skip(0) =~= orig);
        }
    }

    /// Takes the requirements of a policy sync, from the last pair to the
    /// first.
    pub fn apply_policy_sync(&mut self, pairs: Vec<(Policy, Requirement)>)
        requires
            old(self).swarm.wf(),
        ensures
            final(self).swarm.wf(),
            forall|p: Policy| #[trigger] crate::assoc::assoc_lookup(final(self).swarm.policy_reg@, p) == match synced_requirement(pairs@, p) {
                Some(r) => Some(r),
                None => crate::assoc::assoc_lookup(old(self).swarm.policy_reg@, p),
            },
            final(self).swarm == (Swarm { policy_reg: final(self).swarm.policy_reg, ..old(self).swarm }),
            *final(self) == (Gnome { swarm: final(self).swarm, ..*old(self) }),
    {
        let mut pairs = pairs;
        let ghost orig = pairs@;
        let ghost pre = *self;
        while pairs.len() > 0
            invariant
                self.swarm.wf(),
                orig.take(pairs@.len() as int) == pairs@,
                pairs@.len() <= orig.len(),
                forall|p: Policy| #[trigger] crate::assoc::assoc_lookup(self.swarm.policy_reg@, p) == match synced_requirement(orig.skip(pairs@.len() as int), p) {
                    Some(r) => Some(r),
                    None => crate::assoc::assoc_lookup(pre.swarm.policy_reg@, p),
                },
                self.swarm == (Swarm { policy_reg: self.swarm.policy_reg, ..pre.swarm }),
                *self == (Gnome { swarm: self.swarm, ..pre }),
            decreases pairs@.len(),
        {
            let ghost k = pairs@.len() as int;
            let (policy, req) = pairs.pop().unwrap();
            proof {
                assert(orig.skip(k - 1).drop_first() =~= orig.skip(k));
                assert(orig.skip(k - 1)[0] == orig[k - 1]);
                assert(orig[k - 1] == (policy, req));
                assert(orig.take(k - 1) =~= pairs@);
            }
            self.swarm.set_policy(policy, req);
        }
        proof {
            assert(orig.skip(0) =~= orig);
        }
    }

    /// Puts back a neighbor that was just read from: among the refreshed ones
    /// where it sent something, else where it was, unless it is to be
    /// dropped. A message that passed the sanity check goes into what the
    /// gnome gathers for the next turn, which at the swarm's very first round
    /// takes its time from the neighbor.
    pub fn place_heard_neighbor(
        &mut self,
        neighbor: Neighbor,
        fast: bool,
        served: bool,
        sanity_passed: bool,
        drop_me: bool,
    )
        ensures
            ({
                let n = neighbor;
                let placed = if served && sanity_passed {
                    Neighbor { new_message_recieved: false, ..n }
                } else {
                    n
                };
                &&& (served && !drop_me) ==> final(self).refreshed_neighbors@ == old(self).refreshed_neighbors@.push(placed)
                    && final(self).fast_neighbors == old(self).fast_neighbors
                    && final(self).slow_neighbors == old(self).slow_neighbors
                &&& (!served && !drop_me && fast) ==> final(self).fast_neighbors@ == old(self).fast_neighbors@.push(placed)
                    && final(self).refreshed_neighbors == old(self).refreshed_neighbors
                    && final(self).slow_neighbors == old(self).slow_neighbors
                &&& (!served && !drop_me && !fast) ==> final(self).slow_neighbors@ == old(self).slow_neighbors@.push(placed)
                    && final(self).refreshed_neighbors == old(self).refreshed_neighbors
                    && final(self).fast_neighbors == old(self).fast_neighbors
                &&& drop_me ==> final(self).refreshed_neighbors == old(self).refreshed_neighbors
                    && final(self).fast_neighbors == old(self).fast_neighbors
                    && final(self).slow_neighbors == old(self).slow_neighbors
                &&& !(served && sanity_passed) ==> final(self).next_state == old(self).next_state
                &&& (served && sanity_passed) ==> update_outcome(
                    if old(self).round_start.0 == 0 {
                        (NextState { swarm_time: n.swarm_time, ..old(self).next_state })
                    } else {
                        old(self).next_state
                    },
                    n,
                    final(self).next_state,
                )
            }),
            *final(self) == (Gnome {
                fast_neighbors: final(self).fast_neighbors,
                slow_neighbors: final(self).slow_neighbors,
                refreshed_neighbors: final(self).refreshed_neighbors,
                next_state: final(self).next_state,
                ..*old(self)
            }),
    {
        let mut neighbor = neighbor;
        if served {
            if sanity_passed {
                if self.round_start.0 == 0 {
                    self.next_state.swarm_time = neighbor.swarm_time;
                }
                self.next_state.update(&mut neighbor);
            }
            if !drop_me {
                self.refreshed_neighbors.push(neighbor);
            }
        } else if !drop_me {
            if fast {
                self.fast_neighbors.push(neighbor);
            } else {
                self.slow_neighbors.push(neighbor);
            }
        }
    }

    /// After reading the fast (or slow) neighbors: whether any neighbor is
    /// responsive, and whether to move to the next turn, which happens once
    /// every neighbor of that kind was heard, or at a new proposal. With no
    /// neighbor at all there is nothing to wait for, and no chilling either.
    pub fn turn_progress(&mut self, fast: bool, looped: bool, new_proposal_received: bool) -> (res: (bool, bool))
        ensures
            res.0 == (old(self).refreshed_neighbors@.len() > 0 || old(self).fast_neighbors@.len() > 0),
            ({
                let none = old(self).refreshed_neighbors@.len() == 0 && old(self).fast_neighbors@.len() == 0
                    && old(self).slow_neighbors@.len() == 0;
                &&& none ==> !res.1 && !final(self).chill_out
                &&& !none ==> res.1 == (if fast {
                    old(self).fast_neighbors@.len() == 0 && looped || new_proposal_received
                } else {
                    old(self).slow_neighbors@.len() == 0 && looped || new_proposal_received
                }) && final(self).chill_out == old(self).chill_out
            }),
            *final(self) == (Gnome { chill_out: final(self).chill_out, ..*old(self) }),
    {
        let refreshed_empty = self.refreshed_neighbors.len() == 0;
        let fast_empty = self.fast_neighbors.len() == 0;
        let slow_empty = self.slow_neighbors.len() == 0;
        let have_responsive_neighbors = !refreshed_empty || !fast_empty;
        if refreshed_empty && fast_empty && slow_empty {
            self.chill_out = false;
            (have_responsive_neighbors, false)
        } else {
            let advance_to_next_turn = if fast {
                fast_empty && looped || new_proposal_received
            } else {
                slow_empty && looped || new_proposal_received
            };
            (have_responsive_neighbors, advance_to_next_turn)
        }
    }

    /// The neighbors a new broadcast goes on to: every known neighbor but
    /// the origin, the source, and those that already have it.
    pub fn broadcast_subscribers(&self, origin: GnomeId, source: GnomeId, filtered: &Vec<GnomeId>) -> (res: Vec<GnomeId>)
        ensures
            crate::multicast::distinct_ids(res@),
            forall|g: GnomeId| #[trigger] res@.contains(g) <==> (neighbor_index(self.fast_neighbors@, g) >= 0
                || neighbor_index(self.slow_neighbors@, g) >= 0 || neighbor_index(self.refreshed_neighbors@, g) >= 0
                || neighbor_index(self.new_neighbors@, g) >= 0) && !filtered@.contains(g) && g != origin && g != source,
    {
        let mut res: Vec<GnomeId> = Vec::new();
        collect_ids(&mut res, &self.fast_neighbors, origin, source, filtered);
        collect_ids(&mut res, &self.slow_neighbors, origin, source, filtered);
        collect_ids(&mut res, &self.refreshed_neighbors, origin, source, filtered);
        collect_ids(&mut res, &self.new_neighbors, origin, source, filtered);
        res
    }
}

fn collect_ids(res: &mut Vec<GnomeId>, list: &Vec<Neighbor>, origin: GnomeId, source: GnomeId, filtered: &Vec<GnomeId>)
    requires
        crate::multicast::distinct_ids(old(res)@),
    ensures
        crate::multicast::distinct_ids(final(res)@),
        forall|g: GnomeId| #[trigger] final(res)@.contains(g) <==> old(res)@.contains(g) || (neighbor_index(list@, g) >= 0
            && !filtered@.contains(g) && g != origin && g != source),
{
    let mut i: usize = 0;
    while i < list.len()
        invariant
            i <= list@.len(),
            crate::multicast::distinct_ids(res@),
            forall|g: GnomeId| #[trigger] res@.contains(g) <==> old(res)@.contains(g) || (exists|k: int| 0 <= k < i && list@[k].id == g)
                && !filtered@.contains(g) && g != origin && g != source,
        decreases list@.len() - i,
    {
        let id = list[i].id;
        if id != origin && id != source && !contains_id(filtered, id) && !contains_id(res, id) {
            let ghost before = res@;
            res.push(id);
            proof {
                assert forall|a: int, b: int| 0 <= a < b < res@.len() implies res@[a] != res@[b] by {
                    if b == before.len() {
                        assert(res@[a] == before[a]);
                        assert(before.contains(before[a]));
                    }
                }
                assert forall|g: GnomeId| #[trigger] res@.contains(g) <==> before.contains(g) || g == id by {
                    if res@.contains(g) {
                        let k = choose|k: int| 0 <= k < res@.len() && res@[k] == g;
                        if k < before.len() {
                            assert(before[k] == g);
                        }
                    }
                    if before.contains(g) {
                        let k = choose|k: int| 0 <= k < before.len() && before[k] == g;
                        assert(res@[k] == g);
                    }
                    if g == id {
                        assert(res@[before.len() as int] == id);
                    }
                }
            }
        }
        proof {
            assert forall|g: GnomeId| #[trigger] res@.contains(g) <==> old(res)@.contains(g) || (exists|k: int| 0 <= k < i + 1 && list@[k].id == g)
                && !filtered@.contains(g) && g != origin && g != source by {
                if g == id {
                    assert(list@[i as int].id == g);
                }
                if exists|k: int| 0 <= k < i + 1 && list@[k].id == g {
                    let k = choose|k: int| 0 <= k < i + 1 && list@[k].id == g;
                    if k < i {
                    } else {
                        assert(g == id);
                    }
                }
            }
        }
        i = i + 1;
    }
    proof {
        lemma_neighbor_index(list@, origin);
        assert forall|g: GnomeId| #[trigger] res@.contains(g) <==> old(res)@.contains(g) || (neighbor_index(list@, g) >= 0
            && !filtered@.contains(g) && g != origin && g != source) by {
            lemma_neighbor_index(list@, g);
            if neighbor_index(list@, g) >= 0 {
                assert(list@[neighbor_index(list@, g)].id == g);
            }
            if exists|k: int| 0 <= k < list@.len() && list@[k].id == g {
                let k = choose|k: int| 0 <= k < list@.len() && list@[k].id == g;
                assert(list@[k].id == g);
            }
        }
    }
}


/// The neighbor to ask next for a connection: the first fast, else the
/// first slow neighbor not among `queried`.
pub open spec fn requery_target(fast: Seq<Neighbor>, slow: Seq<Neighbor>, queried: Seq<GnomeId>) -> Option<GnomeId> {
    let fi = first_unqueried(fast, queried);
    let si = first_unqueried(slow, queried);
    if fi >= 0 {
        Some(fast[fi].id)
    } else if si >= 0 {
        Some(slow[si].id)
    } else {
        None
    }
}

/// The first fast, else the first slow neighbor other than `origin`.
pub open spec fn query_target(fast: Seq<Neighbor>, slow: Seq<Neighbor>, origin: GnomeId) -> Option<GnomeId> {
    requery_target(fast, slow, seq![origin])
}

/// What serving the ongoing requests `entries` at time `now` asks to send,
/// and the requests left: an answered request is passed on and ends; one
/// that waited more than 100 turns is sent to the next neighbor, or ends in
/// a failure when there is none.
pub open spec fn ongoing_pass(
    entries: Seq<(u8, OngoingRequest)>,
    fast: Seq<Neighbor>,
    slow: Seq<Neighbor>,
    now: SwarmTime,
) -> (Seq<OngoingAction>, Seq<(u8, OngoingRequest)>)
    decreases entries.len(),
{
    if entries.len() == 0 {
        (Seq::empty(), Seq::empty())
    } else {
        let (k, v) = entries[0];
        let (acts, kept) = ongoing_pass(entries.drop_first(), fast, slow, now);
        match v.response {
            Some(settings) => (seq![OngoingAction::Respond { origin: v.origin, settings }] + acts, kept),
            None => if time_since(now.0, v.timestamp.0) > 100 {
                match requery_target(fast, slow, v.queried_neighbors@) {
                    Some(n) => (
                        seq![
                            OngoingAction::Query {
                                neighbor: n,
                                conn_id: k,
                                origin: v.origin,
                                settings: v.network_settings,
                            },
                        ] + acts,
                        seq![(k, OngoingRequest { timestamp: now, ..v })] + kept,
                    ),
                    None => (seq![OngoingAction::Fail { origin: v.origin }] + acts, kept),
                }
            } else {
                (acts, seq![(k, v)] + kept)
            },
        }
    }
}

fn first_other(list: &Vec<Neighbor>, queried: &Vec<GnomeId>) -> (res: Option<GnomeId>)
    ensures
        res matches Some(g) ==> first_unqueried(list@, queried@) >= 0 && g == list@[first_unqueried(list@, queried@)].id,
        res is None ==> first_unqueried(list@, queried@) < 0,
{
    match first_not_queried(list, queried) {
        Some(i) => Some(list[i].id),
        None => None,
    }
}

impl Gnome {
    /// The neighbor to ask next on behalf of a connection request.
    fn requery(&self, queried: &Vec<GnomeId>) -> (res: Option<GnomeId>)
        ensures
            res == requery_target(self.fast_neighbors@, self.slow_neighbors@, queried@),
    {
        match first_other(&self.fast_neighbors, queried) {
            Some(g) => Some(g),
            None => first_other(&self.slow_neighbors, queried),
        }
    }

    /// Starts brokering a connection for neighbor `origin`: under the lowest
    /// free request number, the first other neighbor is asked. With fewer
    /// than two neighbors no one can be asked and `None` comes back: the
    /// request fails at once.
    pub fn add_ongoing_request(&mut self, origin: GnomeId, network_settings: NetworkSettings) -> (res: Option<(u8, Option<GnomeId>)>)
        requires
            exists|id: u8| crate::assoc::assoc_lookup(old(self).ongoing_requests@, id) is None,
            old(self).fast_neighbors@.len() + old(self).slow_neighbors@.len() <= usize::MAX,
        ensures
            old(self).fast_neighbors@.len() + old(self).slow_neighbors@.len() < 2 ==> res is None
                && *final(self) == *old(self),
            old(self).fast_neighbors@.len() + old(self).slow_neighbors@.len() >= 2 ==> (res matches Some((id, q)) && {
                &&& crate::assoc::assoc_lookup(old(self).ongoing_requests@, id) is None
                &&& forall|j: u8| j < id ==> #[trigger] crate::assoc::assoc_lookup(old(self).ongoing_requests@, j) is Some
                &&& q == query_target(old(self).fast_neighbors@, old(self).slow_neighbors@, origin)
                &&& final(self).ongoing_requests@.len() == old(self).ongoing_requests@.len() + 1
                &&& final(self).ongoing_requests@.drop_last() == old(self).ongoing_requests@
                &&& final(self).ongoing_requests@.last().0 == id
                &&& final(self).ongoing_requests@.last().1.origin == origin
                &&& final(self).ongoing_requests@.last().1.queried_neighbors@ == match q {
                    Some(g) => seq![g],
                    None => Seq::<GnomeId>::empty(),
                }
                &&& final(self).ongoing_requests@.last().1.timestamp == old(self).swarm_time
                &&& final(self).ongoing_requests@.last().1.response is None
                &&& final(self).ongoing_requests@.last().1.network_settings == network_settings
            }),
            *final(self) == (Gnome { ongoing_requests: final(self).ongoing_requests, ..*old(self) }),
    {
        let neighbor_count = self.fast_neighbors.len() + self.slow_neighbors.len();
        if neighbor_count < 2 {
            return None;
        }
        let mut id: u8 = 0;
        loop
            invariant
                exists|free: u8| crate::assoc::assoc_lookup(self.ongoing_requests@, free) is None,
                forall|j: u8| j < id ==> #[trigger] crate::assoc::assoc_lookup(self.ongoing_requests@, j) is Some,
            ensures
                crate::assoc::assoc_lookup(self.ongoing_requests@, id) is None,
                forall|j: u8| j < id ==> #[trigger] crate::assoc::assoc_lookup(self.ongoing_requests@, j) is Some,
            decreases 255 - id,
        {
            if find_ongoing(&self.ongoing_requests, id).is_none() {
                break;
            }
            if id == 255 {
                proof {
                    let free = choose|free: u8| crate::assoc::assoc_lookup(self.ongoing_requests@, free) is None;
                    assert(free < 255 || free == 255);
                    assert(crate::assoc::assoc_lookup(self.ongoing_requests@, free) is Some);
                }
            }
            id = id + 1;
        }
        let mut origin_only: Vec<GnomeId> = Vec::new();
        origin_only.push(origin);
        assert(origin_only@ =~= seq![origin]);
        let queried_neighbor = self.requery(&origin_only);
        let mut queried_neighbors: Vec<GnomeId> = Vec::new();
        if let Some(g) = queried_neighbor {
            queried_neighbors.push(g);
        }
        assert(queried_neighbors@ =~= match queried_neighbor {
            Some(g) => seq![g],
            None => Seq::<GnomeId>::empty(),
        });
        let or = OngoingRequest {
            origin,
            queried_neighbors,
            timestamp: self.swarm_time,
            response: None,
            network_settings,
        };
        self.ongoing_requests.push((id, or));
        Some((id, queried_neighbor))
    }

    /// Records the answer to request `id`, where it is still ongoing.
    pub fn add_ongoing_reply(&mut self, id: u8, network_settings: NetworkSettings)
        ensures
            final(self).ongoing_requests@.len() == old(self).ongoing_requests@.len(),
            forall|i: int| 0 <= i < old(self).ongoing_requests@.len() ==> #[trigger] final(self).ongoing_requests@[i] == if i == crate::assoc::assoc_index(old(self).ongoing_requests@, id) {
                (id, OngoingRequest { response: Some(network_settings), ..old(self).ongoing_requests@[i].1 })
            } else {
                old(self).ongoing_requests@[i]
            },
            *final(self) == (Gnome { ongoing_requests: final(self).ongoing_requests, ..*old(self) }),
    {
        proof {
            crate::assoc::lemma_assoc_index(self.ongoing_requests@, id);
        }
        if let Some(i) = find_ongoing(&self.ongoing_requests, id) {
            let (k, v) = self.ongoing_requests.remove(i);
            let updated = OngoingRequest { response: Some(network_settings), ..v };
            self.ongoing_requests.insert(i, (k, updated));
        }
    }

    /// The asked neighbor of request `id` already knows the origin: the next
    /// neighbor is asked, or the request fails and ends.
    pub fn skip_neighbor(&mut self, id: u8) -> (res: Option<OngoingAction>)
        ensures
            ({
                let entries = old(self).ongoing_requests@;
                let i = crate::assoc::assoc_index(entries, id);
                &&& i < 0 ==> res is None && final(self).ongoing_requests@ == entries
                &&& i >= 0 ==> {
                    let v = entries[i].1;
                    match requery_target(old(self).fast_neighbors@, old(self).slow_neighbors@, v.queried_neighbors@) {
                        Some(n) => res == Some(OngoingAction::Query { neighbor: n, conn_id: id, origin: v.origin, settings: v.network_settings })
                            && final(self).ongoing_requests@ == entries.update(i, (id, OngoingRequest { timestamp: old(self).swarm_time, ..v })),
                        None => res == Some(OngoingAction::Fail { origin: v.origin })
                            && final(self).ongoing_requests@ == entries.remove(i),
                    }
                }
            }),
            *final(self) == (Gnome { ongoing_requests: final(self).ongoing_requests, ..*old(self) }),
    {
        proof {
            crate::assoc::lemma_assoc_index(self.ongoing_requests@, id);
        }
        match find_ongoing(&self.ongoing_requests, id) {
            Some(i) => {
                let (k, v) = self.ongoing_requests.remove(i);
                match self.requery(&v.queried_neighbors) {
                    Some(n) => {
                        let action = OngoingAction::Query {
                            neighbor: n,
                            conn_id: id,
                            origin: v.origin,
                            settings: v.network_settings,
                        };
                        let updated = OngoingRequest { timestamp: self.swarm_time, ..v };
                        self.ongoing_requests.insert(i, (k, updated));
                        Some(action)
                    },
                    None => Some(OngoingAction::Fail { origin: v.origin }),
                }
            },
            None => None,
        }
    }

    /// Goes through the ongoing requests: see `ongoing_pass`.
    pub fn serve_ongoing_requests(&mut self) -> (res: Vec<OngoingAction>)
        ensures
            (res@, final(self).ongoing_requests@) == ongoing_pass(
                old(self).ongoing_requests@,
                old(self).fast_neighbors@,
                old(self).slow_neighbors@,
                old(self).swarm_time,
            ),
            *final(self) == (Gnome { ongoing_requests: final(self).ongoing_requests, ..*old(self) }),
    {
        let mut entries: Vec<(u8, OngoingRequest)> = Vec::new();
        std::mem::swap(&mut entries, &mut self.ongoing_requests);
        let ghost all = entries@;
        let ghost pre = *self;
        let mut actions: Vec<OngoingAction> = Vec::new();
        let mut kept: Vec<(u8, OngoingRequest)> = Vec::new();
        proof {
            assert(all.skip(all.len() as int) =~= Seq::<(u8, OngoingRequest)>::empty());
        }
        while entries.len() > 0
            invariant
                entries@.len() <= all.len(),
                entries@ == all.take(entries@.len() as int),
                (actions@, kept@) == ongoing_pass(all.skip(entries@.len() as int), pre.fast_neighbors@, pre.slow_neighbors@, pre.swarm_time),
                *self == pre,
            decreases entries@.len(),
        {
            let ghost n = entries@.len() as int;
            let (k, v) = entries.pop().unwrap();
            proof {
                assert(all.skip(n - 1).drop_first() =~= all.skip(n));
                assert(all.skip(n - 1)[0] == all[n - 1]);
                assert(entries@ =~= all.take(n - 1));
            }
            match v.response {
                Some(settings) => {
                    actions.insert(0, OngoingAction::Respond { origin: v.origin, settings });
                },
                None => {
                    let since: u32 = if self.swarm_time.0 >= v.timestamp.0 {
                        self.swarm_time.0 - v.timestamp.0
                    } else {
                        (u32::MAX - v.timestamp.0) + self.swarm_time.0 + 1
                    };
                    if since > 100 {
                        match self.requery(&v.queried_neighbors) {
                            Some(nb) => {
                                actions.insert(0, OngoingAction::Query {
                                    neighbor: nb,
                                    conn_id: k,
                                    origin: v.origin,
                                    settings: v.network_settings,
                                });
                                let updated = OngoingRequest { timestamp: self.swarm_time, ..v };
                                kept.insert(0, (k, updated));
                            },
                            None => {
                                actions.insert(0, OngoingAction::Fail { origin: v.origin });
                            },
                        }
                    } else {
                        kept.insert(0, (k, v));
                    }
                },
            }
            proof {
                assert(actions@ =~= ongoing_pass(all.skip(n - 1), pre.fast_neighbors@, pre.slow_neighbors@, pre.swarm_time).0);
                assert(kept@ =~= ongoing_pass(all.skip(n - 1), pre.fast_neighbors@, pre.slow_neighbors@, pre.swarm_time).1);
            }
        }
        proof {
            assert(all.skip(0) =~= all);
        }
        self.ongoing_requests = kept;
        actions
    }

    /// A neighbor asks this gnome to connect to `origin` on behalf of
    /// `reply_gnome`. Where `origin` is a fast or slow neighbor already, the
    /// answer is that it is; otherwise the request waits for fresh network
    /// settings, and `None` comes back.
    pub fn serve_connect_request(&mut self, id: u8, reply_gnome: GnomeId, origin: GnomeId) -> (res: Option<NeighborResponse>)
        ensures
            (neighbor_index(old(self).fast_neighbors@, origin) >= 0 || neighbor_index(old(self).slow_neighbors@, origin) >= 0)
                ==> res == Some(NeighborResponse::AlreadyConnected(id)) && *final(self) == *old(self),
            !(neighbor_index(old(self).fast_neighbors@, origin) >= 0 || neighbor_index(old(self).slow_neighbors@, origin) >= 0)
                ==> res is None && final(self).pending_conn_requests@ == old(self).pending_conn_requests@.push(
                ConnRequest { conn_id: id, neighbor_id: reply_gnome },
            ),
            *final(self) == (Gnome { pending_conn_requests: final(self).pending_conn_requests, ..*old(self) }),
    {
        if index_of_neighbor(&self.fast_neighbors, origin).is_some() || index_of_neighbor(&self.slow_neighbors, origin).is_some() {
            return Some(NeighborResponse::AlreadyConnected(id));
        }
        self.pending_conn_requests.push_back(ConnRequest { conn_id: id, neighbor_id: reply_gnome });
        None
    }

    /// Network settings arrived for the oldest waiting connection request:
    /// it is taken, with whether its neighbor is still fast, refreshed or slow.
    pub fn take_pending_connection(&mut self) -> (res: Option<(ConnRequest, bool)>)
        ensures
            old(self).pending_conn_requests@.len() == 0 ==> res is None,
            old(self).pending_conn_requests@.len() > 0 ==> ({
                let c = old(self).pending_conn_requests@[0];
                res == Some((c, neighbor_index(old(self).fast_neighbors@, c.neighbor_id) >= 0
                    || neighbor_index(old(self).refreshed_neighbors@, c.neighbor_id) >= 0
                    || neighbor_index(old(self).slow_neighbors@, c.neighbor_id) >= 0))
                    && final(self).pending_conn_requests@ == old(self).pending_conn_requests@.drop_first()
            }),
            old(self).pending_conn_requests@.len() == 0 ==> final(self).pending_conn_requests@ == old(self).pending_conn_requests@,
            *final(self) == (Gnome { pending_conn_requests: final(self).pending_conn_requests, ..*old(self) }),
    {
        match self.pending_conn_requests.pop_front() {
            Some(c) => {
                let known = index_of_neighbor(&self.fast_neighbors, c.neighbor_id).is_some()
                    || index_of_neighbor(&self.refreshed_neighbors, c.neighbor_id).is_some()
                    || index_of_neighbor(&self.slow_neighbors, c.neighbor_id).is_some();
                Some((c, known))
            },
            None => None,
        }
    }

    /// New public address details from networking, kept for IPv6 or IPv4 as
    /// the address is.
    pub fn update_network_settings(&mut self, ip_addr: IpAddress, port: u16, nat_type: Nat)
        ensures
            ip_addr is V6 ==> final(self).ipv6_network_settings == (NetworkSettings {
                pub_ip: ip_addr,
                pub_port: port,
                nat_type: nat_type,
                ..old(self).ipv6_network_settings
            }) && final(self).network_settings == old(self).network_settings,
            !(ip_addr is V6) ==> final(self).network_settings == (NetworkSettings {
                pub_ip: ip_addr,
                pub_port: port,
                nat_type: nat_type,
                ..old(self).network_settings
            }) && final(self).ipv6_network_settings == old(self).ipv6_network_settings,
            *final(self) == (Gnome {
                network_settings: final(self).network_settings,
                ipv6_network_settings: final(self).ipv6_network_settings,
                ..*old(self)
            }),
    {
        if matches!(ip_addr, IpAddress::V6(_)) {
            self.ipv6_network_settings.pub_ip = ip_addr;
            self.ipv6_network_settings.set_port(port);
            self.ipv6_network_settings.nat_type = nat_type;
        } else {
            self.network_settings.pub_ip = ip_addr;
            self.network_settings.set_port(port);
            self.network_settings.nat_type = nat_type;
        }
    }

    /// Queues data that the application wants the swarm to agree on, under
    /// the block id the data gives itself.
    pub fn add_data_proposal(&mut self, data: SyncData)
        ensures
            final(self).proposals@.len() == old(self).proposals@.len() + 1,
            final(self).proposals@.drop_first() == old(self).proposals@,
            final(self).proposals@[0] matches Proposal::Block(id, d) && d == data
                && crate::data::hasher_output(id.0),
            *final(self) == (Gnome { proposals: final(self).proposals, ..*old(self) }),
    {
        let b_id = data.get_block_id();
        self.proposals.push_front(Proposal::Block(b_id, data));
    }

    /// Queues a proposal to start a broadcast from this gnome under the
    /// lowest free broadcast id; `false` where every id is taken.
    pub fn propose_broadcast(&mut self) -> (res: bool)
        ensures
            ({
                let free = exists|d: u8| #[trigger] crate::assoc::assoc_lookup(old(self).swarm.active_broadcasts@, CastID(d)) is None;
                &&& res == free
                &&& !free ==> final(self).proposals@ == old(self).proposals@
                &&& free ==> final(self).proposals@.drop_first() == old(self).proposals@
                    && (final(self).proposals@[0] matches Proposal::Config(Configuration::StartBroadcast(g, c))
                    && g == old(self).id && crate::assoc::assoc_lookup(old(self).swarm.active_broadcasts@, c) is None
                    && forall|d: u8| d < c.0 ==> #[trigger] crate::assoc::assoc_lookup(old(self).swarm.active_broadcasts@, CastID(d)) is Some)
            }),
            *final(self) == (Gnome { proposals: final(self).proposals, ..*old(self) }),
    {
        match self.swarm.next_broadcast_id() {
            Some(cid) => {
                proof {
                    assert(cid == CastID(cid.0));
                    assert(crate::assoc::assoc_lookup(self.swarm.active_broadcasts@, CastID(cid.0)) is None);
                }
                self.proposals.push_front(Proposal::Config(Configuration::StartBroadcast(self.id, cid)));
                true
            },
            None => false,
        }
    }

    /// Queues a proposal to end broadcast `c_id`.
    pub fn propose_end_broadcast(&mut self, c_id: CastID)
        ensures
            final(self).proposals@ == seq![Proposal::Config(Configuration::EndBroadcast(c_id))] + old(self).proposals@,
            *final(self) == (Gnome { proposals: final(self).proposals, ..*old(self) }),
    {
        self.proposals.push_front(Proposal::Config(Configuration::EndBroadcast(c_id)));
    }

    /// Queues a reconfiguration that the application defines, numbered `value`.
    pub fn propose_reconfigure(&mut self, value: u8)
        ensures
            final(self).proposals@ == seq![Proposal::Config(Configuration::UserDefined(value))] + old(self).proposals@,
            *final(self) == (Gnome { proposals: final(self).proposals, ..*old(self) }),
    {
        self.proposals.push_front(Proposal::Config(Configuration::UserDefined(value)));
    }

    /// The ids of the fast, slow and refreshed neighbors, in that order.
    pub fn neighbor_ids(&self) -> (res: Vec<GnomeId>)
        ensures
            res@ == (self.fast_neighbors@ + self.slow_neighbors@ + self.refreshed_neighbors@).map_values(|n: Neighbor| n.id),
    {
        let mut ids: Vec<GnomeId> = Vec::new();
        push_ids(&mut ids, &self.fast_neighbors);
        push_ids(&mut ids, &self.slow_neighbors);
        push_ids(&mut ids, &self.refreshed_neighbors);
        proof {
            assert(ids@ =~= (self.fast_neighbors@ + self.slow_neighbors@ + self.refreshed_neighbors@).map_values(|n: Neighbor| n.id));
        }
        ids
    }

    /// The request for a unicast: this swarm, and the unicast ids free here,
    /// ascending, then id 0 in the places left.
    pub fn unicast_request(&self) -> (res: NeighborRequest)
        ensures
            res matches NeighborRequest::UnicastRequest(sid, ids) && sid == self.swarm.id && ({
                let free = free_unicast_ids(self.swarm.active_unicasts@);
                &&& forall|i: int| 0 <= i < free.len() ==> #[trigger] ids@[i] == free[i]
                &&& forall|i: int| free.len() <= i < 256 ==> #[trigger] ids@[i] == CastID(0)
            }),
    {
        let avail = self.swarm.avail_unicast_ids();
        proof {
            cast_ids_below(254).lemma_filter_len(not_in(self.swarm.active_unicasts@));
        }
        let mut avail_ids: [CastID; 256] = [CastID(0); 256];
        let mut i: usize = 0;
        while i < avail.len()
            invariant
                i <= avail@.len(),
                avail@.len() <= 254,
                forall|k: int| 0 <= k < i ==> #[trigger] avail_ids@[k] == avail@[k],
                forall|k: int| i <= k < 256 ==> #[trigger] avail_ids@[k] == CastID(0),
            decreases avail@.len() - i,
        {
            avail_ids[i] = avail[i];
            i = i + 1;
        }
        NeighborRequest::UnicastRequest(self.swarm.id, Box::new(avail_ids))
    }

    /// Whether `id` is a fast or slow neighbor, to which requests can go.
    pub fn is_direct_neighbor(&self, id: GnomeId) -> (res: bool)
        ensures
            res == (neighbor_index(self.fast_neighbors@, id) >= 0 || neighbor_index(self.slow_neighbors@, id) >= 0),
    {
        index_of_neighbor(&self.fast_neighbors, id).is_some() || index_of_neighbor(&self.slow_neighbors, id).is_some()
    }

    /// The neighbor that a request or response for `gnome_id` goes to: that
    /// gnome, or, for "any gnome", the fast neighbor with the most bandwidth.
    pub fn request_target(&self, gnome_id: GnomeId) -> (res: GnomeId)
        ensures
            gnome_id.0 == 0 ==> res == widest(self.fast_neighbors@, GnomeId(0), 0).0,
            gnome_id.0 != 0 ==> res == gnome_id,
    {
        if gnome_id.is_any() {
            self.neighbor_with_highest_bandwith()
        } else {
            gnome_id
        }
    }
}

fn push_ids(ids: &mut Vec<GnomeId>, list: &Vec<Neighbor>)
    ensures
        final(ids)@ == old(ids)@ + list@.map_values(|n: Neighbor| n.id),
{
    let mut i: usize = 0;
    while i < list.len()
        invariant
            i <= list@.len(),
            ids@ == old(ids)@ + list@.take(i as int).map_values(|n: Neighbor| n.id),
        decreases list@.len() - i,
    {
        ids.push(list[i].id);
        i = i + 1;
        proof {
            assert(list@.take(i as int).map_values(|n: Neighbor| n.id) =~= list@.take(i as int - 1).map_values(|n: Neighbor| n.id).push(list@[i as int - 1].id));
        }
    }
    proof {
        assert(list@.take(i as int) =~= list@);
    }
}

fn find_ongoing(list: &Vec<(u8, OngoingRequest)>, id: u8) -> (res: Option<usize>)
    ensures
        res matches Some(i) ==> i == crate::assoc::assoc_index(list@, id) && i < list@.len(),
        res is None ==> crate::assoc::assoc_index(list@, id) < 0,
{
    proof {
        crate::assoc::lemma_assoc_index(list@, id);
    }
    let mut i: usize = 0;
    while i < list.len()
        invariant
            i <= list@.len(),
            forall|k: int| 0 <= k < i ==> list@[k].0 != id,
            -1 <= crate::assoc::assoc_index(list@, id) < list@.len(),
            crate::assoc::assoc_index(list@, id) >= 0 ==> list@[crate::assoc::assoc_index(list@, id)].0 == id,
            forall|m: int| 0 <= m < crate::assoc::assoc_index(list@, id) ==> list@[m].0 != id,
            crate::assoc::assoc_index(list@, id) < 0 <==> forall|m: int| 0 <= m < list@.len() ==> list@[m].0 != id,
        decreases list@.len() - i,
    {
        if list[i].0 == id {
            return Some(i);
        }
        i = i + 1;
    }
    None
}


/// Chunk `c` of the first `n` slots of a key registry, four slots a chunk.
pub open spec fn key_chunk(s: Seq<Slot>, n: int, c: int) -> Seq<Slot> {
    s.subrange(c * 4, if c * 4 + 4 < n { c * 4 + 4 } else { n })
}

proof fn lemma_take_index<A>(a: Seq<A>, b: Seq<A>, i: int)
    requires
        b.len() <= a.len(),
        a.take(b.len() as int) == b,
        0 <= i < b.len(),
    ensures
        a[i] == b[i],
{
    assert(a.take(b.len() as int)[i] == a[i]);
}

/// The number of key registry chunks of the first `n` slots.
pub open spec fn key_chunk_count(n: int) -> int {
    (n + 3) / 4
}

impl Gnome {
    /// Answers a joining neighbor's sync request: the neighbor starts a new
    /// round at the gnome's time, and gets, in this order, the swarm's state
    /// with the last chunk of the key registry, the other key chunks from the
    /// second last on, and, as asked, the capability and policy chunks from
    /// the last on, the broadcasts and the multicasts. `chill_phase` is how
    /// long the swarm still rests, in milliseconds.
    #[verifier::spinoff_prover]
    #[verifier::rlimit(80)]
    pub fn send_sync_responses(
        &self,
        sync_key_reg: bool,
        sync_capability: bool,
        sync_policy: bool,
        sync_broadcast: bool,
        sync_multicast: bool,
        chill_phase: u16,
        neighbor: &mut Neighbor,
    ) -> (res: Vec<NeighborResponse>)
        requires
            key_chunk_count(used_prefix_len(self.swarm.key_reg@)) <= 256,
            forall|k: int| 0 <= k < self.swarm.policy_reg@.len() ==> requirement_size((#[trigger] self.swarm.policy_reg@[k]).1) <= 255,
        ensures
            *final(neighbor) == (Neighbor {
                round_start: self.swarm_time,
                header: Header::Sync,
                payload: Payload::KeepAlive(old(neighbor).available_bandwith),
                prev_neighborhood: None,
                neighborhood: Neighborhood(0),
                ..*old(neighbor)
            }),
            ({
                let reg = self.swarm.key_reg@;
                let n = used_prefix_len(reg);
                let kc = if sync_key_reg { key_chunk_count(n) } else { 0 };
                let nk = if kc > 1 { kc - 1 } else { 0 };
                let caps = capability_chunks_of(self.swarm.capability_reg@);
                let pols = policy_chunks_of(self.swarm.policy_reg@);
                let nc = if sync_capability { caps.len() as int } else { 0 };
                let np = if sync_policy { pols.len() as int } else { 0 };
                let nb = if sync_broadcast { 1int } else { 0 };
                let nm = if sync_multicast { 1int } else { 0 };
                &&& res@.len() == 1 + nk + nc + np + nb + nm
                &&& res@[0] matches NeighborResponse::SwarmSync(r) && {
                    &&& r.chill_phase == chill_phase
                    &&& r.founder == self.swarm.name.founder
                    &&& r.swarm_time == self.swarm_time
                    &&& r.round_start == self.round_start
                    &&& r.swarm_type == self.swarm.swarm_type
                    &&& r.key_reg_size == self.swarm.key_reg.size_spec()
                    &&& r.capability_size == self.swarm.capability_reg@.len() % 256
                    &&& r.policy_size == self.swarm.policy_reg@.len() % 256
                    &&& r.broadcast_size == self.swarm.active_broadcasts@.len() % 256
                    &&& r.multicast_size == self.swarm.active_multicasts@.len() % 256
                    &&& r.more_key_reg_messages == (kc > 1)
                    &&& slots_view(r.key_reg_pairs@) == if kc > 0 { key_chunk(reg, n, kc - 1) } else { Seq::empty() }
                }
                &&& forall|k: int| 0 <= k < nk ==> (#[trigger] res@[1 + k] matches NeighborResponse::KeyRegistrySync(a, b, v)
                    && a == k + 1 && b == nk && slots_view(v@) == key_chunk(reg, n, nk - 1 - k))
                &&& forall|k: int| 0 <= k < nc ==> (#[trigger] res@[1 + nk + k] matches NeighborResponse::CapabilitySync(a, b, v)
                    && a == (k + 1) % 256 && b == nc % 256 && cap_pairs_view(v@) == caps[nc - 1 - k])
                &&& forall|k: int| 0 <= k < np ==> (#[trigger] res@[1 + nk + nc + k] matches NeighborResponse::PolicySync(a, b, v)
                    && a == (k + 1) % 256 && b == np % 256 && v@ == pols[np - 1 - k])
                &&& sync_broadcast ==> (res@[1 + nk + nc + np] matches NeighborResponse::BroadcastSync(a, b, v) && a == 1 && b == 1
                    && (self.swarm.active_broadcasts@.len() % 256 == 0 ==> v@.len() == 0)
                    && (self.swarm.active_broadcasts@.len() % 256 != 0 ==> v@.len() == self.swarm.active_broadcasts@.len()
                        && forall|i: int| 0 <= i < v@.len() ==> #[trigger] v@[i] == (self.swarm.active_broadcasts@[i].0, self.swarm.active_broadcasts@[i].1.origin)))
                &&& sync_multicast ==> (res@[1 + nk + nc + np + nb] matches NeighborResponse::MulticastSync(a, b, v) && a == 1 && b == 1
                    && (self.swarm.active_multicasts@.len() % 256 == 0 ==> v@.len() == 0)
                    && (self.swarm.active_multicasts@.len() % 256 != 0 ==> v@.len() == self.swarm.active_multicasts@.len()
                        && forall|i: int| 0 <= i < v@.len() ==> #[trigger] v@[i] == (self.swarm.active_multicasts@[i].0, self.swarm.active_multicasts@[i].1.origin)))
            }),
    {
        let b_count = self.swarm.broadcasts_count();
        let m_count = self.swarm.multicasts_count();
        let ghost reg = self.swarm.key_reg@;
        let ghost n = used_prefix_len(reg);
        let mut remaining: Vec<Vec<(GnomeId, Vec<u8>)>> = Vec::new();
        let mut first_chunk: Vec<(GnomeId, Vec<u8>)> = Vec::new();
        let mut more_keys = false;
        if sync_key_reg {
            let mut chunks = self.swarm.key_reg.chunks();
            let ghost all = chunks@;
            proof {
                assert(forall|c: int| 0 <= c < all.len() ==> #[trigger] slots_view(all[c]@) == all.map_values(|v: Vec<(GnomeId, Vec<u8>)>| slots_view(v@))[c]);
            }
            more_keys = chunks.len() > 1;
            if let Some(last) = chunks.pop() {
                first_chunk = last;
            }
            remaining = chunks;
            proof {
                assert forall|c: int| 0 <= c < remaining@.len() implies #[trigger] slots_view(remaining@[c]@) == key_chunk(reg, n, c) by {
                    assert(remaining@[c] == all[c]);
                    assert(slots_view(all[c]@) == all.map_values(|v: Vec<(GnomeId, Vec<u8>)>| slots_view(v@))[c]);
                }
                if all.len() > 0 {
                    assert(slots_view(first_chunk@) == all.map_values(|v: Vec<(GnomeId, Vec<u8>)>| slots_view(v@))[all.len() - 1]);
                } else {
                    assert(first_chunk@ =~= Seq::<(GnomeId, Vec<u8>)>::empty());
                    assert(slots_view(first_chunk@) =~= Seq::<Slot>::empty());
                }
            }
        } else {
            proof {
                assert(slots_view(first_chunk@) =~= Seq::<Slot>::empty());
            }
        }
        let cap_n = self.swarm.capability_reg.len() % 256;
        let pol_n = self.swarm.policy_reg.len() % 256;
        let sync_response = SwarmSyncResponse {
            chill_phase,
            founder: self.swarm.name.founder,
            swarm_time: self.swarm_time,
            round_start: self.round_start,
            swarm_type: self.swarm.swarm_type,
            key_reg_size: self.swarm.key_reg.byte(),
            capability_size: cap_n as u8,
            policy_size: pol_n as u8,
            broadcast_size: b_count,
            multicast_size: m_count,
            more_key_reg_messages: more_keys,
            key_reg_pairs: first_chunk,
        };
        let mut responses: Vec<NeighborResponse> = Vec::new();
        responses.push(NeighborResponse::SwarmSync(sync_response));
        let ghost first = responses@[0];
        neighbor.start_new_round(self.swarm_time);
        let ghost after_first = responses@;
        let ghost rem = remaining@;
        push_key_batches(&mut responses, remaining);
        let ghost after_keys = responses@;
        proof {
            assert(responses@[0] == after_first.take(1)[0]);
        }
        if sync_capability {
            let chunks = self.swarm.capabilities_chunks();
            proof {
                assert forall|c: int| 0 <= c < chunks@.len() implies #[trigger] cap_pairs_view(chunks@[c]@) == capability_chunks_of(self.swarm.capability_reg@)[c] by {
                    assert(crate::swarm::cap_chunks_view(chunks@)[c] == cap_pairs_view(chunks@[c]@));
                }
            }
            push_capability_chunks(&mut responses, chunks);
        }
        let ghost after_caps = responses@;
        assert(after_caps.take(after_keys.len() as int) =~= after_keys);
        if sync_policy {
            let chunks = self.swarm.policy_chunks();
            proof {
                assert forall|c: int| 0 <= c < chunks@.len() implies #[trigger] chunks@[c]@ == policy_chunks_of(self.swarm.policy_reg@)[c] by {
                    assert(crate::swarm::policy_chunks_view(chunks@)[c] == chunks@[c]@);
                }
            }
            push_policy_chunks(&mut responses, chunks);
        }
        let ghost after_pols = responses@;
        assert(after_pols.take(after_caps.len() as int) =~= after_caps);
        if sync_broadcast {
            let b_casts = if b_count == 0 {
                Vec::new()
            } else {
                self.swarm.broadcast_ids()
            };
            responses.push(NeighborResponse::BroadcastSync(1, 1, b_casts));
        }
        let ghost after_b = responses@;
        assert(after_b.take(after_pols.len() as int) =~= after_pols);
        if sync_multicast {
            let m_casts = if m_count == 0 {
                Vec::new()
            } else {
                self.swarm.multicast_ids()
            };
            responses.push(NeighborResponse::MulticastSync(1, 1, m_casts));
        }
        assert(responses@.take(after_b.len() as int) =~= after_b);
        proof {
            assert(responses@[0] == first) by {
                assert(after_pols.take(after_caps.len() as int)[0] == after_caps[0]);
                assert(after_caps.take(after_keys.len() as int)[0] == after_keys[0]);
            }
            let reg = self.swarm.key_reg@;
            let n = used_prefix_len(reg);
            let kc = if sync_key_reg { key_chunk_count(n) } else { 0 };
            let nk = if kc > 1 { kc - 1 } else { 0 };
            let caps = capability_chunks_of(self.swarm.capability_reg@);
            let pols = policy_chunks_of(self.swarm.policy_reg@);
            let nc = if sync_capability { caps.len() as int } else { 0 };
            let np = if sync_policy { pols.len() as int } else { 0 };
            let nb = if sync_broadcast { 1int } else { 0 };
            let nm = if sync_multicast { 1int } else { 0 };
            assert forall|k: int| 0 <= k < nk implies (#[trigger] responses@[1 + k] matches NeighborResponse::KeyRegistrySync(a, b, v)
                && a == k + 1 && b == nk && slots_view(v@) == key_chunk(reg, n, nk - 1 - k)) by {
                lemma_take_index(after_caps, after_keys, 1 + k);
                lemma_take_index(after_pols, after_caps, 1 + k);
                lemma_take_index(after_b, after_pols, 1 + k);
                lemma_take_index(responses@, after_b, 1 + k);
                assert(after_keys[1 + k] == NeighborResponse::KeyRegistrySync((k + 1) as u8, rem.len() as u8, rem[rem.len() - 1 - k]));
            }
            assert forall|k: int| 0 <= k < nc implies (#[trigger] responses@[1 + nk + k] matches NeighborResponse::CapabilitySync(a, b, v)
                && a == (k + 1) % 256 && b == nc % 256 && cap_pairs_view(v@) == caps[nc - 1 - k]) by {
                lemma_take_index(after_pols, after_caps, 1 + nk + k);
                lemma_take_index(after_b, after_pols, 1 + nk + k);
                lemma_take_index(responses@, after_b, 1 + nk + k);
            }
            assert forall|k: int| 0 <= k < np implies (#[trigger] responses@[1 + nk + nc + k] matches NeighborResponse::PolicySync(a, b, v)
                && a == (k + 1) % 256 && b == np % 256 && v@ == pols[np - 1 - k]) by {
                lemma_take_index(after_b, after_pols, 1 + nk + nc + k);
                lemma_take_index(responses@, after_b, 1 + nk + nc + k);
            }
            if sync_broadcast {
                lemma_take_index(responses@, after_b, 1 + nk + nc + np);
            }
        }
        responses
    }
}

fn push_key_batches(responses: &mut Vec<NeighborResponse>, remaining: Vec<Vec<(GnomeId, Vec<u8>)>>)
    requires
        remaining@.len() <= 255,
    ensures
        final(responses)@.len() == old(responses)@.len() + remaining@.len(),
        final(responses)@.take(old(responses)@.len() as int) == old(responses)@,
        forall|k: int| 0 <= k < remaining@.len() ==> #[trigger] final(responses)@[old(responses)@.len() + k]
            == NeighborResponse::KeyRegistrySync((k + 1) as u8, remaining@.len() as u8, remaining@[remaining@.len() - 1 - k]),
{
    let total = remaining.len();
    let ghost all = remaining@;
    let ghost start = responses@;
    let mut remaining = remaining;
    let mut i: usize = 0;
    while remaining.len() > 0
        invariant
            total == all.len(),
            total <= 255,
            i + remaining@.len() == total,
            remaining@ == all.take(remaining@.len() as int),
            responses@.len() == start.len() + i,
            responses@.take(start.len() as int) == start,
            forall|k: int| 0 <= k < i ==> #[trigger] responses@[start.len() + k]
                == NeighborResponse::KeyRegistrySync((k + 1) as u8, total as u8, all[total - 1 - k]),
        decreases remaining@.len(),
    {
        let ghost before = responses@;
        let batch = remaining.pop().unwrap();
        proof {
            assert(remaining@ =~= all.take(remaining@.len() as int));
        }
        responses.push(NeighborResponse::KeyRegistrySync((i + 1) as u8, total as u8, batch));
        proof {
            assert(responses@.take(start.len() as int) =~= before.take(start.len() as int));
        }
        i = i + 1;
    }
}

fn push_capability_chunks(responses: &mut Vec<NeighborResponse>, chunks: Vec<Vec<(Capabilities, Vec<GnomeId>)>>)
    ensures
        final(responses)@.len() == old(responses)@.len() + chunks@.len(),
        final(responses)@.take(old(responses)@.len() as int) == old(responses)@,
        forall|k: int| 0 <= k < chunks@.len() ==> #[trigger] final(responses)@[old(responses)@.len() + k]
            == NeighborResponse::CapabilitySync(((k + 1) % 256) as u8, (chunks@.len() % 256) as u8, chunks@[chunks@.len() - 1 - k]),
{
    let total = chunks.len();
    let ghost all = chunks@;
    let ghost start = responses@;
    let mut chunks = chunks;
    let mut i: usize = 0;
    while chunks.len() > 0
        invariant
            total == all.len(),
            i + chunks@.len() == total,
            chunks@ == all.take(chunks@.len() as int),
            responses@.len() == start.len() + i,
            responses@.take(start.len() as int) == start,
            forall|k: int| 0 <= k < i ==> #[trigger] responses@[start.len() + k]
                == NeighborResponse::CapabilitySync(((k + 1) % 256) as u8, (total % 256) as u8, all[total - 1 - k]),
        decreases chunks@.len(),
    {
        let ghost before = responses@;
        let chunk = chunks.pop().unwrap();
        proof {
            assert(chunks@ =~= all.take(chunks@.len() as int));
        }
        responses.push(NeighborResponse::CapabilitySync(((i + 1) % 256) as u8, (total % 256) as u8, chunk));
        proof {
            assert(responses@.take(start.len() as int) =~= before.take(start.len() as int));
        }
        i = i + 1;
    }
}

fn push_policy_chunks(responses: &mut Vec<NeighborResponse>, chunks: Vec<Vec<(Policy, Requirement)>>)
    ensures
        final(responses)@.len() == old(responses)@.len() + chunks@.len(),
        final(responses)@.take(old(responses)@.len() as int) == old(responses)@,
        forall|k: int| 0 <= k < chunks@.len() ==> #[trigger] final(responses)@[old(responses)@.len() + k]
            == NeighborResponse::PolicySync(((k + 1) % 256) as u8, (chunks@.len() % 256) as u8, chunks@[chunks@.len() - 1 - k]),
{
    let total = chunks.len();
    let ghost all = chunks@;
    let ghost start = responses@;
    let mut chunks = chunks;
    let mut i: usize = 0;
    while chunks.len() > 0
        invariant
            total == all.len(),
            i + chunks@.len() == total,
            chunks@ == all.take(chunks@.len() as int),
            responses@.len() == start.len() + i,
            responses@.take(start.len() as int) == start,
            forall|k: int| 0 <= k < i ==> #[trigger] responses@[start.len() + k]
                == NeighborResponse::PolicySync(((k + 1) % 256) as u8, (total % 256) as u8, all[total - 1 - k]),
        decreases chunks@.len(),
    {
        let ghost before = responses@;
        let chunk = chunks.pop().unwrap();
        proof {
            assert(chunks@ =~= all.take(chunks@.len() as int));
        }
        responses.push(NeighborResponse::PolicySync(((i + 1) % 256) as u8, (total % 256) as u8, chunk));
        proof {
            assert(responses@.take(start.len() as int) =~= before.take(start.len() as int));
        }
        i = i + 1;
    }
}


/// The shortest pause between two passes of a gnome's loop, in nanoseconds.
pub const MIN_SLEEP_NSEC: u64 = 128;

/// The longest pause between two passes of a gnome's loop, in nanoseconds.
pub const MAX_SLEEP_NSEC: u64 = 67108864;

/// The next pause of a gnome's loop: a quarter of the last after a busy
/// pass, twice the last after an idle one, within the bounds.
pub fn adjust_sleep(sleep_nsec: u64, busy: bool) -> (res: u64)
    requires
        MIN_SLEEP_NSEC <= sleep_nsec <= MAX_SLEEP_NSEC,
    ensures
        MIN_SLEEP_NSEC <= res <= MAX_SLEEP_NSEC,
        busy ==> res == (if sleep_nsec / 4 < MIN_SLEEP_NSEC { MIN_SLEEP_NSEC as int } else { (sleep_nsec / 4) as int }),
        !busy ==> res == (if sleep_nsec * 2 > MAX_SLEEP_NSEC { MAX_SLEEP_NSEC as int } else { sleep_nsec * 2 }),
{
    if busy {
        let s = sleep_nsec >> 2u64;
        assert(s == sleep_nsec / 4) by (bit_vector)
            requires
                s == sleep_nsec >> 2u64,
        ;
        if s < MIN_SLEEP_NSEC {
            MIN_SLEEP_NSEC
        } else {
            s
        }
    } else {
        let s = sleep_nsec << 1u64;
        assert(s == sleep_nsec * 2) by (bit_vector)
            requires
                s == sleep_nsec << 1u64,
                sleep_nsec <= 67108864,
        ;
        if s > MAX_SLEEP_NSEC {
            MAX_SLEEP_NSEC
        } else {
            s
        }
    }
}

/// What a pass of a gnome's loop does about the turn.
#[derive(Clone, Copy, Debug, PartialEq, Eq, Structural)]
pub enum TurnDecision {
    /// Move to the next turn and announce it.
    Advance,
    /// The turn timed out with no neighbor answering.
    Silent,
    /// Keep waiting.
    Wait,
}

/// The turn decision of a pass: a turn ends when the neighbors were heard,
/// when something must go out at once, or when it times out with someone to
/// hear from. How the neighbor lists change at the turn's end is decided
/// after the turn's state is updated, by `Gnome::arrange_neighbors`.
pub fn decide_turn(
    advance_to_next_turn: bool,
    send_immediate: bool,
    timeout: bool,
    have_responsive_neighbors: bool,
) -> (res: TurnDecision)
    ensures
        (advance_to_next_turn || send_immediate || timeout && have_responsive_neighbors) ==> res
            == TurnDecision::Advance,
        !(advance_to_next_turn || send_immediate || timeout && have_responsive_neighbors) && timeout
            ==> res == TurnDecision::Silent,
        !(advance_to_next_turn || send_immediate || timeout) ==> res == TurnDecision::Wait,
{
    if advance_to_next_turn || send_immediate || timeout && have_responsive_neighbors {
        TurnDecision::Advance
    } else if timeout && !have_responsive_neighbors {
        TurnDecision::Silent
    } else {
        TurnDecision::Wait
    }
}

/// Counts one more silent timeout: at the fifth in a row the count starts
/// over and the gnome gives up.
pub fn count_silence(loops_with_no_reply: u8) -> (res: (u8, bool))
    requires
        loops_with_no_reply < 5,
    ensures
        loops_with_no_reply + 1 >= 5 ==> res == (0u8, true),
        loops_with_no_reply + 1 < 5 ==> res == ((loops_with_no_reply + 1) as u8, false),
{
    let n = loops_with_no_reply + 1;
    if n >= 5 {
        (0, true)
    } else {
        (n, false)
    }
}

impl Gnome {
    /// A new proposal ends chilling at once, and then the gnome sends
    /// without waiting.
    pub fn note_new_proposal(&mut self, new_proposal: bool)
        ensures
            new_proposal ==> !final(self).chill_out && final(self).send_immediate
                == (old(self).send_immediate || old(self).chill_out),
            !new_proposal ==> *final(self) == *old(self),
            *final(self) == (Gnome {
                chill_out: final(self).chill_out,
                send_immediate: final(self).send_immediate,
                ..*old(self)
            }),
    {
        if new_proposal {
            if self.chill_out {
                self.send_immediate = true;
            }
            self.chill_out = false;
        }
    }

    /// Chilling is over: the gnome sends at once.
    pub fn end_chill(&mut self)
        ensures
            *final(self) == (Gnome { chill_out: false, send_immediate: true, ..*old(self) }),
    {
        self.chill_out = false;
        self.send_immediate = true;
    }
}

/// The proposal that a block or reconfiguration payload carries.
pub open spec fn proposal_of(p: Payload) -> Proposal {
    match p {
        Payload::Block(id, _s, d) => Proposal::Block(id, d),
        Payload::Reconfigure(_s, c) => Proposal::Config(c),
        _ => arbitrary(),
    }
}

fn same_bytes(a: &Vec<u8>, b: &Vec<u8>) -> (res: bool)
    ensures
        res == (a@ == b@),
{
    if a.len() != b.len() {
        return false;
    }
    let mut i: usize = 0;
    while i < a.len()
        invariant
            i <= a@.len(),
            a@.len() == b@.len(),
            forall|k: int| 0 <= k < i ==> a@[k] == b@[k],
        decreases a@.len() - i,
    {
        if a[i] != b[i] {
            return false;
        }
        i = i + 1;
    }
    assert(a@ =~= b@);
    true
}

fn same_config(a: &Configuration, b: &Configuration) -> (res: bool)
    ensures
        res == config_same(*a, *b),
{
    match (a, b) {
        (Configuration::StartBroadcast(g1, c1), Configuration::StartBroadcast(g2, c2)) => g1 == g2 && c1 == c2,
        (Configuration::ChangeBroadcastOrigin(g1, c1), Configuration::ChangeBroadcastOrigin(g2, c2)) => g1 == g2 && c1 == c2,
        (Configuration::EndBroadcast(c1), Configuration::EndBroadcast(c2)) => c1 == c2,
        (Configuration::StartMulticast(g1, c1), Configuration::StartMulticast(g2, c2)) => g1 == g2 && c1 == c2,
        (Configuration::ChangeMulticastOrigin(g1, c1), Configuration::ChangeMulticastOrigin(g2, c2)) => g1 == g2 && c1 == c2,
        (Configuration::EndMulticast(c1), Configuration::EndMulticast(c2)) => c1 == c2,
        (Configuration::CreateGroup, Configuration::CreateGroup) => true,
        (Configuration::DeleteGroup, Configuration::DeleteGroup) => true,
        (Configuration::ModifyGroup, Configuration::ModifyGroup) => true,
        (Configuration::InsertPubkey(g1, k1), Configuration::InsertPubkey(g2, k2)) => {
            *g1 == *g2 && same_bytes(k1, k2)
        },
        (Configuration::UserDefined(x), Configuration::UserDefined(y)) => x == y,
        _ => false,
    }
}

fn same_signature(a: &Signature, b: &Signature) -> (res: bool)
    ensures
        res == signature_same(*a, *b),
{
    match (a, b) {
        (Signature::Regular(g1, s1), Signature::Regular(g2, s2)) => *g1 == *g2 && same_bytes(s1, s2),
        (Signature::Extended(g1, k1, s1), Signature::Extended(g2, k2, s2)) => *g1 == *g2 && same_bytes(k1, k2)
            && same_bytes(s1, s2),
        _ => false,
    }
}

fn same_payload(a: &Payload, b: &Payload) -> (res: bool)
    ensures
        res == payload_same(*a, *b),
{
    match (a, b) {
        (Payload::KeepAlive(x), Payload::KeepAlive(y)) => *x == *y,
        (Payload::Bye, Payload::Bye) => true,
        (Payload::Reconfigure(s1, c1), Payload::Reconfigure(s2, c2)) => same_signature(s1, s2) && same_config(c1, c2),
        (Payload::Block(i1, s1, d1), Payload::Block(i2, s2, d2)) => *i1 == *i2 && same_signature(s1, s2)
            && same_bytes(d1.ref_bytes(), d2.ref_bytes()),
        _ => false,
    }
}

impl Gnome {
    /// After a round, the gnome's own proposal of it, signed anew as `header`
    /// and `payload`, goes back to be proposed next, unless it is the message
    /// the swarm accepted.
    pub fn requeue_unless_accepted(&mut self, header: Header, payload: Payload)
        requires
            payload is Block || payload is Reconfigure,
        ensures
            ({
                let last = old(self).next_state.last_accepted_message;
                let accepted = header == last.header && payload_same(payload, last.payload);
                &&& accepted ==> *final(self) == *old(self)
                &&& !accepted ==> final(self).proposals@ == old(self).proposals@.push(proposal_of(payload))
            }),
            *final(self) == (Gnome { proposals: final(self).proposals, ..*old(self) }),
    {
        let accepted = header == self.next_state.last_accepted_message.header && same_payload(
            &payload,
            &self.next_state.last_accepted_message.payload,
        );
        if !accepted {
            self.proposals.push_back(Proposal::new(payload));
        }
    }
}

} // verus!
