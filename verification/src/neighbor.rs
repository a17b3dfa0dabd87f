use vstd::prelude::*;

use crate::capabilities::Capabilities;
use crate::data::CastData;
use crate::gnome::{GnomeId, NetworkSettings};
use crate::key_registry::{registry_get, KeyRegistry};
use crate::message::{payload_same, Header, Message, Payload, Signature};
use crate::policy::Policy;
use crate::requirement::Requirement;
use crate::multicast::CastType;
use crate::swarm::{SwarmID, SwarmName, SwarmTime, SwarmType};
use crate::CastID;
use std::collections::VecDeque;

verus! {

/// How many turns in a row a gnome has seen its neighbors agree.
#[derive(Clone, Copy, Debug, PartialEq, Eq, Structural)]
pub struct Neighborhood(pub u8);

impl Neighborhood {
    pub fn inc(&self) -> (res: Self)
        requires
            self.0 < 255,
        ensures
            res.0 == self.0 + 1,
    {
        Neighborhood(self.0 + 1)
    }
}

/// Which parts of a swarm's state a joining gnome asks for.
#[derive(Clone, Copy, Debug, PartialEq, Eq, Structural)]
pub struct SwarmSyncRequestParams {
    pub sync_key_reg: bool,
    pub sync_capability: bool,
    pub sync_policy: bool,
    pub sync_broadcast: bool,
    pub sync_multicast: bool,
}

/// What a gnome tells a joining neighbor about its swarm.
#[derive(Clone, Debug, PartialEq, Eq)]
pub struct SwarmSyncResponse {
    pub chill_phase: u16,
    pub founder: GnomeId,
    pub swarm_time: SwarmTime,
    pub round_start: SwarmTime,
    pub swarm_type: SwarmType,
    pub key_reg_size: u8,
    pub capability_size: u8,
    pub policy_size: u8,
    pub broadcast_size: u8,
    pub multicast_size: u8,
    pub more_key_reg_messages: bool,
    pub key_reg_pairs: Vec<(GnomeId, Vec<u8>)>,
}

/// A request one gnome sends to a neighbor outside of the swarm's turns.
#[derive(Clone, Debug, PartialEq, Eq)]
pub enum NeighborRequest {
    UnicastRequest(SwarmID, Box<[CastID; 256]>),
    ForwardConnectRequest(NetworkSettings),
    ConnectRequest(u8, GnomeId, NetworkSettings),
    SwarmSyncRequest(SwarmSyncRequestParams),
    SubscribeRequest(bool, CastID),
    UnsubscribeRequest(bool, CastID),
    SourceDrained(bool, CastID),
    CreateNeighbor(GnomeId, SwarmName),
    SwarmJoinedInfo(SwarmName),
    Custom(u8, CastData),
}

/// The answer to a `NeighborRequest`.
#[derive(Clone, Debug, PartialEq, Eq)]
pub enum NeighborResponse {
    BroadcastSync(u8, u8, Vec<(CastID, GnomeId)>),
    MulticastSync(u8, u8, Vec<(CastID, GnomeId)>),
    Unicast(SwarmID, CastID),
    ForwardConnectResponse(NetworkSettings),
    ForwardConnectFailed,
    ConnectResponse(u8, NetworkSettings),
    AlreadyConnected(u8),
    SwarmSync(SwarmSyncResponse),
    KeyRegistrySync(u8, u8, Vec<(GnomeId, Vec<u8>)>),
    CapabilitySync(u8, u8, Vec<(Capabilities, Vec<GnomeId>)>),
    PolicySync(u8, u8, Vec<(Policy, Requirement)>),
    Subscribed(bool, CastID, GnomeId, Option<GnomeId>),
    Custom(u8, CastData),
}

/// What a gnome knows of one of its neighbors: the last message it accepted
/// from it, what it last sent to it, and the requests between the two.
pub struct Neighbor {
    pub id: GnomeId,
    pub round_start: SwarmTime,
    pub swarm_time: SwarmTime,
    pub swarm_diameter: SwarmTime,
    pub neighborhood: Neighborhood,
    pub prev_neighborhood: Option<Neighborhood>,
    pub header: Header,
    pub payload: Payload,
    pub user_requests: VecDeque<NeighborRequest>,
    pub requests: VecDeque<NeighborRequest>,
    pub requested_data: VecDeque<NeighborResponse>,
    pub gnome_header: Header,
    pub gnome_neighborhood: Neighborhood,
    pub available_bandwith: u64,
    pub member_of_swarms: Vec<SwarmName>,
    pub timeouts: [u8; 8],
    pub new_message_recieved: bool,
}

/// How far `later` is from `earlier` on the swarm clock, which wraps around.
pub open spec fn time_since(later: u32, earlier: u32) -> int {
    if later >= earlier {
        later - earlier
    } else {
        later + 0x1_0000_0000 - earlier
    }
}

/// Whether a message at `st` in neighborhood `nh` under header `h` fits what
/// the gnome knows of neighbor `n`: time does not go back, a neighborhood
/// grows by at most one over what the gnome itself announced, a neighbor does
/// not linger on one neighborhood, and a new proposal is neither backdated
/// nor a step down.
pub open spec fn sanity_ok(n: Neighbor, st: SwarmTime, nh: Neighborhood, h: Header) -> bool {
    if n.swarm_time.0 > st.0 {
        false
    } else {
        let hood_inc_limited = if n.gnome_header == h {
            nh.0 <= n.gnome_neighborhood.0 + 1
        } else {
            true
        };
        if n.header == h {
            let hood_increased = match n.prev_neighborhood {
                Some(prev) => if nh.0 == 0 && n.neighborhood.0 + 1 >= n.swarm_diameter.0 {
                    true
                } else {
                    nh.0 > prev.0 || nh.0 > n.neighborhood.0
                },
                None => true,
            };
            hood_increased && hood_inc_limited
        } else {
            let no_backdating = time_since(st.0, n.round_start.0) < 2 * n.swarm_diameter.0;
            match n.header {
                Header::Block(id) => match h {
                    Header::Block(new_id) => new_id.0 >= id.0 && no_backdating && hood_inc_limited,
                    _ => false,
                },
                Header::Reconfigure(ct, gid) => match h {
                    Header::Block(_id) => no_backdating && hood_inc_limited,
                    Header::Reconfigure(new_ct, new_gid) => if new_ct > ct || new_gid.0 > gid.0 {
                        no_backdating
                    } else {
                        no_backdating && hood_inc_limited
                    },
                    Header::Sync => false,
                },
                Header::Sync => no_backdating && hood_inc_limited,
            }
        }
    }
}

/// A block proposal from a neighbor that was on another header passes the
/// sanity check exactly where it is not older than the neighbor's time, not
/// backdated by two swarm diameters or more since the neighbor's round
/// started, at most one neighborhood above what the gnome announced under
/// that block, and, where the neighbor was on a block, not a lower block.
/// A neighbor that was on a reconfiguration or on sync may so move on to any
/// block.
pub proof fn lemma_block_proposal_sanity(n: Neighbor, st: SwarmTime, nh: Neighborhood, id: crate::message::BlockID)
    requires
        n.header != Header::Block(id),
    ensures
        sanity_ok(n, st, nh, Header::Block(id)) == {
            &&& n.swarm_time.0 <= st.0
            &&& (if st.0 >= n.round_start.0 {
                st.0 - n.round_start.0
            } else {
                st.0 + 0x1_0000_0000 - n.round_start.0
            }) < 2 * n.swarm_diameter.0
            &&& n.gnome_header == Header::Block(id) ==> nh.0 <= n.gnome_neighborhood.0 + 1
            &&& n.header matches Header::Block(prev) ==> id.0 >= prev.0
        },
{
}

/// A message under a new reconfiguration header from a neighbor that was on
/// another header: it never follows a block, and otherwise passes where it
/// is not older than the neighbor's time and not backdated; at most one
/// neighborhood above the gnome's own announcement is asked only where the
/// neighbor was on sync or on a reconfiguration that is not below it.
pub proof fn lemma_reconfigure_proposal_sanity(n: Neighbor, st: SwarmTime, nh: Neighborhood, ct: u8, gid: GnomeId)
    requires
        n.header != Header::Reconfigure(ct, gid),
    ensures
        sanity_ok(n, st, nh, Header::Reconfigure(ct, gid)) == {
            &&& n.swarm_time.0 <= st.0
            &&& !(n.header is Block)
            &&& (if st.0 >= n.round_start.0 {
                st.0 - n.round_start.0
            } else {
                st.0 + 0x1_0000_0000 - n.round_start.0
            }) < 2 * n.swarm_diameter.0
            &&& !(n.header matches Header::Reconfigure(pct, pgid) && (ct > pct || gid.0 > pgid.0))
                ==> (n.gnome_header == Header::Reconfigure(ct, gid) ==> nh.0 <= n.gnome_neighborhood.0 + 1)
        },
{
}

/// A neighbor never steps back to sync: a sync message from a neighbor that
/// was on a block or a reconfiguration fails the sanity check.
pub proof fn lemma_no_step_back_to_sync(n: Neighbor, st: SwarmTime, nh: Neighborhood)
    requires
        n.header != Header::Sync,
    ensures
        !sanity_ok(n, st, nh, Header::Sync),
{
}

/// A message older than what the gnome last heard from the neighbor never
/// passes the sanity check.
pub proof fn lemma_older_message_fails(n: Neighbor, st: SwarmTime, nh: Neighborhood, h: Header)
    requires
        st.0 < n.swarm_time.0,
    ensures
        !sanity_ok(n, st, nh, h),
{
}

/// The sanity check of a message at `st` in neighborhood `nh` under header `h`
/// computes without overflow: each neighborhood it adds one to is below 255,
/// and twice the swarm diameter fits in 32 bits where it is needed.
pub open spec fn sanity_computable(n: Neighbor, st: SwarmTime, nh: Neighborhood, h: Header) -> bool {
    n.swarm_time.0 <= st.0 ==> {
        &&& n.gnome_header == h ==> n.gnome_neighborhood.0 < 255
        &&& (n.header == h && n.prev_neighborhood is Some && nh.0 == 0) ==> n.neighborhood.0 < 255
        &&& n.header != h ==> 2 * n.swarm_diameter.0 <= u32::MAX
    }
}

/// Where a message leaves the header a gnome knows of its neighbor `n`: the
/// new header, the previous neighborhood, whether it is a new proposal, and
/// whether the gnome stops reading that neighbor for this turn.
pub open spec fn header_step(n: Neighbor, nh: Neighborhood, h: Header) -> (
    Header,
    Option<Neighborhood>,
    bool,
    bool,
) {
    let kept_prev = if nh.0 > 0 {
        Some(n.neighborhood)
    } else {
        None
    };
    match h {
        Header::Sync => if n.header == Header::Sync {
            (Header::Sync, kept_prev, false, false)
        } else {
            (Header::Sync, None, false, false)
        },
        Header::Reconfigure(new_ct, new_gid) => match n.header {
            Header::Reconfigure(ct, gid) => if new_ct > ct || new_gid.0 > gid.0 {
                (h, None, true, false)
            } else {
                (n.header, kept_prev, false, false)
            },
            _ => (h, None, true, false),
        },
        Header::Block(id) => match n.header {
            Header::Block(current_id) => if current_id == id {
                (n.header, Some(n.neighborhood), false, true)
            } else {
                (h, None, true, true)
            },
            _ => (h, None, true, false),
        },
    }
}

/// The payload a gnome keeps for its neighbor after a message with payload
/// `p` under the (already updated) header `h`.
pub open spec fn payload_step(old_payload: Payload, h: Header, p: Payload) -> Payload {
    match p {
        Payload::Block(block_id, _s, _d) => match h {
            Header::Block(id) => if id == block_id {
                p
            } else {
                old_payload
            },
            _ => old_payload,
        },
        Payload::Reconfigure(_s, _c) => p,
        _ => old_payload,
    }
}

/// What the gnome knows of neighbor `n` after accepting message `m`, which
/// passed the sanity check.
pub open spec fn accepted_state(n: Neighbor, m: Message) -> Neighbor {
    let (h, prev, _np, _fb) = header_step(n, m.neighborhood, m.header);
    Neighbor {
        swarm_time: m.swarm_time,
        neighborhood: m.neighborhood,
        prev_neighborhood: prev,
        header: h,
        payload: payload_step(n.payload, h, m.payload),
        available_bandwith: match m.payload {
            Payload::KeepAlive(b) => b,
            _ => n.available_bandwith,
        },
        new_message_recieved: true,
        ..n
    }
}

/// A neighbor's time never goes back: a message it passes the sanity check
/// with is at least as late as the last one taken from it, and taking it in
/// moves the neighbor's time to the message's.
pub proof fn lemma_accepted_time_monotone(n: Neighbor, m: Message)
    requires
        sanity_ok(n, m.swarm_time, m.neighborhood, m.header),
    ensures
        accepted_state(n, m).swarm_time == m.swarm_time,
        accepted_state(n, m).swarm_time.0 >= n.swarm_time.0,
        accepted_state(n, m).new_message_recieved,
{
}

/// A header a neighbor announces again is never a step down: where the
/// neighbor's header was a block, a message under another block is accepted
/// only for a block number at least as high.
pub proof fn lemma_block_not_backwards(n: Neighbor, m: Message, id: crate::message::BlockID, new_id: crate::message::BlockID)
    requires
        n.header == Header::Block(id),
        m.header == Header::Block(new_id),
        sanity_ok(n, m.swarm_time, m.neighborhood, m.header),
    ensures
        new_id.0 >= id.0,
{
}

/// How a message from a neighbor is to be handled before anything else.
#[derive(Clone, Copy, Debug, PartialEq, Eq, Structural)]
pub enum Screening {
    /// Older than the last message the swarm accepted: ignored.
    Stale,
    /// The accepted message again, from a neighbor that already saw the swarm
    /// agree: ignored, but for the bandwidth it announces.
    Repeated,
    /// The neighbor leaves.
    Bye,
    /// To be checked and taken in.
    Fresh,
}

/// The screening of message `m` from neighbor `n`, where `last` is the
/// message the swarm accepted last.
pub open spec fn screening(n: Neighbor, last: Message, m: Message) -> Screening {
    if m.swarm_time.0 < last.swarm_time.0 {
        Screening::Stale
    } else if m.header == last.header && m.swarm_time.0 - last.swarm_time.0 <= 2
        && m.neighborhood.0 >= n.swarm_diameter.0 {
        Screening::Repeated
    } else if m.payload is Bye {
        Screening::Bye
    } else {
        Screening::Fresh
    }
}

/// The public key that checks `signature`: the one it carries, or else the
/// one the key registry holds for the signer.
pub open spec fn verification_key_of(signature: Signature, reg: Seq<(u64, Seq<u8>)>) -> Option<
    Seq<u8>,
> {
    match signature {
        Signature::Regular(gid, _s) => registry_get(reg, gid.0),
        Signature::Extended(_gid, key, _s) => Some(key@),
    }
}

/// Which public key to check `signature` with. `None` where the signature
/// carries no key and the registry holds none for its signer: such a
/// signature fails.
pub fn verification_key(signature: &Signature, key_reg: &KeyRegistry) -> (res: Option<Vec<u8>>)
    ensures
        res matches Some(k) ==> verification_key_of(*signature, key_reg@) == Some(k@),
        res is None ==> verification_key_of(*signature, key_reg@) is None,
{
    match signature {
        Signature::Regular(gid, _sign) => key_reg.get(*gid),
        Signature::Extended(_gid, pubkey_bytes, _sign) => Some(pubkey_bytes.clone()),
    }
}

/// Sum of the first `n` timeout counters.
pub open spec fn timeouts_sum(t: Seq<u8>, n: int) -> int
    decreases n,
{
    if n <= 0 {
        0
    } else {
        timeouts_sum(t, n - 1) + t[n - 1]
    }
}

proof fn lemma_timeouts_sum_monotone(t: Seq<u8>, a: int, b: int)
    requires
        0 <= a <= b <= t.len(),
    ensures
        timeouts_sum(t, a) <= timeouts_sum(t, b),
    decreases b - a,
{
    if a < b {
        lemma_timeouts_sum_monotone(t, a, b - 1);
    }
}

impl Neighbor {
    /// A neighbor with `id`, met at `swarm_time`, of which nothing is known yet.
    pub fn from_id_channel_time(
        id: GnomeId,
        swarm_time: SwarmTime,
        swarm_diameter: SwarmTime,
        member_of_swarms: Vec<SwarmName>,
    ) -> (res: Self)
        ensures
            res.id == id,
            res.round_start == SwarmTime(0),
            res.swarm_time == swarm_time,
            res.swarm_diameter == swarm_diameter,
            res.neighborhood == Neighborhood(0),
            res.prev_neighborhood is None,
            res.header == Header::Sync,
            res.payload == Payload::KeepAlive(0),
            res.user_requests@.len() == 0,
            res.requests@.len() == 0,
            res.requested_data@.len() == 0,
            res.gnome_header == Header::Sync,
            res.gnome_neighborhood == Neighborhood(0),
            res.available_bandwith == 1024,
            res.member_of_swarms == member_of_swarms,
            res.timeouts@ == Seq::new(8, |_i: int| 0u8),
            !res.new_message_recieved,
    {
        let res = Neighbor {
            id,
            round_start: SwarmTime(0),
            swarm_time,
            swarm_diameter,
            neighborhood: Neighborhood(0),
            prev_neighborhood: None,
            header: Header::Sync,
            payload: Payload::KeepAlive(0),
            user_requests: VecDeque::new(),
            requests: VecDeque::new(),
            requested_data: VecDeque::new(),
            gnome_header: Header::Sync,
            gnome_neighborhood: Neighborhood(0),
            available_bandwith: 1024,
            member_of_swarms,
            timeouts: [0; 8],
            new_message_recieved: false,
        };
        assert(res.timeouts@ =~= Seq::new(8, |_i: int| 0u8));
        res
    }

    /// Takes over what `neighbor` knows, keeping this neighbor's id, swarms and
    /// timeouts.
    pub fn clone_state(&mut self, neighbor: Neighbor)
        ensures
            *final(self) == (Neighbor {
                id: old(self).id,
                member_of_swarms: old(self).member_of_swarms,
                timeouts: old(self).timeouts,
                ..neighbor
            }),
    {
        self.round_start = neighbor.round_start;
        self.swarm_time = neighbor.swarm_time;
        self.swarm_diameter = neighbor.swarm_diameter;
        self.neighborhood = neighbor.neighborhood;
        self.prev_neighborhood = neighbor.prev_neighborhood;
        self.header = neighbor.header;
        self.payload = neighbor.payload;
        self.user_requests = neighbor.user_requests;
        self.requests = neighbor.requests;
        self.requested_data = neighbor.requested_data;
        self.gnome_header = neighbor.gnome_header;
        self.gnome_neighborhood = neighbor.gnome_neighborhood;
        self.available_bandwith = neighbor.available_bandwith;
        self.new_message_recieved = neighbor.new_message_recieved;
    }

    /// Starts a new round at `swarm_time`: nothing proposed yet.
    pub fn start_new_round(&mut self, swarm_time: SwarmTime)
        ensures
            *final(self) == (Neighbor {
                round_start: swarm_time,
                header: Header::Sync,
                payload: Payload::KeepAlive(old(self).available_bandwith),
                prev_neighborhood: None,
                neighborhood: Neighborhood(0),
                ..*old(self)
            }),
    {
        self.round_start = swarm_time;
        self.header = Header::Sync;
        self.payload = Payload::KeepAlive(self.available_bandwith);
        self.prev_neighborhood = None;
        self.neighborhood = Neighborhood(0);
    }

    /// Records a message received while joining a swarm, as it is.
    pub fn record_received(&mut self, response: &Message)
        ensures
            final(self).header == response.header,
            payload_same(final(self).payload, response.payload),
            final(self).neighborhood == response.neighborhood,
            final(self).swarm_time == response.swarm_time,
            final(self).new_message_recieved,
            *final(self) == (Neighbor {
                header: final(self).header,
                payload: final(self).payload,
                neighborhood: final(self).neighborhood,
                swarm_time: final(self).swarm_time,
                new_message_recieved: true,
                ..*old(self)
            }),
    {
        self.header = response.header;
        self.payload = response.payload.duplicate();
        self.neighborhood = response.neighborhood;
        self.swarm_time = response.swarm_time;
        self.new_message_recieved = true;
    }

    pub fn add_timeout(&mut self)
        requires
            old(self).timeouts[0] < 255,
        ensures
            final(self).timeouts@ == old(self).timeouts@.update(0, (old(self).timeouts[0] + 1) as u8),
            *final(self) == (Neighbor { timeouts: final(self).timeouts, ..*old(self) }),
    {
        let t = self.timeouts[0];
        self.timeouts[0] = t + 1;
    }

    /// Starts a new period of timeouts: each count moves one place on, the
    /// oldest is forgotten.
    pub fn shift_timeout(&mut self)
        ensures
            final(self).timeouts@ == seq![0u8] + old(self).timeouts@.take(7),
            *final(self) == (Neighbor { timeouts: final(self).timeouts, ..*old(self) }),
    {
        let mut i: usize = 7;
        while i > 0
            invariant
                i <= 7,
                self.timeouts@.len() == 8,
                forall|j: int| 0 <= j <= i ==> self.timeouts@[j] == old(self).timeouts@[j],
                forall|j: int| i < j < 8 ==> self.timeouts@[j] == old(self).timeouts@[j - 1],
                *self == (Neighbor { timeouts: self.timeouts, ..*old(self) }),
            decreases i,
        {
            let t = self.timeouts[i - 1];
            self.timeouts[i] = t;
            i = i - 1;
        }
        self.timeouts[0] = 0;
        assert(self.timeouts@ =~= seq![0u8] + old(self).timeouts@.take(7));
    }

    /// The timeouts of the remembered periods, together.
    pub fn timeouts_count(&self) -> (res: u8)
        requires
            timeouts_sum(self.timeouts@, 8) <= u8::MAX,
        ensures
            res == timeouts_sum(self.timeouts@, 8),
    {
        let mut sum: u8 = 0;
        let mut i: usize = 0;
        while i < 8
            invariant
                i <= 8,
                self.timeouts@.len() == 8,
                sum == timeouts_sum(self.timeouts@, i as int),
                timeouts_sum(self.timeouts@, 8) <= u8::MAX,
            decreases 8 - i,
        {
            proof {
                lemma_timeouts_sum_monotone(self.timeouts@, i as int + 1, 8);
            }
            sum = sum + self.timeouts[i];
            i = i + 1;
        }
        sum
    }

    /// Whether `sanity_check` can be asked of a message at `swarm_time` in
    /// `neighborhood` under `header` without overflow.
    pub fn sanity_check_computable(
        &self,
        swarm_time: &SwarmTime,
        neighborhood: &Neighborhood,
        header: &Header,
    ) -> (res: bool)
        ensures
            res == sanity_computable(*self, *swarm_time, *neighborhood, *header),
    {
        if self.swarm_time.0 > swarm_time.0 {
            return true;
        }
        let a = self.gnome_header != *header || self.gnome_neighborhood.0 < 255;
        let b = !(self.header == *header && self.prev_neighborhood.is_some() && neighborhood.0
            == 0) || self.neighborhood.0 < 255;
        let c = self.header == *header || self.swarm_diameter.0 <= u32::MAX / 2;
        a && b && c
    }

    /// Whether a message at `swarm_time` in `neighborhood` under `header` fits
    /// what is known of this neighbor.
    pub fn sanity_check(
        &self,
        swarm_time: &SwarmTime,
        neighborhood: &Neighborhood,
        header: &Header,
    ) -> (res: bool)
        requires
            sanity_computable(*self, *swarm_time, *neighborhood, *header),
        ensures
            res == sanity_ok(*self, *swarm_time, *neighborhood, *header),
    {
        if self.swarm_time.0 > swarm_time.0 {
            return false;
        }
        let hood_inc_limited = if self.gnome_header == *header {
            neighborhood.0 <= self.gnome_neighborhood.0 + 1
        } else {
            true
        };
        if self.header == *header {
            let hood_increased = match self.prev_neighborhood {
                Some(prev_neighborhood) => {
                    if neighborhood.0 == 0 && ((self.neighborhood.0 + 1) as u32)
                        >= self.swarm_diameter.0 {
                        true
                    } else {
                        neighborhood.0 > prev_neighborhood.0 || neighborhood.0
                            > self.neighborhood.0
                    }
                },
                None => true,
            };
            hood_increased && hood_inc_limited
        } else {
            let since: u32 = if swarm_time.0 >= self.round_start.0 {
                swarm_time.0 - self.round_start.0
            } else {
                (u32::MAX - self.round_start.0) + swarm_time.0 + 1
            };
            let no_backdating = since < self.swarm_diameter.0 + self.swarm_diameter.0;
            match self.header {
                Header::Block(id) => match *header {
                    Header::Block(new_id) => new_id.0 >= id.0 && no_backdating
                        && hood_inc_limited,
                    _ => false,
                },
                Header::Reconfigure(ct, gid) => match *header {
                    Header::Block(_id) => no_backdating && hood_inc_limited,
                    Header::Reconfigure(new_ct, new_gid) => {
                        if new_ct > ct || new_gid.0 > gid.0 {
                            no_backdating
                        } else {
                            no_backdating && hood_inc_limited
                        }
                    },
                    Header::Sync => false,
                },
                Header::Sync => no_backdating && hood_inc_limited,
            }
        }
    }

    /// The first look at a message received from this neighbor, where
    /// `last_accepted_message` is the message the swarm accepted last. A
    /// repeated message still tells the neighbor's bandwidth.
    pub fn screen_message(&mut self, last_accepted_message: &Message, message: &Message) -> (res:
        Screening)
        ensures
            res == screening(*old(self), *last_accepted_message, *message),
            res == Screening::Repeated && message.payload is KeepAlive ==> *final(self) == (
            Neighbor { available_bandwith: message.payload->KeepAlive_0, ..*old(self) }),
            !(res == Screening::Repeated && message.payload is KeepAlive) ==> *final(self)
                == *old(self),
    {
        if message.swarm_time.0 < last_accepted_message.swarm_time.0 {
            return Screening::Stale;
        }
        if message.header == last_accepted_message.header && message.swarm_time.0
            - last_accepted_message.swarm_time.0 <= 2 && (message.neighborhood.0 as u32)
            >= self.swarm_diameter.0 {
            if let Payload::KeepAlive(avail_bandwith) = message.payload {
                self.available_bandwith = avail_bandwith;
            }
            return Screening::Repeated;
        }
        if message.is_bye() {
            return Screening::Bye;
        }
        Screening::Fresh
    }

    /// Takes in a fresh message whose signature, if any, was checked. Returns
    /// whether it passed the sanity check, whether it brings a new proposal,
    /// whether the neighbor is to be dropped, and whether to stop reading
    /// this neighbor for the turn. A message that fails the sanity check
    /// changes nothing.
    pub fn accept_message(&mut self, message: Message) -> (res: (bool, bool, bool, bool))
        requires
            sanity_computable(*old(self), message.swarm_time, message.neighborhood, message.header),
        ensures
            !sanity_ok(*old(self), message.swarm_time, message.neighborhood, message.header)
                ==> res == (false, false, false, false) && *final(self) == *old(self),
            sanity_ok(*old(self), message.swarm_time, message.neighborhood, message.header) ==> {
                let (_h, _p, new_proposal, force_break) = header_step(
                    *old(self),
                    message.neighborhood,
                    message.header,
                );
                &&& res == (true, new_proposal, message.payload is Bye, force_break)
                &&& *final(self) == accepted_state(*old(self), message)
            },
    {
        let swarm_time = message.swarm_time;
        let neighborhood = message.neighborhood;
        let header = message.header;
        if !self.sanity_check(&swarm_time, &neighborhood, &header) {
            return (false, false, false, false);
        }
        let mut new_proposal = false;
        let mut drop_me = false;
        let mut force_break = false;
        self.new_message_recieved = true;
        self.swarm_time = swarm_time;
        match header {
            Header::Sync => {
                if self.header == Header::Sync {
                    if neighborhood.0 > 0 {
                        self.prev_neighborhood = Some(self.neighborhood);
                    } else {
                        self.prev_neighborhood = None;
                    }
                } else {
                    self.prev_neighborhood = None;
                    self.header = Header::Sync;
                }
                self.neighborhood = neighborhood;
            },
            Header::Reconfigure(new_ct, new_gid) => {
                if let Header::Reconfigure(ct, gid) = self.header {
                    if new_ct > ct || new_gid.0 > gid.0 {
                        new_proposal = true;
                        self.prev_neighborhood = None;
                        self.header = header;
                    } else if neighborhood.0 > 0 {
                        self.prev_neighborhood = Some(self.neighborhood);
                    } else {
                        self.prev_neighborhood = None;
                    }
                } else {
                    new_proposal = true;
                    self.prev_neighborhood = None;
                    self.header = header;
                }
                self.neighborhood = neighborhood;
            },
            Header::Block(id) => {
                if let Header::Block(current_id) = self.header {
                    force_break = true;
                    if current_id == id {
                        self.prev_neighborhood = Some(self.neighborhood);
                    } else {
                        new_proposal = true;
                        self.prev_neighborhood = None;
                        self.header = header;
                    }
                    self.neighborhood = neighborhood;
                } else {
                    self.header = header;
                    new_proposal = true;
                    self.prev_neighborhood = None;
                    self.neighborhood = neighborhood;
                }
            },
        }
        match message.payload {
            Payload::KeepAlive(bandwith) => {
                self.available_bandwith = bandwith;
            },
            Payload::Bye => {
                drop_me = true;
            },
            Payload::Block(block_id, signature, data) => {
                if let Header::Block(id) = self.header {
                    if id == block_id {
                        self.payload = Payload::Block(id, signature, data);
                    }
                }
            },
            Payload::Reconfigure(sign, conf) => {
                self.payload = Payload::Reconfigure(sign, conf);
            },
        }
        (true, new_proposal, drop_me, force_break)
    }

    /// Remembers what the gnome itself announced in `message`, before it goes
    /// out to this neighbor.
    pub fn send_out(&mut self, message: &Message)
        ensures
            *final(self) == (Neighbor {
                gnome_header: message.header,
                gnome_neighborhood: message.neighborhood,
                ..*old(self)
            }),
    {
        self.gnome_header = message.header;
        self.gnome_neighborhood = message.neighborhood;
    }

    /// The oldest response waiting to go to this neighbor, taken out.
    pub fn get_specialized_data(&mut self) -> (res: Option<NeighborResponse>)
        ensures
            old(self).requested_data@.len() == 0 ==> res is None && final(self).requested_data@
                == old(self).requested_data@,
            old(self).requested_data@.len() > 0 ==> res == Some(old(self).requested_data@.last())
                && final(self).requested_data@ == old(self).requested_data@.drop_last(),
            *final(self) == (Neighbor { requested_data: final(self).requested_data, ..*old(self) }),
    {
        self.requested_data.pop_back()
    }
}


/// Where a cast message from a neighbor goes.
#[derive(Clone, Copy, Debug, PartialEq, Eq, Structural)]
pub enum CastRoute {
    /// To the broadcast of that id.
    Broadcast,
    /// Nowhere yet: multicasts are not served.
    Multicast,
    /// A request of the neighbor.
    Request,
    /// A response of the neighbor.
    Response,
    /// To the unicast of that id.
    Unicast,
}

/// Routes a cast message by its type and id: unicast `255` carries requests
/// and `254` responses between neighbors.
pub fn route_cast(c_type: CastType, id: CastID) -> (res: CastRoute)
    ensures
        res == match c_type {
            CastType::Broadcast => CastRoute::Broadcast,
            CastType::Multicast => CastRoute::Multicast,
            CastType::Unicast => if id.0 == 255 {
                CastRoute::Request
            } else if id.0 == 254 {
                CastRoute::Response
            } else {
                CastRoute::Unicast
            },
        },
{
    match c_type {
        CastType::Broadcast => CastRoute::Broadcast,
        CastType::Multicast => CastRoute::Multicast,
        CastType::Unicast => {
            if id.0 == 255 {
                CastRoute::Request
            } else if id.0 == 254 {
                CastRoute::Response
            } else {
                CastRoute::Unicast
            }
        },
    }
}

impl Neighbor {
    /// Takes a request that the neighbor sent, as the newest one.
    pub fn push_request(&mut self, request: NeighborRequest)
        ensures
            final(self).requests@ == seq![request] + old(self).requests@,
            *final(self) == (Neighbor { requests: final(self).requests, ..*old(self) }),
    {
        self.requests.push_front(request);
    }

    /// Takes the swarm's state that the neighbor sent while this gnome joins:
    /// the neighbor's time, and a new round from the round start it gives.
    pub fn recv_sync(&mut self, response: &SwarmSyncResponse)
        ensures
            *final(self) == (Neighbor {
                swarm_time: response.swarm_time,
                round_start: response.round_start,
                header: Header::Sync,
                payload: Payload::KeepAlive(old(self).available_bandwith),
                prev_neighborhood: None,
                neighborhood: Neighborhood(0),
                ..*old(self)
            }),
    {
        self.swarm_time = response.swarm_time;
        self.start_new_round(response.round_start);
    }
}

} // verus!
