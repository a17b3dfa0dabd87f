use vstd::prelude::*;

use crate::gnome::GnomeId;
use crate::message::{
    config_same, header_less, is_empty_block, payload_same, Configuration, Header, Message, Payload,
};
use crate::neighbor::{Neighbor, Neighborhood};
use crate::swarm::SwarmTime;
use crate::CastID;

verus! {

/// A change of the swarm's configuration that the gnome is following this
/// round, and whether the turn in which it arrived is over.
#[derive(Debug)]
pub enum ChangeConfig {
    NoChange,
    InsertPubkey { id: GnomeId, key: Vec<u8>, turn_ended: bool },
    AddBroadcast {
        id: CastID,
        origin: GnomeId,
        source: GnomeId,
        filtered_neighbors: Vec<GnomeId>,
        turn_ended: bool,
    },
    RemoveBroadcast { id: CastID, turn_ended: bool },
}

/// `c` with its turn marked as ended.
pub open spec fn turn_ended_version(c: ChangeConfig) -> ChangeConfig {
    match c {
        ChangeConfig::NoChange => ChangeConfig::NoChange,
        ChangeConfig::InsertPubkey { id, key, turn_ended: _ } => ChangeConfig::InsertPubkey {
            id,
            key,
            turn_ended: true,
        },
        ChangeConfig::AddBroadcast { id, origin, source, filtered_neighbors, turn_ended: _ } =>
            ChangeConfig::AddBroadcast { id, origin, source, filtered_neighbors, turn_ended: true },
        ChangeConfig::RemoveBroadcast { id, turn_ended: _ } => ChangeConfig::RemoveBroadcast {
            id,
            turn_ended: true,
        },
    }
}

/// A new broadcast within the turn it was announced in.
pub open spec fn open_add_broadcast(c: ChangeConfig) -> bool {
    c matches ChangeConfig::AddBroadcast { turn_ended, .. } && !turn_ended
}

impl ChangeConfig {
    pub fn end_turn(&mut self)
        ensures
            *final(self) == turn_ended_version(*old(self)),
    {
        let mut tmp = ChangeConfig::NoChange;
        std::mem::swap(self, &mut tmp);
        *self = match tmp {
            ChangeConfig::NoChange => ChangeConfig::NoChange,
            ChangeConfig::InsertPubkey { id, key, turn_ended: _ } => ChangeConfig::InsertPubkey {
                id,
                key,
                turn_ended: true,
            },
            ChangeConfig::AddBroadcast { id, origin, source, filtered_neighbors, turn_ended: _ } =>
                ChangeConfig::AddBroadcast {
                id,
                origin,
                source,
                filtered_neighbors,
                turn_ended: true,
            },
            ChangeConfig::RemoveBroadcast { id, turn_ended: _ } => ChangeConfig::RemoveBroadcast {
                id,
                turn_ended: true,
            },
        };
    }

    /// Notes that `gnome_id` already has the new broadcast, while its turn
    /// lasts.
    pub fn add_filtered_neighbor(&mut self, gnome_id: GnomeId)
        ensures
            !open_add_broadcast(*old(self)) ==> *final(self) == *old(self),
            open_add_broadcast(*old(self)) ==> (*final(self) matches ChangeConfig::AddBroadcast {
                id,
                origin,
                source,
                filtered_neighbors,
                turn_ended,
            } && *old(self) matches ChangeConfig::AddBroadcast {
                id: oid,
                origin: oorigin,
                source: osource,
                filtered_neighbors: ofiltered,
                turn_ended: _,
            } && id == oid && origin == oorigin && source == osource && !turn_ended
                && filtered_neighbors@ == ofiltered@.push(gnome_id)),
    {
        if !matches!(self, ChangeConfig::AddBroadcast { turn_ended: false, .. }) {
            return;
        }
        let mut tmp = ChangeConfig::NoChange;
        std::mem::swap(self, &mut tmp);
        *self = match tmp {
            ChangeConfig::AddBroadcast { id, origin, source, mut filtered_neighbors, turn_ended } =>
                {
                filtered_neighbors.push(gnome_id);
                ChangeConfig::AddBroadcast { id, origin, source, filtered_neighbors, turn_ended }
            },
            other => other,
        };
    }
}

/// What a gnome gathers from its neighbors during a turn, to decide what it
/// announces in the next one.
#[derive(Debug)]
pub struct NextState {
    pub neighborhood: Neighborhood,
    pub swarm_time: SwarmTime,
    pub swarm_time_max: SwarmTime,
    pub change_config: ChangeConfig,
    pub header: Header,
    pub last_accepted_message: Message,
    pub payload: Payload,
    pub all_neighbors_same_header: bool,
    pub turn_update_with_a_message: bool,
}

/// What `update` learns from a neighbor whose header is higher: the
/// configuration change that the neighbor's reconfiguration starts, if any.
pub open spec fn adopted_change(
    old_change: ChangeConfig,
    new_change: ChangeConfig,
    neighbor_id: GnomeId,
    h: Header,
    p: Payload,
) -> bool {
    if h is Reconfigure {
        match p {
            Payload::Reconfigure(_s, Configuration::StartBroadcast(origin, id)) => new_change
                == ChangeConfig::AddBroadcast {
                id,
                origin,
                source: neighbor_id,
                filtered_neighbors: new_change->filtered_neighbors,
                turn_ended: false,
            } && new_change->filtered_neighbors@.len() == 0,
            Payload::Reconfigure(_s, Configuration::InsertPubkey(id, key)) => (new_change matches ChangeConfig::InsertPubkey {
                id: nid,
                key: nkey,
                turn_ended,
            } && nid == id && nkey@ == key@ && !turn_ended),
            _ => new_change == old_change,
        }
    } else {
        new_change == old_change
    }
}

/// The neighbor's reconfiguration starts a broadcast from another gnome.
pub open spec fn relays_foreign_broadcast(n: Neighbor) -> bool {
    n.header is Reconfigure && (n.payload matches Payload::Reconfigure(
        _s,
        Configuration::StartBroadcast(g, _c),
    ) && n.id.0 != g.0)
}

/// What taking in the message last accepted from neighbor `n` makes of the
/// gathered state `s`: `f`. Nothing changes unless the neighbor sent
/// something new; a message older than the last accepted one only marks the
/// turn as updated. Otherwise the earliest time below the limit is kept, the
/// highest header is taken with its payload and any configuration change it
/// starts, and on the same header the lowest neighborhood is kept, where a
/// neighbor relaying another gnome's broadcast is noted as already served.
pub open spec fn update_outcome(s: NextState, n: Neighbor, f: NextState) -> bool {
    &&& !n.new_message_recieved ==> f == s
    &&& n.new_message_recieved ==> f.updated_this_turn() && f.last_accepted_message
        == s.last_accepted_message && f.swarm_time_max == s.swarm_time_max
    &&& n.new_message_recieved && n.swarm_time.0 < s.last_accepted_message.swarm_time.0 ==> f == (
    NextState { turn_update_with_a_message: true, ..s })
    &&& n.new_message_recieved && n.swarm_time.0 >= s.last_accepted_message.swarm_time.0 ==> {
        &&& f.swarm_time == (if n.swarm_time.0 < s.swarm_time_max.0 && n.swarm_time.0
            < s.swarm_time.0 {
            n.swarm_time
        } else {
            s.swarm_time
        })
        &&& f.same_header() == (s.same_header() && s.header == n.header)
        &&& header_less(s.header, n.header) ==> {
            &&& f.header == n.header
            &&& payload_same(f.payload, n.payload)
            &&& f.neighborhood == Neighborhood(0)
            &&& adopted_change(s.change_config, f.change_config, n.id, n.header, n.payload)
        }
        &&& !header_less(s.header, n.header) ==> {
            &&& f.header == s.header
            &&& f.payload == s.payload
            &&& f.neighborhood == (if n.header == s.header && s.neighborhood.0 > n.neighborhood.0 {
                n.neighborhood
            } else {
                s.neighborhood
            })
            &&& if n.header == s.header && s.neighborhood.0 > n.neighborhood.0
                && relays_foreign_broadcast(n) && open_add_broadcast(s.change_config) {
                f.change_config matches ChangeConfig::AddBroadcast {
                    id,
                    origin,
                    source,
                    filtered_neighbors,
                    turn_ended,
                } && s.change_config matches ChangeConfig::AddBroadcast {
                    id: oid,
                    origin: oorigin,
                    source: osource,
                    filtered_neighbors: ofiltered,
                    turn_ended: _,
                } && id == oid && origin == oorigin && source == osource && !turn_ended
                    && filtered_neighbors@ == ofiltered@.push(n.id)
            } else {
                f.change_config == s.change_config
            }
        }
    }
}

/// A fresh message from a neighbor on the gathered header lowers the gathered
/// neighborhood to the neighbor's where that is lower and never raises it:
/// the gathered neighborhood is the least of the two, so the gnome never
/// claims a proposal has spread further than any neighbor on it says.
pub proof fn lemma_update_keeps_lowest_neighborhood(s: NextState, n: Neighbor, f: NextState)
    requires
        update_outcome(s, n, f),
        n.new_message_recieved,
        n.swarm_time.0 >= s.last_accepted_message.swarm_time.0,
        n.header == s.header,
    ensures
        f.header == s.header,
        f.neighborhood.0 <= n.neighborhood.0,
        f.neighborhood.0 <= s.neighborhood.0,
        f.neighborhood == s.neighborhood || f.neighborhood == n.neighborhood,
{
    crate::message::lemma_header_order(s.header, n.header, n.header);
}

/// A fresh message that is not older than the last accepted one leaves the
/// gathered state on the higher of the two headers, at the earlier of the
/// two times or the gathered one, and, on a header new to it, from
/// neighborhood 0.
pub proof fn lemma_update_takes_highest_header(s: NextState, n: Neighbor, f: NextState)
    requires
        update_outcome(s, n, f),
        n.new_message_recieved,
        n.swarm_time.0 >= s.last_accepted_message.swarm_time.0,
    ensures
        f.header == s.header || f.header == n.header,
        !header_less(f.header, s.header),
        !header_less(f.header, n.header),
        f.swarm_time.0 <= s.swarm_time.0,
        f.swarm_time == s.swarm_time || f.swarm_time == n.swarm_time,
        f.header != s.header ==> f.neighborhood == Neighborhood(0),
{
    crate::message::lemma_header_order(s.header, n.header, n.header);
    crate::message::lemma_header_order(n.header, s.header, s.header);
}

impl NextState {
    /// Whether all neighbors heard this turn announced the same header.
    pub open spec fn same_header(&self) -> bool {
        self.all_neighbors_same_header
    }

    /// Whether a neighbor sent a new message this turn.
    pub open spec fn updated_this_turn(&self) -> bool {
        self.turn_update_with_a_message
    }

    pub fn new() -> (res: Self)
        ensures
            res.neighborhood == Neighborhood(0),
            res.swarm_time == SwarmTime(0),
            res.swarm_time_max == SwarmTime(u32::MAX),
            res.change_config == ChangeConfig::NoChange,
            res.header == Header::Sync,
            res.same_header(),
            !res.updated_this_turn(),
            res.last_accepted_message.swarm_time.0 == 0,
            res.last_accepted_message.neighborhood.0 == 0,
            res.last_accepted_message.header == Header::Block(crate::message::BlockID(0)),
            is_empty_block(res.last_accepted_message.payload),
            res.payload == Payload::KeepAlive(1024),
    {
        NextState {
            neighborhood: Neighborhood(0),
            swarm_time: SwarmTime(0),
            swarm_time_max: SwarmTime(u32::MAX),
            change_config: ChangeConfig::NoChange,
            header: Header::Sync,
            all_neighbors_same_header: true,
            last_accepted_message: Message::block(),
            payload: Payload::KeepAlive(1024),
            turn_update_with_a_message: false,
        }
    }

    /// Takes in the message last accepted from `neighbor`, if it is new: the
    /// earliest time below the limit, the highest header with its payload,
    /// and the lowest neighborhood among neighbors on the same header.
    pub fn update(&mut self, neighbor: &mut Neighbor)
        ensures
            *final(neighbor) == (Neighbor { new_message_recieved: false, ..*old(neighbor) }),
            update_outcome(*old(self), *old(neighbor), *final(self)),
    {
        if !neighbor.new_message_recieved {
            return;
        }
        self.turn_update_with_a_message = true;
        neighbor.new_message_recieved = false;
        let neighbor_st = neighbor.swarm_time;
        if neighbor_st.0 < self.last_accepted_message.swarm_time.0 {
            return;
        }
        if neighbor_st.0 < self.swarm_time_max.0 && neighbor_st.0 < self.swarm_time.0 {
            self.swarm_time = neighbor_st;
        }
        if self.header != neighbor.header {
            self.all_neighbors_same_header = false;
        }
        if neighbor.header.is_above(&self.header) {
            self.header = neighbor.header;
            self.payload = neighbor.payload.duplicate();
            self.neighborhood = Neighborhood(0);
            if self.header.is_reconfigure() {
                if let Payload::Reconfigure(_signature, config) = &neighbor.payload {
                    match config {
                        Configuration::StartBroadcast(origin, id) => {
                            self.change_config = ChangeConfig::AddBroadcast {
                                id: *id,
                                origin: *origin,
                                source: neighbor.id,
                                filtered_neighbors: Vec::new(),
                                turn_ended: false,
                            };
                        },
                        Configuration::InsertPubkey(id, key) => {
                            self.change_config = ChangeConfig::InsertPubkey {
                                id: *id,
                                key: key.clone(),
                                turn_ended: false,
                            };
                        },
                        _ => {},
                    }
                }
            }
        } else if neighbor.header == self.header && self.neighborhood.0
            > neighbor.neighborhood.0 {
            self.neighborhood = neighbor.neighborhood;
            if neighbor.header.is_reconfigure() {
                if let Payload::Reconfigure(_signature, config) = &neighbor.payload {
                    if let Configuration::StartBroadcast(g_id, _c_id) = config {
                        if neighbor.id.0 != g_id.0 {
                            self.change_config.add_filtered_neighbor(neighbor.id);
                        }
                    }
                }
            }
        }
    }

    fn next_swarm_time(&mut self)
        ensures
            final(self).swarm_time.0 == (if old(self).swarm_time.0 == u32::MAX {
                0
            } else {
                old(self).swarm_time.0 + 1
            }),
            final(self).swarm_time_max.0 == (if final(self).swarm_time.0 == u32::MAX {
                0
            } else {
                final(self).swarm_time.0 + 1
            }),
            *final(self) == (NextState {
                swarm_time: final(self).swarm_time,
                swarm_time_max: final(self).swarm_time_max,
                ..*old(self)
            }),
    {
        self.swarm_time = if self.swarm_time.0 == u32::MAX {
            SwarmTime(0)
        } else {
            self.swarm_time.inc()
        };
        self.swarm_time_max = self.swarm_time.inc();
    }

    /// The neighborhood to announce next: one more when every neighbor heard
    /// agreed and at least one sent something new.
    fn get_next_nhood(&self) -> (res: Neighborhood)
        requires
            self.same_header() && self.updated_this_turn() ==> self.neighborhood.0 < 255,
        ensures
            res.0 == (if self.same_header() && self.updated_this_turn() {
                self.neighborhood.0 + 1
            } else {
                self.neighborhood.0 as int
            }),
    {
        if self.all_neighbors_same_header {
            if self.turn_update_with_a_message {
                self.neighborhood.inc()
            } else {
                self.neighborhood
            }
        } else {
            self.neighborhood
        }
    }

    /// Time, neighborhood, header and payload to announce in the next turn.
    pub fn next_params(&self) -> (res: (SwarmTime, Neighborhood, Header, Payload))
        requires
            self.same_header() && self.updated_this_turn() ==> self.neighborhood.0 < 255,
        ensures
            res.0.0 == (if self.swarm_time.0 == u32::MAX {
                0
            } else {
                self.swarm_time.0 + 1
            }),
            res.1.0 == (if self.same_header() && self.updated_this_turn() {
                self.neighborhood.0 + 1
            } else {
                self.neighborhood.0 as int
            }),
            res.2 == self.header,
            payload_same(res.3, self.payload),
    {
        (self.swarm_time.inc(), self.get_next_nhood(), self.header, self.payload.duplicate())
    }

    /// Prepares the next turn, in which the gnome announces `header` and
    /// `payload`. A new round starts from neighborhood 0 and follows the
    /// broadcast that `payload` starts, if any; otherwise the neighborhood
    /// grows by one.
    pub fn reset_for_next_turn(&mut self, new_round: bool, header: Header, payload: Payload)
        requires
            !new_round ==> old(self).neighborhood.0 < 255,
        ensures
            final(self).swarm_time.0 == (if old(self).swarm_time.0 == u32::MAX {
                0
            } else {
                old(self).swarm_time.0 + 1
            }),
            final(self).swarm_time_max.0 == (if final(self).swarm_time.0 == u32::MAX {
                0
            } else {
                final(self).swarm_time.0 + 1
            }),
            final(self).header == header,
            final(self).payload == payload,
            final(self).last_accepted_message == old(self).last_accepted_message,
            !final(self).updated_this_turn(),
            final(self).same_header() == !new_round,
            new_round ==> final(self).neighborhood == Neighborhood(0),
            !new_round ==> final(self).neighborhood.0 == old(self).neighborhood.0 + 1,
            !new_round ==> final(self).change_config == turn_ended_version(
                old(self).change_config,
            ),
            new_round ==> final(self).change_config == (if header is Reconfigure {
                match payload {
                    Payload::Reconfigure(_s, Configuration::StartBroadcast(origin, id)) =>
                        ChangeConfig::AddBroadcast {
                        id,
                        origin,
                        source: origin,
                        filtered_neighbors: final(self).change_config->filtered_neighbors,
                        turn_ended: false,
                    },
                    _ => ChangeConfig::NoChange,
                }
            } else {
                ChangeConfig::NoChange
            }),
            new_round && final(self).change_config is AddBroadcast
                ==> final(self).change_config->filtered_neighbors@.len() == 0,
    {
        self.next_swarm_time();
        self.turn_update_with_a_message = false;
        self.header = header;
        self.all_neighbors_same_header = true;
        self.change_config.end_turn();
        if new_round {
            let mut next_change = ChangeConfig::NoChange;
            if header.is_reconfigure() {
                if let Payload::Reconfigure(_signature, Configuration::StartBroadcast(origin, id)) =
                    &payload {
                    next_change = ChangeConfig::AddBroadcast {
                        id: *id,
                        origin: *origin,
                        source: *origin,
                        filtered_neighbors: Vec::new(),
                        turn_ended: false,
                    };
                }
            }
            self.change_config = next_change;
            self.all_neighbors_same_header = false;
            self.neighborhood = Neighborhood(0);
        } else {
            self.neighborhood = self.neighborhood.inc();
        }
        self.payload = payload;
    }
}

} // verus!
