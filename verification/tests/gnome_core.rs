use swarm_consensus::gnome::{
    Gnome, IpAddress, NetworkSettings, OngoingAction, Proposal,
};
use swarm_consensus::message::{BlockID, Configuration, Header, Payload, Signature};
use swarm_consensus::neighbor::{
    Neighbor, NeighborRequest, NeighborResponse, Neighborhood, SwarmSyncResponse,
};
use swarm_consensus::multicast::Multicast;
use swarm_consensus::next_state::ChangeConfig;
use swarm_consensus::swarm::{Swarm, SwarmID, SwarmName, SwarmType};
use swarm_consensus::{CastID, GnomeId, SwarmTime, SyncData};

fn gnome(id: u64, founder: u64) -> Gnome {
    let name = SwarmName::new(GnomeId(founder), String::from("g")).unwrap();
    let swarm = Swarm::new(name, SwarmID(0));
    Gnome::new(GnomeId(id), vec![1; 4], swarm, NetworkSettings::default())
}

fn neighbor(id: u64, bandwidth: u64) -> Neighbor {
    let mut n = Neighbor::from_id_channel_time(GnomeId(id), SwarmTime(0), SwarmTime(7), vec![]);
    n.available_bandwith = bandwidth;
    n
}

#[test]
fn new_gnome_splits_network_settings() {
    let g = gnome(1, 1);
    assert_eq!(g.header, Header::Sync);
    assert_eq!(g.payload, Payload::KeepAlive(10240));
    assert_eq!(g.swarm_diameter, SwarmTime(7));
    assert_eq!(g.network_settings, NetworkSettings::default());
    assert_eq!(g.ipv6_network_settings.pub_ip, IpAddress::V6([0; 8]));
}

#[test]
fn adding_and_dropping_neighbors() {
    let mut g = gnome(1, 1);
    g.add_neighbor(neighbor(2, 10));
    assert_eq!(g.fast_neighbors.len(), 1);
    g.add_neighbor(neighbor(3, 10));
    assert_eq!(g.new_neighbors.len(), 1);
    assert!(g.has_neighbor(GnomeId(2)));
    assert!(!g.has_neighbor(GnomeId(3)));
    g.add_neighbor(neighbor(2, 30));
    assert_eq!(g.fast_neighbors.len(), 1);
    assert_eq!(g.fast_neighbors[0].available_bandwith, 30);
    g.drop_neighbor(GnomeId(2));
    g.drop_neighbor(GnomeId(3));
    assert!(g.fast_neighbors.is_empty());
    assert!(g.new_neighbors.is_empty());
}

#[test]
fn bandwidth_based_choices() {
    let mut g = gnome(1, 1);
    g.fast_neighbors = vec![neighbor(2, 5), neighbor(3, 50), neighbor(4, 50)];
    assert_eq!(g.neighbor_with_highest_bandwith(), GnomeId(4));
    assert_eq!(g.neighbor_with_enough_bandwith(20), Some(GnomeId(3)));
    assert_eq!(g.neighbor_with_enough_bandwith(100), None);
    assert_eq!(g.request_target(GnomeId(0)), GnomeId(4));
    assert_eq!(g.request_target(GnomeId(9)), GnomeId(9));
    g.refreshed_neighbors = vec![neighbor(5, 40)];
    assert_eq!(g.select_best_alternative(vec![GnomeId(5), GnomeId(2)]), Some(GnomeId(5)));
    assert_eq!(g.select_best_alternative(vec![GnomeId(2), GnomeId(3)]), Some(GnomeId(3)));
    assert_eq!(g.select_best_alternative(vec![GnomeId(8)]), Some(GnomeId(8)));
    assert_eq!(g.select_best_alternative(vec![]), None);
}

#[test]
fn querying_neighbors_round_robin() {
    let mut g = gnome(1, 1);
    g.fast_neighbors = vec![neighbor(2, 0)];
    g.slow_neighbors = vec![neighbor(3, 0)];
    assert_eq!(g.query_for_new_neighbors(), Some(GnomeId(2)));
    assert_eq!(g.query_for_new_neighbors(), Some(GnomeId(3)));
    assert_eq!(g.query_for_new_neighbors(), None);
    assert!(g.neighbor_discovery.queried_neighbors.is_empty());
    assert_eq!(g.query_for_new_neighbors(), Some(GnomeId(2)));
}

#[test]
fn swapping_neighbor_lists() {
    let mut g = gnome(1, 1);
    g.fast_neighbors = vec![neighbor(2, 0)];
    g.slow_neighbors = vec![neighbor(3, 0)];
    g.refreshed_neighbors = vec![neighbor(4, 0)];
    g.swap_neighbors();
    assert_eq!(g.fast_neighbors.len(), 1);
    assert_eq!(g.fast_neighbors[0].id, GnomeId(4));
    assert_eq!(g.slow_neighbors.len(), 2);
    assert_eq!(g.slow_neighbors[0].id, GnomeId(3));
    assert_eq!(g.slow_neighbors[0].timeouts[0], 1);
    assert_eq!(g.slow_neighbors[1].id, GnomeId(2));
    assert_eq!(g.slow_neighbors[1].timeouts[0], 0);
    assert!(g.refreshed_neighbors.is_empty());
    g.refreshed_neighbors = vec![neighbor(5, 0)];
    g.concat_neighbors();
    assert_eq!(g.fast_neighbors.len(), 2);
}

#[test]
fn arranging_neighbors_after_the_state_update() {
    let mut g = gnome(1, 1);
    g.fast_neighbors = vec![neighbor(2, 0)];
    g.refreshed_neighbors = vec![neighbor(4, 0)];
    g.send_immediate = true;
    g.arrange_neighbors(false);
    assert_eq!(g.fast_neighbors.len(), 2);
    assert!(g.slow_neighbors.is_empty());
    g.send_immediate = false;
    g.refreshed_neighbors = vec![neighbor(5, 0)];
    g.arrange_neighbors(true);
    assert_eq!(g.fast_neighbors.len(), 3);
    g.refreshed_neighbors = vec![neighbor(6, 0)];
    g.arrange_neighbors(false);
    assert_eq!(g.fast_neighbors.len(), 1);
    assert_eq!(g.fast_neighbors[0].id, GnomeId(6));
    assert_eq!(g.slow_neighbors.len(), 3);
}

#[test]
fn send_all_prepares_both_messages() {
    let mut g = gnome(1, 1);
    g.fast_neighbors = vec![neighbor(2, 0)];
    g.neighborhood = Neighborhood(3);
    let (full, keep_alive) = g.send_all(77);
    assert_eq!(full.header, Header::Sync);
    assert_eq!(full.payload, Payload::KeepAlive(10240));
    assert_eq!(keep_alive.payload, Payload::KeepAlive(77));
    assert_eq!(g.fast_neighbors[0].gnome_neighborhood, Neighborhood(3));
}

#[test]
fn proposal_needs_key_first_when_too_long() {
    let mut g = gnome(1, 1);
    let data = SyncData::new(vec![0; 1000]).unwrap();
    g.proposals.push_back(Proposal::Block(BlockID(1), data));
    let (p, extend) = g.take_next_proposal().unwrap();
    assert!(extend);
    match p {
        Proposal::Config(Configuration::InsertPubkey(id, key)) => {
            assert_eq!(id, GnomeId(1));
            assert_eq!(key, vec![1; 4]);
        }
        _ => panic!("expected the key to go first"),
    }
    assert_eq!(g.proposals.len(), 1);
    g.swarm.key_reg.insert(GnomeId(1), vec![1; 4]);
    let (p, extend) = g.take_next_proposal().unwrap();
    assert!(!extend);
    assert!(matches!(p, Proposal::Block(BlockID(1), _)));
    assert!(g.proposals.is_empty());
    assert!(g.take_next_proposal().is_none());
}

#[test]
fn announcing_a_proposal() {
    let mut g = gnome(1, 1);
    let p = Proposal::Config(Configuration::StartBroadcast(GnomeId(1), CastID(0)));
    g.propose_in_turn(p, false, vec![], vec![5]);
    assert_eq!(g.header, Header::Reconfigure(254, GnomeId(1)));
    assert!(g.send_immediate);
    assert!(g.my_proposal.is_some());
    assert_eq!(g.next_state.header, g.header);
    match &g.next_state.change_config {
        ChangeConfig::AddBroadcast { id, origin, source, .. } => {
            assert_eq!((*id, *origin, *source), (CastID(0), GnomeId(1), GnomeId(1)));
        }
        other => panic!("unexpected {:?}", other),
    }
}

#[test]
fn update_state_takes_next_params_and_proposal() {
    let mut g = gnome(1, 1);
    g.round_start = SwarmTime(3);
    g.swarm.key_reg.insert(GnomeId(1), vec![1; 4]);
    g.proposals.push_back(Proposal::Config(Configuration::UserDefined(3)));
    let next = g.update_state();
    assert_eq!(g.swarm_time, SwarmTime(1));
    assert_eq!(g.neighborhood, Neighborhood(0));
    let (p, extend) = next.unwrap();
    assert!(!extend);
    assert!(matches!(p, Proposal::Config(Configuration::UserDefined(3))));
    let mut idle = gnome(1, 1);
    assert!(idle.update_state().is_none());
}

#[test]
fn closing_a_plain_round() {
    let mut g = gnome(1, 1);
    g.swarm_time = SwarmTime(20);
    g.neighborhood = Neighborhood(7);
    assert_eq!(g.round_status(), (true, true));
    g.slow_neighbors = vec![neighbor(5, 0)];
    g.fast_neighbors = vec![neighbor(6, 0)];
    g.fast_neighbors[0].add_timeout();
    let c = g.conclude_round(true, 300);
    assert!(!c.proposal_round);
    assert!(g.slow_neighbors.is_empty());
    assert_eq!(g.fast_neighbors[0].timeouts, [0, 1, 0, 0, 0, 0, 0, 0]);
    assert_eq!(g.round_start, SwarmTime(20));
    assert_eq!(g.neighborhood, Neighborhood(0));
    assert_eq!(g.next_state.last_accepted_message.swarm_time, SwarmTime(20));
    g.start_chill(c.proposal_round, 300);
    assert!(g.chill_out);
    g.open_next_turn(true);
    assert_eq!(g.fast_neighbors[0].round_start, SwarmTime(20));
    assert_eq!(g.next_state.neighborhood, Neighborhood(0));
}

#[test]
fn closing_a_block_round_accepts_it() {
    let mut g = gnome(1, 1);
    let data = SyncData::new(vec![4, 5, 6]).unwrap();
    g.header = Header::Block(BlockID(9));
    g.payload = Payload::Block(BlockID(9), Signature::Extended(GnomeId(2), vec![2; 3], vec![]), data);
    g.swarm_time = SwarmTime(14);
    let c = g.conclude_round(true, 55);
    assert!(c.proposal_round);
    let (id, d) = c.accepted_block.unwrap();
    assert_eq!(id, BlockID(9));
    assert_eq!(d.bytes(), vec![4, 5, 6]);
    assert_eq!(g.payload, Payload::KeepAlive(55));
    assert_eq!(g.round_start, SwarmTime(14));
    assert_eq!(g.swarm.key_reg.get(GnomeId(2)), Some(vec![2; 3]));
    assert!(g.send_immediate);
    let signed = |sig: Vec<u8>, bytes: Vec<u8>| {
        Payload::Block(BlockID(9), Signature::Extended(GnomeId(2), vec![2; 3], sig), SyncData::new(bytes).unwrap())
    };
    g.requeue_unless_accepted(Header::Block(BlockID(9)), signed(vec![], vec![4, 5, 6]));
    assert_eq!(g.proposals.len(), 0);
    g.requeue_unless_accepted(Header::Block(BlockID(9)), signed(vec![1], vec![4, 5, 6]));
    assert_eq!(g.proposals.len(), 1);
    g.requeue_unless_accepted(Header::Block(BlockID(9)), signed(vec![], vec![4, 5]));
    assert_eq!(g.proposals.len(), 2);
    g.requeue_unless_accepted(
        Header::Reconfigure(1, GnomeId(0)),
        Payload::Reconfigure(Signature::Regular(GnomeId(1), vec![]), Configuration::UserDefined(1)),
    );
    assert_eq!(g.proposals.len(), 3);
    assert!(matches!(g.proposals[2], Proposal::Config(Configuration::UserDefined(1))));
}

#[test]
fn swarm_sync_response_is_applied() {
    let mut g = gnome(1, 0);
    let response = SwarmSyncResponse {
        chill_phase: 10,
        founder: GnomeId(9),
        swarm_time: SwarmTime(100),
        round_start: SwarmTime(93),
        swarm_type: SwarmType::Forum,
        key_reg_size: 2,
        capability_size: 1,
        policy_size: 1,
        broadcast_size: 0,
        multicast_size: 0,
        more_key_reg_messages: false,
        key_reg_pairs: vec![(GnomeId(9), vec![9; 2])],
    };
    g.apply_swarm_sync(response);
    assert_eq!(g.swarm.name.founder, GnomeId(9));
    assert_eq!(g.swarm.swarm_type, SwarmType::Forum);
    assert_eq!(g.swarm_time, SwarmTime(100));
    assert_eq!(g.round_start, SwarmTime(93));
    assert_eq!(g.next_state.swarm_time, SwarmTime(100));
    assert!(g.chill_out);
    assert_eq!(g.swarm.key_reg.byte(), 2);
    assert_eq!(g.swarm.key_reg.get(GnomeId(9)), Some(vec![9; 2]));
    assert!(g.swarm.check_config_policy(&GnomeId(9), 254));
}

#[test]
fn sync_chunks_are_applied() {
    let mut g = gnome(1, 1);
    g.apply_key_registry_sync(vec![(GnomeId(3), vec![3]), (GnomeId(4), vec![4])]);
    assert!(g.swarm.key_reg.has_key(GnomeId(3)));
    assert!(g.swarm.key_reg.has_key(GnomeId(4)));
    g.apply_capability_sync(vec![
        (swarm_consensus::capabilities::Capabilities::Admin, vec![GnomeId(3)]),
        (swarm_consensus::capabilities::Capabilities::Admin, vec![GnomeId(4)]),
    ]);
    g.apply_policy_sync(vec![(
        swarm_consensus::policy::Policy::StartBroadcast,
        swarm_consensus::requirement::Requirement::Has(swarm_consensus::capabilities::Capabilities::Admin),
    )]);
    assert!(g.swarm.check_config_policy(&GnomeId(3), 254));
    assert!(!g.swarm.check_config_policy(&GnomeId(4), 254));
}

#[test]
fn placing_heard_neighbors() {
    let mut g = gnome(1, 1);
    let mut n = neighbor(2, 0);
    n.new_message_recieved = true;
    n.header = Header::Block(BlockID(3));
    g.place_heard_neighbor(n, true, true, true, false);
    assert_eq!(g.refreshed_neighbors.len(), 1);
    assert!(!g.refreshed_neighbors[0].new_message_recieved);
    assert_eq!(g.next_state.header, Header::Block(BlockID(3)));
    g.place_heard_neighbor(neighbor(3, 0), true, false, false, false);
    assert_eq!(g.fast_neighbors.len(), 1);
    g.place_heard_neighbor(neighbor(4, 0), false, false, false, true);
    assert!(g.slow_neighbors.is_empty());
    assert_eq!(g.turn_progress(true, true, false), (true, false));
    g.fast_neighbors.clear();
    assert_eq!(g.turn_progress(true, true, false), (true, true));
}

#[test]
fn no_neighbors_means_no_progress() {
    let mut g = gnome(1, 1);
    g.chill_out = true;
    assert_eq!(g.turn_progress(true, false, true), (false, false));
    assert!(!g.chill_out);
}

#[test]
fn broadcast_subscribers_exclude_known() {
    let mut g = gnome(1, 1);
    g.fast_neighbors = vec![neighbor(2, 0), neighbor(3, 0)];
    g.slow_neighbors = vec![neighbor(4, 0), neighbor(2, 0)];
    g.new_neighbors = vec![neighbor(5, 0)];
    let mut subs = g.broadcast_subscribers(GnomeId(3), GnomeId(9), &vec![GnomeId(5)]);
    subs.sort();
    assert_eq!(subs, vec![GnomeId(2), GnomeId(4)]);
}

#[test]
fn brokering_connections() {
    let mut g = gnome(1, 1);
    g.fast_neighbors = vec![neighbor(2, 0)];
    assert!(g.add_ongoing_request(GnomeId(2), NetworkSettings::default()).is_none());
    g.slow_neighbors = vec![neighbor(3, 0)];
    let (id, asked) = g.add_ongoing_request(GnomeId(2), NetworkSettings::default()).unwrap();
    assert_eq!(id, 0);
    assert_eq!(asked, Some(GnomeId(3)));
    let (id2, _) = g.add_ongoing_request(GnomeId(3), NetworkSettings::default()).unwrap();
    assert_eq!(id2, 1);
    g.add_ongoing_reply(0, NetworkSettings::new_not_natted(IpAddress::V4([1, 1, 1, 1]), 5));
    let actions = g.serve_ongoing_requests();
    assert_eq!(
        actions,
        vec![OngoingAction::Respond {
            origin: GnomeId(2),
            settings: NetworkSettings::new_not_natted(IpAddress::V4([1, 1, 1, 1]), 5)
        }]
    );
    assert_eq!(g.ongoing_requests.len(), 1);
    assert_eq!(
        g.skip_neighbor(1),
        Some(OngoingAction::Query {
            neighbor: GnomeId(3),
            conn_id: 1,
            origin: GnomeId(3),
            settings: NetworkSettings::default()
        })
    );
    assert_eq!(g.ongoing_requests.len(), 1);
    g.fast_neighbors.clear();
    g.slow_neighbors.clear();
    assert_eq!(g.skip_neighbor(1), Some(OngoingAction::Fail { origin: GnomeId(3) }));
    assert!(g.ongoing_requests.is_empty());
    assert_eq!(g.skip_neighbor(1), None);
}

#[test]
fn connect_requests() {
    let mut g = gnome(1, 1);
    g.fast_neighbors = vec![neighbor(2, 0)];
    assert_eq!(
        g.serve_connect_request(4, GnomeId(2), GnomeId(2)),
        Some(NeighborResponse::AlreadyConnected(4))
    );
    assert_eq!(g.serve_connect_request(5, GnomeId(2), GnomeId(8)), None);
    let (c, known) = g.take_pending_connection().unwrap();
    assert_eq!((c.conn_id, c.neighbor_id, known), (5, GnomeId(2), true));
    assert!(g.take_pending_connection().is_none());
}

#[test]
fn user_requests_queue_proposals() {
    let mut g = gnome(1, 1);
    assert!(g.propose_broadcast());
    g.propose_end_broadcast(CastID(3));
    g.propose_reconfigure(8);
    g.add_data_proposal(SyncData::new(vec![1]).unwrap());
    assert_eq!(g.proposals.len(), 4);
    assert!(matches!(g.proposals[0], Proposal::Block(_, _)));
    assert!(matches!(g.proposals[1], Proposal::Config(Configuration::UserDefined(8))));
    assert!(matches!(g.proposals[2], Proposal::Config(Configuration::EndBroadcast(CastID(3)))));
    assert!(matches!(
        g.proposals[3],
        Proposal::Config(Configuration::StartBroadcast(GnomeId(1), CastID(0)))
    ));
}

#[test]
fn neighbor_listing_and_unicast_request() {
    let mut g = gnome(1, 1);
    g.fast_neighbors = vec![neighbor(2, 0)];
    g.slow_neighbors = vec![neighbor(3, 0)];
    g.refreshed_neighbors = vec![neighbor(4, 0)];
    assert_eq!(g.neighbor_ids(), vec![GnomeId(2), GnomeId(3), GnomeId(4)]);
    assert!(g.is_direct_neighbor(GnomeId(3)));
    assert!(!g.is_direct_neighbor(GnomeId(4)));
    g.swarm.insert_unicast(CastID(0));
    match g.unicast_request() {
        NeighborRequest::UnicastRequest(sid, ids) => {
            assert_eq!(sid, SwarmID(0));
            assert_eq!(ids[0], CastID(1));
            assert_eq!(ids[252], CastID(253));
            assert_eq!(ids[253], CastID(0));
        }
        _ => panic!("expected a unicast request"),
    }
}

#[test]
fn network_settings_updates() {
    let mut g = gnome(1, 1);
    g.update_network_settings(IpAddress::V6([1; 8]), 44, swarm_consensus::gnome::Nat::FullCone);
    assert_eq!(g.ipv6_network_settings.pub_port, 44);
    g.update_network_settings(IpAddress::V4([2; 4]), 45, swarm_consensus::gnome::Nat::Symmetric);
    assert_eq!(g.network_settings.pub_ip, IpAddress::V4([2; 4]));
    assert_eq!(g.network_settings.pub_port, 45);
}

#[test]
fn sync_responses_for_a_joining_neighbor() {
    let mut g = gnome(1, 1);
    g.swarm_time = SwarmTime(40);
    g.swarm.key_reg.insert(GnomeId(5), vec![5]);
    let mut n = neighbor(2, 0);
    let responses = g.send_sync_responses(true, true, true, true, true, 7, &mut n);
    assert_eq!(n.round_start, SwarmTime(40));
    assert_eq!(responses.len(), 5);
    match &responses[0] {
        NeighborResponse::SwarmSync(r) => {
            assert_eq!(r.chill_phase, 7);
            assert_eq!(r.founder, GnomeId(1));
            assert_eq!(r.swarm_time, SwarmTime(40));
            assert_eq!(r.capability_size, 1);
            assert_eq!(r.policy_size, 1);
            assert!(!r.more_key_reg_messages);
            assert_eq!(r.key_reg_pairs, vec![(GnomeId(5), vec![5])]);
        }
        _ => panic!("expected swarm sync"),
    }
    assert!(matches!(responses[1], NeighborResponse::CapabilitySync(1, 1, _)));
    assert!(matches!(responses[2], NeighborResponse::PolicySync(1, 1, _)));
    assert!(matches!(responses[3], NeighborResponse::BroadcastSync(1, 1, _)));
    assert!(matches!(responses[4], NeighborResponse::MulticastSync(1, 1, _)));
}

#[test]
fn ending_a_broadcast_keeps_the_others() {
    let mut g = gnome(1, 1);
    let cast = |origin: u64| Multicast::new(GnomeId(origin), GnomeId(origin), vec![], vec![], true);
    g.swarm.insert_broadcast(CastID(2), cast(3));
    g.swarm.insert_broadcast(CastID(4), cast(5));
    g.swarm.insert_multicast(CastID(2), cast(6));
    g.header = Header::Reconfigure(252, GnomeId(0));
    g.payload = Payload::Reconfigure(Signature::Regular(GnomeId(1), vec![]), Configuration::EndBroadcast(CastID(2)));
    g.next_state.change_config = ChangeConfig::RemoveBroadcast { id: CastID(2), turn_ended: true };
    let c = g.conclude_round(true, 10);
    assert!(c.proposal_round);
    assert!(matches!(c.change, ChangeConfig::RemoveBroadcast { id: CastID(2), .. }));
    assert!(g.swarm.is_broadcast_id_available(CastID(2)));
    assert!(!g.swarm.is_broadcast_id_available(CastID(4)));
    assert!(!g.swarm.is_multicast_id_available(CastID(2)));
    assert_eq!(g.swarm.broadcast_ids(), vec![(CastID(4), GnomeId(5))]);
    assert_eq!(g.neighborhood, Neighborhood(0));
}
