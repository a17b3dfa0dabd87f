use swarm_consensus::key_registry::KeyRegistry;
use swarm_consensus::message::{BlockID, Configuration, Header, Message, Payload, Signature};
use swarm_consensus::neighbor::{verification_key, Neighbor, Neighborhood, Screening};
use swarm_consensus::next_state::{ChangeConfig, NextState};
use swarm_consensus::{CastID, GnomeId, SwarmTime, SyncData};

fn neighbor(id: u64) -> Neighbor {
    Neighbor::from_id_channel_time(GnomeId(id), SwarmTime(10), SwarmTime(7), vec![])
}

fn msg(st: u32, hood: u8, header: Header, payload: Payload) -> Message {
    Message::new(SwarmTime(st), header, payload, Neighborhood(hood))
}

#[test]
fn fresh_neighbor_state() {
    let n = neighbor(4);
    assert_eq!(n.header, Header::Sync);
    assert_eq!(n.payload, Payload::KeepAlive(0));
    assert_eq!(n.available_bandwith, 1024);
    assert_eq!(n.timeouts_count(), 0);
    assert!(!n.new_message_recieved);
}

#[test]
fn sanity_rejects_going_back_in_time() {
    let n = neighbor(4);
    assert!(!n.sanity_check(&SwarmTime(9), &Neighborhood(0), &Header::Sync));
    assert!(n.sanity_check(&SwarmTime(10), &Neighborhood(1), &Header::Sync));
}

#[test]
fn sanity_limits_neighborhood_growth() {
    let mut n = neighbor(4);
    n.gnome_neighborhood = Neighborhood(2);
    assert!(n.sanity_check(&SwarmTime(11), &Neighborhood(3), &Header::Sync));
    assert!(!n.sanity_check(&SwarmTime(11), &Neighborhood(4), &Header::Sync));
}

#[test]
fn sanity_requires_progress_on_same_header() {
    let mut n = neighbor(4);
    n.prev_neighborhood = Some(Neighborhood(3));
    n.neighborhood = Neighborhood(3);
    n.gnome_neighborhood = Neighborhood(9);
    assert!(!n.sanity_check(&SwarmTime(11), &Neighborhood(3), &Header::Sync));
    assert!(n.sanity_check(&SwarmTime(11), &Neighborhood(4), &Header::Sync));
    n.neighborhood = Neighborhood(6);
    assert!(n.sanity_check(&SwarmTime(11), &Neighborhood(0), &Header::Sync));
}

#[test]
fn sanity_rejects_lower_block_and_backdating() {
    let mut n = neighbor(4);
    n.header = Header::Block(BlockID(5));
    n.round_start = SwarmTime(10);
    assert!(!n.sanity_check(&SwarmTime(11), &Neighborhood(0), &Header::Block(BlockID(4))));
    assert!(n.sanity_check(&SwarmTime(11), &Neighborhood(0), &Header::Block(BlockID(6))));
    assert!(!n.sanity_check(&SwarmTime(30), &Neighborhood(0), &Header::Block(BlockID(6))));
    assert!(!n.sanity_check(&SwarmTime(11), &Neighborhood(0), &Header::Sync));
}

#[test]
fn screening_of_messages() {
    let mut n = neighbor(4);
    let last = msg(20, 0, Header::Block(BlockID(1)), Payload::KeepAlive(0));
    let old = msg(19, 0, Header::Sync, Payload::KeepAlive(5));
    assert_eq!(n.screen_message(&last, &old), Screening::Stale);
    let repeated = msg(21, 7, Header::Block(BlockID(1)), Payload::KeepAlive(555));
    assert_eq!(n.screen_message(&last, &repeated), Screening::Repeated);
    assert_eq!(n.available_bandwith, 555);
    let bye = msg(22, 0, Header::Sync, Payload::Bye);
    assert_eq!(n.screen_message(&last, &bye), Screening::Bye);
    let fresh = msg(22, 0, Header::Sync, Payload::KeepAlive(1));
    assert_eq!(n.screen_message(&last, &fresh), Screening::Fresh);
}

#[test]
fn accepting_a_new_block_proposal() {
    let mut n = neighbor(4);
    let data = SyncData::new(vec![1, 2, 3]).unwrap();
    let m = msg(
        11,
        1,
        Header::Block(BlockID(2)),
        Payload::Block(BlockID(2), Signature::Regular(GnomeId(4), vec![]), data),
    );
    let (sane, new_proposal, drop_me, force_break) = n.accept_message(m);
    assert!(sane);
    assert!(new_proposal);
    assert!(!drop_me);
    assert!(!force_break);
    assert_eq!(n.header, Header::Block(BlockID(2)));
    assert_eq!(n.swarm_time, SwarmTime(11));
    assert_eq!(n.neighborhood, Neighborhood(1));
    assert!(n.new_message_recieved);
    assert!(n.payload.has_data());
    let again = msg(12, 2, Header::Block(BlockID(2)), Payload::KeepAlive(99));
    let (sane, new_proposal, _drop, force_break) = n.accept_message(again);
    assert!(sane && !new_proposal && force_break);
    assert_eq!(n.prev_neighborhood, Some(Neighborhood(1)));
    assert_eq!(n.available_bandwith, 99);
}

#[test]
fn rejected_message_changes_nothing() {
    let mut n = neighbor(4);
    let m = msg(5, 0, Header::Sync, Payload::KeepAlive(3));
    assert_eq!(n.accept_message(m), (false, false, false, false));
    assert_eq!(n.swarm_time, SwarmTime(10));
    assert_eq!(n.available_bandwith, 1024);
}

#[test]
fn timeouts_shift_and_count() {
    let mut n = neighbor(4);
    n.add_timeout();
    n.add_timeout();
    assert_eq!(n.timeouts_count(), 2);
    n.shift_timeout();
    assert_eq!(n.timeouts, [0, 2, 0, 0, 0, 0, 0, 0]);
    n.add_timeout();
    assert_eq!(n.timeouts_count(), 3);
    for _ in 0..8 {
        n.shift_timeout();
    }
    assert_eq!(n.timeouts_count(), 0);
}

#[test]
fn new_round_resets_neighbor() {
    let mut n = neighbor(4);
    n.neighborhood = Neighborhood(5);
    n.header = Header::Block(BlockID(1));
    n.start_new_round(SwarmTime(50));
    assert_eq!(n.round_start, SwarmTime(50));
    assert_eq!(n.header, Header::Sync);
    assert_eq!(n.payload, Payload::KeepAlive(1024));
    assert_eq!(n.neighborhood, Neighborhood(0));
    assert_eq!(n.prev_neighborhood, None);
}

#[test]
fn verification_key_choice() {
    let mut reg = KeyRegistry::new8();
    reg.insert(GnomeId(3), vec![3, 3]);
    assert_eq!(verification_key(&Signature::Regular(GnomeId(3), vec![]), &reg), Some(vec![3, 3]));
    assert_eq!(verification_key(&Signature::Regular(GnomeId(4), vec![]), &reg), None);
    assert_eq!(
        verification_key(&Signature::Extended(GnomeId(4), vec![8], vec![]), &reg),
        Some(vec![8])
    );
}

#[test]
fn next_state_follows_highest_header() {
    let mut ns = NextState::new();
    ns.last_accepted_message = msg(0, 0, Header::Sync, Payload::KeepAlive(0));
    ns.swarm_time = SwarmTime(20);
    ns.neighborhood = Neighborhood(3);
    let mut n = neighbor(4);
    n.header = Header::Block(BlockID(9));
    n.swarm_time = SwarmTime(15);
    n.new_message_recieved = true;
    ns.update(&mut n);
    assert!(!n.new_message_recieved);
    assert_eq!(ns.header, Header::Block(BlockID(9)));
    assert_eq!(ns.swarm_time, SwarmTime(15));
    assert_eq!(ns.neighborhood, Neighborhood(0));
    let (st, hood, header, _payload) = ns.next_params();
    assert_eq!(st, SwarmTime(16));
    assert_eq!(hood, Neighborhood(0));
    assert_eq!(header, Header::Block(BlockID(9)));
}

#[test]
fn next_state_ignores_neighbor_without_news() {
    let mut ns = NextState::new();
    let mut n = neighbor(4);
    n.header = Header::Block(BlockID(9));
    ns.update(&mut n);
    assert_eq!(ns.header, Header::Sync);
    assert!(!ns.turn_update_with_a_message);
}

#[test]
fn next_state_adopts_broadcast_reconfiguration() {
    let mut ns = NextState::new();
    ns.last_accepted_message = msg(0, 0, Header::Sync, Payload::KeepAlive(0));
    let mut n = neighbor(4);
    n.header = Header::Reconfigure(254, GnomeId(8));
    n.payload = Payload::Reconfigure(
        Signature::Regular(GnomeId(8), vec![]),
        Configuration::StartBroadcast(GnomeId(8), CastID(2)),
    );
    n.new_message_recieved = true;
    ns.update(&mut n);
    match &ns.change_config {
        ChangeConfig::AddBroadcast { id, origin, source, filtered_neighbors, turn_ended } => {
            assert_eq!(*id, CastID(2));
            assert_eq!(*origin, GnomeId(8));
            assert_eq!(*source, GnomeId(4));
            assert!(filtered_neighbors.is_empty());
            assert!(!turn_ended);
        }
        other => panic!("unexpected {:?}", other),
    }
    ns.change_config.add_filtered_neighbor(GnomeId(6));
    ns.change_config.end_turn();
    ns.change_config.add_filtered_neighbor(GnomeId(7));
    match &ns.change_config {
        ChangeConfig::AddBroadcast { filtered_neighbors, turn_ended, .. } => {
            assert_eq!(filtered_neighbors, &vec![GnomeId(6)]);
            assert!(*turn_ended);
        }
        other => panic!("unexpected {:?}", other),
    }
}

#[test]
fn next_state_reset_for_turns() {
    let mut ns = NextState::new();
    ns.neighborhood = Neighborhood(2);
    ns.reset_for_next_turn(false, Header::Sync, Payload::KeepAlive(5));
    assert_eq!(ns.neighborhood, Neighborhood(3));
    assert_eq!(ns.swarm_time, SwarmTime(1));
    assert_eq!(ns.swarm_time_max, SwarmTime(2));
    ns.reset_for_next_turn(
        true,
        Header::Reconfigure(254, GnomeId(1)),
        Payload::Reconfigure(
            Signature::Regular(GnomeId(1), vec![]),
            Configuration::StartBroadcast(GnomeId(1), CastID(0)),
        ),
    );
    assert_eq!(ns.neighborhood, Neighborhood(0));
    assert!(!ns.all_neighbors_same_header);
    match &ns.change_config {
        ChangeConfig::AddBroadcast { source, .. } => assert_eq!(*source, GnomeId(1)),
        other => panic!("unexpected {:?}", other),
    }
}
