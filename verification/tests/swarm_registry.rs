use swarm_consensus::capabilities::{CapabiliTree, Capabilities};
use swarm_consensus::message::{BlockID, Header, Message, Payload, Signature};
use swarm_consensus::multicast::Multicast;
use swarm_consensus::neighbor::Neighborhood;
use swarm_consensus::policy::Policy;
use swarm_consensus::requirement::Requirement;
use swarm_consensus::swarm::{Swarm, SwarmID, SwarmName, SwarmType};
use swarm_consensus::{CastID, GnomeId, SwarmTime, SyncData};

fn swarm_with_founder(founder: u64) -> Swarm {
    let name = SwarmName::new(GnomeId(founder), String::from("test")).unwrap();
    Swarm::new(name, SwarmID(1))
}

fn block_message(signer: u64, bytes: Vec<u8>) -> Message {
    let data = SyncData::new(bytes).unwrap();
    Message::new(
        SwarmTime(1),
        Header::Block(BlockID(3)),
        Payload::Block(BlockID(3), Signature::Regular(GnomeId(signer), vec![]), data),
        Neighborhood(0),
    )
}

#[test]
fn new_swarm_only_founder_passes_default_policy() {
    let swarm = swarm_with_founder(42);
    assert_eq!(swarm.swarm_type, SwarmType::Catalog);
    assert_eq!(swarm.diameter, SwarmTime(7));
    assert!(swarm.check_config_policy(&GnomeId(42), 254));
    assert!(!swarm.check_config_policy(&GnomeId(7), 254));
    assert!(swarm.check_data_policy(&GnomeId(42), 1, 2, 3));
    assert!(!swarm.check_data_policy(&GnomeId(7), 1, 2, 3));
}

#[test]
fn unknown_founder_swarm_has_no_founder_capability() {
    let swarm = swarm_with_founder(0);
    assert!(swarm.capability_reg.is_empty());
    assert!(!swarm.check_config_policy(&GnomeId(0), 254));
}

#[test]
fn data_policy_prefers_first_byte_then_data_then_default() {
    let mut swarm = swarm_with_founder(42);
    swarm.set_policy(Policy::Data, Requirement::DataByte2Is(9));
    assert!(swarm.check_data_policy(&GnomeId(7), 1, 9, 0));
    assert!(!swarm.check_data_policy(&GnomeId(42), 1, 8, 0));
    swarm.set_policy(Policy::DataWithFirstByte(1), Requirement::Empty);
    assert!(swarm.check_data_policy(&GnomeId(7), 1, 8, 0));
    assert!(!swarm.check_data_policy(&GnomeId(7), 2, 8, 0));
}

#[test]
fn verify_policy_reads_the_signer() {
    let swarm = swarm_with_founder(42);
    assert!(swarm.verify_policy(&block_message(42, vec![1, 2, 3])));
    assert!(!swarm.verify_policy(&block_message(5, vec![1, 2, 3])));
    let sync = Message::new(SwarmTime(1), Header::Sync, Payload::KeepAlive(1), Neighborhood(0));
    assert!(swarm.verify_policy(&sync));
    let reconf = Message::new(
        SwarmTime(1),
        Header::Reconfigure(254, GnomeId(5)),
        Payload::KeepAlive(0),
        Neighborhood(0),
    );
    assert!(!swarm.verify_policy(&reconf));
}

#[test]
fn config_to_policy_mapping() {
    assert_eq!(Swarm::config_to_policy(254), Policy::StartBroadcast);
    assert_eq!(Swarm::config_to_policy(245), Policy::InsertPubkey);
    assert_eq!(Swarm::config_to_policy(12), Policy::UserDefined(12));
}

#[test]
fn set_founder_replaces_founder_capability() {
    let mut swarm = swarm_with_founder(42);
    swarm.set_founder(GnomeId(77));
    assert_eq!(swarm.name.founder, GnomeId(77));
    assert!(swarm.check_config_policy(&GnomeId(77), 254));
    assert!(!swarm.check_config_policy(&GnomeId(42), 254));
}

#[test]
fn insert_capability_keeps_last_gnome_only() {
    let mut swarm = swarm_with_founder(42);
    swarm.insert_capability(Capabilities::Admin, vec![GnomeId(1), GnomeId(2), GnomeId(3)]);
    swarm.set_policy(Policy::StartBroadcast, Requirement::Has(Capabilities::Admin));
    assert!(swarm.check_config_policy(&GnomeId(3), 254));
    assert!(!swarm.check_config_policy(&GnomeId(1), 254));
    swarm.insert_capability(Capabilities::Admin, vec![]);
    assert!(swarm.check_config_policy(&GnomeId(3), 254));
}

#[test]
fn pubkey_chunks_must_come_in_order() {
    let mut swarm = swarm_with_founder(42);
    swarm.mark_pubkeys_unsynced();
    assert!(swarm.insert_pubkeys(1, 2, vec![(GnomeId(5), vec![5; 4])]));
    assert_eq!(swarm.last_accepted_pubkey_chunk, (1, 2));
    assert_eq!(swarm.key_reg.get(GnomeId(5)), Some(vec![5; 4]));
    assert!(swarm.insert_pubkeys(2, 2, vec![(GnomeId(6), vec![6; 4])]));
    assert_eq!(swarm.last_accepted_pubkey_chunk, (0, 0));
    assert!(swarm.key_reg.has_key(GnomeId(6)));
    assert!(!swarm.insert_pubkeys(2, 2, vec![(GnomeId(7), vec![7; 4])]));
    assert!(!swarm.key_reg.has_key(GnomeId(7)));
}

#[test]
fn pubkey_chunk_out_of_order_ends_sync() {
    let mut swarm = swarm_with_founder(42);
    swarm.mark_pubkeys_unsynced();
    assert!(!swarm.insert_pubkeys(2, 3, vec![]));
    assert_eq!(swarm.last_accepted_pubkey_chunk, (0, 0));
}

fn cast(origin: u64, source: u64) -> Multicast {
    Multicast::new(GnomeId(origin), GnomeId(source), vec![GnomeId(8), GnomeId(9)], vec![], true)
}

#[test]
fn broadcast_ids_are_allocated_lowest_first() {
    let mut swarm = swarm_with_founder(42);
    assert_eq!(swarm.next_broadcast_id(), Some(CastID(0)));
    swarm.insert_broadcast(CastID(0), cast(1, 2));
    swarm.insert_broadcast(CastID(1), cast(1, 2));
    assert_eq!(swarm.next_broadcast_id(), Some(CastID(2)));
    assert!(!swarm.is_broadcast_id_available(CastID(1)));
    assert!(swarm.is_multicast_id_available(CastID(1)));
    assert_eq!(swarm.broadcasts_count(), 2);
    assert_eq!(swarm.multicasts_count(), 0);
    assert_eq!(
        swarm.broadcast_ids(),
        vec![(CastID(0), GnomeId(1)), (CastID(1), GnomeId(1))]
    );
    let avail = swarm.avail_broadcast_ids();
    assert_eq!(avail.len(), 254);
    assert_eq!(avail[0], CastID(2));
}

#[test]
fn unicast_ids_reserve_two_ids() {
    let mut swarm = swarm_with_founder(42);
    assert_eq!(swarm.avail_unicast_ids().len(), 254);
    swarm.insert_unicast(CastID(3));
    swarm.insert_unicast(CastID(3));
    assert!(!swarm.is_unicast_id_available(CastID(3)));
    let avail = swarm.avail_unicast_ids();
    assert_eq!(avail.len(), 253);
    assert!(!avail.contains(&CastID(3)));
    assert!(!avail.contains(&CastID(254)));
}

#[test]
fn subscribers_sources_and_removal() {
    let mut swarm = swarm_with_founder(42);
    swarm.insert_broadcast(CastID(4), cast(1, 2));
    assert_eq!(swarm.add_subscriber(true, &CastID(4), GnomeId(11)), Some(GnomeId(1)));
    assert_eq!(swarm.add_subscriber(true, &CastID(4), GnomeId(11)), Some(GnomeId(1)));
    assert_eq!(swarm.add_subscriber(false, &CastID(4), GnomeId(11)), None);
    assert!(swarm.remove_subscriber(true, &CastID(4), GnomeId(11)));
    assert!(!swarm.remove_subscriber(true, &CastID(4), GnomeId(11)));
    assert_eq!(swarm.get_alt_sources(true, &CastID(4), GnomeId(8)), vec![GnomeId(9)]);
    assert_eq!(swarm.get_source(&CastID(4), true), Some(GnomeId(2)));
    swarm.set_source(&CastID(4), true, GnomeId(9));
    assert_eq!(swarm.get_source(&CastID(4), true), Some(GnomeId(9)));
    swarm.add_subscriber(true, &CastID(4), GnomeId(12));
    let removed = swarm.remove_cast(true, &CastID(4)).unwrap();
    assert_eq!(removed, (GnomeId(9), vec![GnomeId(12)]));
    assert_eq!(swarm.remove_cast(true, &CastID(4)), None);
}

#[test]
fn unsubscribing_own_cast_keeps_it() {
    let mut swarm = swarm_with_founder(42);
    swarm.insert_multicast(CastID(1), cast(42, 42));
    assert_eq!(swarm.unsubscribe_cast(GnomeId(42), false, &CastID(1)), None);
    assert!(!swarm.is_multicast_id_available(CastID(1)));
    swarm.insert_multicast(CastID(2), cast(5, 6));
    swarm.add_subscriber(false, &CastID(2), GnomeId(13));
    assert_eq!(
        swarm.unsubscribe_cast(GnomeId(42), false, &CastID(2)),
        Some((GnomeId(5), vec![GnomeId(13)]))
    );
    assert!(swarm.is_multicast_id_available(CastID(2)));
}

#[test]
fn policy_chunks_hold_every_policy() {
    let mut swarm = swarm_with_founder(42);
    swarm.set_policy(Policy::Data, Requirement::Empty);
    let chunks = swarm.policy_chunks();
    assert_eq!(chunks.len(), 1);
    assert_eq!(chunks[0].len(), 2);
    assert_eq!(chunks[0][0].0, Policy::Default);
    assert_eq!(chunks[0][1], (Policy::Data, Requirement::Empty));
}

#[test]
fn capability_chunks_list_holders() {
    let mut swarm = swarm_with_founder(42);
    swarm.insert_capability(Capabilities::Admin, vec![GnomeId(3)]);
    let chunks = swarm.capabilities_chunks();
    assert_eq!(chunks.len(), 1);
    assert_eq!(chunks[0].len(), 2);
    assert_eq!(chunks[0][0], (Capabilities::Founder, vec![GnomeId(42)]));
    assert_eq!(chunks[0][1], (Capabilities::Admin, vec![GnomeId(3)]));
}

#[test]
fn capability_tree_membership() {
    let mut t = CapabiliTree::create();
    assert!(t.empty());
    t.insert(GnomeId(10));
    t.insert(GnomeId(u64::MAX));
    t.insert(GnomeId(1 << 40));
    assert!(t.contains(&GnomeId(10)));
    assert!(t.contains(&GnomeId(u64::MAX)));
    assert!(!t.contains(&GnomeId(11)));
    let mut ids = t.id_vec();
    ids.sort();
    assert_eq!(ids, vec![GnomeId(10), GnomeId(1 << 40), GnomeId(u64::MAX)]);
    t.remove(GnomeId(10));
    assert!(!t.contains(&GnomeId(10)));
    assert!(t.contains(&GnomeId(1 << 40)));
}

#[test]
fn inserting_a_held_id_changes_nothing() {
    let mut t = CapabiliTree::create();
    for id in [5u64, u64::MAX >> 1, 1 << 62, 77] {
        t.insert(GnomeId(id));
    }
    let before = t.id_vec();
    t.insert(GnomeId(77));
    t.insert(GnomeId(u64::MAX >> 1));
    assert_eq!(t.id_vec(), before);
    assert_eq!(before[0], GnomeId(u64::MAX >> 1));
}

#[test]
fn reinserting_after_a_removal_may_repeat_an_id() {
    let m = u64::MAX >> 1;
    let ml = m - (u64::MAX >> 2);
    let mut t = CapabiliTree::create();
    t.insert(GnomeId(m));
    t.insert(GnomeId(ml));
    t.insert(GnomeId(m - 1));
    assert!(!t.remove(GnomeId(m)));
    assert_eq!(t.id_vec(), vec![GnomeId(ml), GnomeId(m - 1)]);
    t.insert(GnomeId(m - 1));
    assert_eq!(t.id_vec(), vec![GnomeId(m - 1), GnomeId(ml), GnomeId(m - 1)]);
}
