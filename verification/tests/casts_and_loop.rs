use swarm_consensus::gnome::{adjust_sleep, count_silence, decide_turn, TurnDecision, MAX_SLEEP_NSEC, MIN_SLEEP_NSEC};
use swarm_consensus::multicast::{CastContent, CastMessage, CastType, Multicast};
use swarm_consensus::neighbor::{route_cast, CastRoute, NeighborRequest, NeighborResponse};
use swarm_consensus::swarm::{Swarm, SwarmID, SwarmName};
use swarm_consensus::{CastData, CastID, GnomeId};

#[test]
fn cast_messages_carry_what_they_were_made_with() {
    let data = CastData::new(vec![1, 2]).unwrap();
    let b = CastMessage::new_broadcast(CastID(4), data.clone());
    assert!(b.is_broadcast() && !b.is_unicast() && !b.is_multicast());
    assert_eq!(b.id(), CastID(4));
    assert_eq!(b.get_data(), Some(data.clone()));
    let req = CastMessage::new_request(NeighborRequest::SubscribeRequest(true, CastID(9)));
    assert_eq!((req.c_type, req.id), (CastType::Unicast, CastID(255)));
    assert_eq!(req.clone().get_data(), None);
    assert_eq!(req.get_request(), Some(NeighborRequest::SubscribeRequest(true, CastID(9))));
    let resp = CastMessage::new_response(NeighborResponse::ForwardConnectFailed);
    assert_eq!(resp.id, CastID(254));
    assert_eq!(resp.get_response(), Some(NeighborResponse::ForwardConnectFailed));
    let m = CastMessage::new_multicast(CastID(2), data.clone());
    assert!(matches!(m.content, CastContent::Data(_)));
    assert!(CastMessage::new_unicast(CastID(1), data).is_unicast());
}

#[test]
fn cast_routing() {
    assert_eq!(route_cast(CastType::Broadcast, CastID(255)), CastRoute::Broadcast);
    assert_eq!(route_cast(CastType::Multicast, CastID(254)), CastRoute::Multicast);
    assert_eq!(route_cast(CastType::Unicast, CastID(255)), CastRoute::Request);
    assert_eq!(route_cast(CastType::Unicast, CastID(254)), CastRoute::Response);
    assert_eq!(route_cast(CastType::Unicast, CastID(3)), CastRoute::Unicast);
}

#[test]
fn multicast_subscribers_stay_distinct() {
    let mut cast = Multicast::new(GnomeId(1), GnomeId(2), vec![GnomeId(5), GnomeId(6)], vec![GnomeId(3)], true);
    cast.add_subscriber(GnomeId(4));
    cast.add_subscriber(GnomeId(3));
    assert_eq!(cast.subscribers(), vec![GnomeId(3), GnomeId(4)]);
    assert!(cast.remove_subscriber(&GnomeId(3)));
    assert!(!cast.remove_subscriber(&GnomeId(3)));
    assert_eq!(cast.subscribers(), vec![GnomeId(4)]);
    assert_eq!(cast.get_alt_sources(GnomeId(5)), vec![GnomeId(6)]);
    cast.set_source(GnomeId(6));
    assert_eq!((cast.origin(), cast.source()), (GnomeId(1), GnomeId(6)));
    cast.dont_send_to_app();
    assert!(!cast.to_app);
}

#[test]
fn sleep_adjustment() {
    assert_eq!(adjust_sleep(1024, true), 256);
    assert_eq!(adjust_sleep(256, true), MIN_SLEEP_NSEC);
    assert_eq!(adjust_sleep(MIN_SLEEP_NSEC, true), MIN_SLEEP_NSEC);
    assert_eq!(adjust_sleep(1024, false), 2048);
    assert_eq!(adjust_sleep(MAX_SLEEP_NSEC, false), MAX_SLEEP_NSEC);
    assert_eq!(adjust_sleep(MAX_SLEEP_NSEC / 2 + 1, false), MAX_SLEEP_NSEC);
}

#[test]
fn turn_decisions() {
    assert_eq!(decide_turn(true, false, false, false), TurnDecision::Advance);
    assert_eq!(decide_turn(false, true, false, false), TurnDecision::Advance);
    assert_eq!(decide_turn(false, false, true, true), TurnDecision::Advance);
    assert_eq!(decide_turn(false, false, true, false), TurnDecision::Silent);
    assert_eq!(decide_turn(false, false, false, true), TurnDecision::Wait);
}

#[test]
fn silence_is_counted_to_five() {
    let mut count = 0u8;
    for _ in 0..4 {
        let (next, give_up) = count_silence(count);
        assert!(!give_up);
        count = next;
    }
    assert_eq!(count, 4);
    assert_eq!(count_silence(count), (0, true));
}

#[test]
fn claiming_an_offered_unicast_id() {
    let name = SwarmName::new(GnomeId(1), "u".to_string()).unwrap();
    let mut swarm = Swarm::new(name, SwarmID(0));
    let mut offered = [CastID(0); 256];
    offered[0] = CastID(7);
    offered[1] = CastID(7);
    offered[2] = CastID(8);
    assert_eq!(swarm.claim_unicast_id(&offered), Some(CastID(7)));
    assert_eq!(swarm.claim_unicast_id(&offered), Some(CastID(8)));
    assert!(!swarm.is_unicast_id_available(CastID(8)));
    let all_taken = [CastID(7); 256];
    assert_eq!(swarm.claim_unicast_id(&all_taken), None);
}
