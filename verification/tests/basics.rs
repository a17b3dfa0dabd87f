use swarm_consensus::awareness::Awareness;
use swarm_consensus::band_mon::BandwidthMonitor;
use swarm_consensus::gnome::{
    IpAddress, Nat, NeighborDiscovery, NetworkSettings, PortAllocationRule, Proposal,
};
use swarm_consensus::message::{BlockID, Configuration, Header, Payload, Signature};
use swarm_consensus::{CastID, GnomeId, SwarmTime, SyncData};
use std::time::Duration;

#[test]
fn awareness_queries() {
    let a = Awareness::Aware(3);
    assert_eq!(a.neighborhood(), Some(3));
    assert!(a.is_aware());
    assert!(!a.is_unaware());
    assert!(!a.is_confused());
    let u = Awareness::Unaware;
    assert_eq!(u.neighborhood(), None);
    assert!(u.is_unaware());
    let c = Awareness::Confused(2);
    assert_eq!(c.neighborhood(), None);
    assert!(c.is_confused());
}

#[test]
fn nat_from_bytes() {
    assert_eq!(Nat::from(1), Nat::NotNatted);
    assert_eq!(Nat::from(2), Nat::FullCone);
    assert_eq!(Nat::from(4), Nat::AddressRestrictedCone);
    assert_eq!(Nat::from(8), Nat::PortRestrictedCone);
    assert_eq!(Nat::from(16), Nat::SymmetricWithPortControl);
    assert_eq!(Nat::from(32), Nat::Symmetric);
    assert_eq!(Nat::from(0), Nat::Unknown);
    assert_eq!(Nat::from(3), Nat::Unknown);
}

#[test]
fn port_rule_from_bytes() {
    assert_eq!(PortAllocationRule::from(1), PortAllocationRule::FullCone);
    assert_eq!(PortAllocationRule::from(2), PortAllocationRule::AddressSensitive);
    assert_eq!(PortAllocationRule::from(4), PortAllocationRule::PortSensitive);
    assert_eq!(PortAllocationRule::from(0), PortAllocationRule::Random);
    assert_eq!(PortAllocationRule::from(7), PortAllocationRule::Random);
}

fn settings(rule: PortAllocationRule, step: i8, port: u16) -> NetworkSettings {
    NetworkSettings {
        pub_ip: IpAddress::V4([10, 0, 0, 1]),
        pub_port: port,
        nat_type: Nat::PortRestrictedCone,
        port_allocation: (rule, step),
    }
}

#[test]
fn port_increment_follows_rule() {
    let up = settings(PortAllocationRule::PortSensitive, 3, 1000);
    assert_eq!(up.port_increment(1000), 1003);
    let down = settings(PortAllocationRule::AddressSensitive, -4, 1000);
    assert_eq!(down.port_increment(1000), 996);
    let cone = settings(PortAllocationRule::FullCone, 5, 1000);
    assert_eq!(cone.port_increment(1000), 1000);
}

#[test]
fn predicted_address_counts_connections() {
    let up = settings(PortAllocationRule::PortSensitive, 2, 2000);
    assert_eq!(up.get_predicted_addr(0), (IpAddress::V4([10, 0, 0, 1]), 2002));
    assert_eq!(up.get_predicted_addr(3), (IpAddress::V4([10, 0, 0, 1]), 2008));
    let random = settings(PortAllocationRule::Random, 2, 2000);
    assert_eq!(random.get_predicted_addr(5).1, 2000);
}

#[test]
fn network_settings_predicates() {
    let s = NetworkSettings::new_not_natted(IpAddress::V4([1, 2, 3, 4]), 80);
    assert!(s.no_nat());
    assert!(s.nat_at_most_address_sensitive());
    assert!(!s.refresh_required());
    assert!(s.port_allocation_predictable());
    let d = NetworkSettings::default();
    assert!(d.nat_unknown());
    assert!(d.refresh_required());
    assert!(!d.port_allocation_predictable());
    assert_eq!(d.pub_port, 1026);
    let sym = NetworkSettings { nat_type: Nat::Symmetric, ..d };
    assert!(sym.nat_symmetric());
    let sp = settings(PortAllocationRule::PortSensitive, 1, 5);
    assert!(sp.port_sensitive_allocation());
    assert!(sp.nat_port_restricted());
    let mut upd = d;
    upd.set_port(9);
    assert_eq!(upd.pub_port, 9);
    upd.update(sp);
    assert_eq!(upd, sp);
}

#[test]
fn neighbor_discovery_ticks() {
    let mut d = NeighborDiscovery::default();
    assert!(d.tick_and_check());
    assert_eq!(d.counter, 0);
    assert_eq!(d.attempts, 3);
    assert!(!d.try_next);
    assert!(!d.tick_and_check());
    d.try_next = true;
    assert!(d.tick_and_check());
    assert_eq!(d.attempts, 2);
    assert!(!d.try_next);
}

#[test]
fn proposal_from_payload_and_back() {
    let data = SyncData::new(vec![1, 2, 3]).unwrap();
    let payload = Payload::Block(BlockID(7), Signature::Regular(GnomeId(1), vec![]), data);
    let p = Proposal::new(payload);
    assert!(p.can_be_extended());
    assert_eq!(p.signed_bytes(), vec![1, 2, 3]);
    let (h, pl) = p.to_header_payload(GnomeId(5), true, vec![9, 9], vec![1, 2, 3, 4], vec![7]);
    assert_eq!(h, Header::Block(BlockID(7)));
    match pl {
        Payload::Block(id, Signature::Extended(g, k, s), d) => {
            assert_eq!(id, BlockID(7));
            assert_eq!(g, GnomeId(5));
            assert_eq!(k, vec![9, 9]);
            assert_eq!(s, vec![7]);
            assert_eq!(d.bytes(), vec![1, 2, 3, 4]);
        }
        _ => panic!("expected a block"),
    }
}

#[test]
fn proposal_config_header() {
    let p = Proposal::Config(Configuration::StartBroadcast(GnomeId(3), CastID(4)));
    let (h, pl) = p.to_header_payload(GnomeId(3), false, vec![], vec![], vec![1]);
    assert_eq!(h, Header::Reconfigure(254, GnomeId(3)));
    assert_eq!(
        pl,
        Payload::Reconfigure(
            Signature::Regular(GnomeId(3), vec![1]),
            Configuration::StartBroadcast(GnomeId(3), CastID(4))
        )
    );
    let long = Proposal::Config(Configuration::InsertPubkey(GnomeId(1), vec![0; 900]));
    assert!(!long.can_be_extended());
}

#[test]
fn bandwidth_monitor_periods() {
    let mut m = BandwidthMonitor::new(Duration::from_secs(3600));
    assert_eq!(m.average(), 0);
    let t = std::time::SystemTime::now();
    m.update_at(160, t, true);
    assert_eq!(m.average(), 10);
    m.update_at(5, t, false);
    assert_eq!(m.average(), 10);
    m.update_at(11, t, true);
    assert_eq!(m.average(), 11);
    m.update(1);
    assert!(m.average() >= 11);
}

#[test]
fn swarm_time_wraps() {
    assert_eq!(SwarmTime(5).inc(), SwarmTime(6));
    assert_eq!(SwarmTime(u32::MAX).inc(), SwarmTime(0));
}
