use std::collections::{HashMap, HashSet};
use swarm_consensus::capabilities::{CapabiliTree, Capabilities};
use swarm_consensus::data::{MAX_CAST_DATA, MAX_SYNC_DATA};
use swarm_consensus::key_registry::KeyRegistry;
use swarm_consensus::message::{BlockID, Configuration, Header, Message, Payload, Signature};
use swarm_consensus::neighbor::Neighborhood;
use swarm_consensus::policy::Policy;
use swarm_consensus::proposal::{Data, MAX_DATA};
use swarm_consensus::requirement::Requirement;
use swarm_consensus::swarm::{ByteSet, SwarmName, SwarmType};
use swarm_consensus::{CastData, CastID, GnomeId, SwarmTime, SyncData};

#[test]
fn gnome_id_bytes_are_big_endian() {
    let id = GnomeId(0x0102_0304_0506_0708);
    assert_eq!(id.bytes(), [1, 2, 3, 4, 5, 6, 7, 8]);
    assert_eq!(GnomeId::from(id.bytes()), id);
    assert!(GnomeId::any().is_any());
    assert!(!id.is_any());
}

#[test]
fn configuration_bytes_roundtrip() {
    let start = Configuration::StartBroadcast(GnomeId(7), CastID(3));
    let bytes = start.bytes();
    assert_eq!(bytes, vec![254, 0, 0, 0, 0, 0, 0, 0, 7, 3]);
    assert_eq!(Configuration::from_bytes(bytes), start);
    let key = Configuration::InsertPubkey(GnomeId(9), vec![1, 2, 3]);
    assert_eq!(key.len(), 12);
    assert_eq!(Configuration::from_bytes(key.bytes()), key);
    assert_eq!(Configuration::EndBroadcast(CastID(5)).bytes(), vec![252, 5]);
    assert_eq!(Configuration::UserDefined(17).bytes(), vec![17]);
    assert_eq!(Configuration::from_bytes(vec![17]), Configuration::UserDefined(17));
    assert_eq!(start.as_gid(), GnomeId(7));
    assert_eq!(start.as_ct(), 254);
}

#[test]
fn configurations_that_do_not_survive_serialization() {
    assert_eq!(
        Configuration::from_bytes(Configuration::EndMulticast(CastID(1)).bytes()),
        Configuration::EndMulticast(CastID(0))
    );
    assert_eq!(
        Configuration::from_bytes(Configuration::UserDefined(248).bytes()),
        Configuration::CreateGroup
    );
}

#[test]
fn header_order() {
    let sync = Header::Sync;
    let reconf = Header::Reconfigure(250, GnomeId(1));
    let block = Header::Block(BlockID(2));
    assert!(reconf.is_above(&sync));
    assert!(block.is_above(&reconf));
    assert!(!sync.is_above(&sync));
    assert!(Header::Reconfigure(250, GnomeId(2)).is_above(&reconf));
    assert!(Header::Block(BlockID(3)).is_above(&block));
    assert!(!block.is_above(&Header::Block(BlockID(3))));
    assert!(block.non_zero_block());
    assert!(!Header::Block(BlockID(0)).non_zero_block());
}

#[test]
fn message_unpack_and_pack() {
    let config = Configuration::StartBroadcast(GnomeId(4), CastID(1));
    let payload = Payload::Reconfigure(Signature::Regular(GnomeId(4), vec![9, 9]), config.clone());
    let message = Message::new(SwarmTime(10), Header::Reconfigure(254, GnomeId(4)), payload, Neighborhood(2));
    let (st, hood, header, is_config, sb) = message.unpack();
    assert_eq!((st, hood, header, is_config), (SwarmTime(10), Neighborhood(2), Header::Reconfigure(254, GnomeId(4)), true));
    let (signature, bytes) = sb.unwrap();
    assert_eq!(bytes, config.bytes());
    let mut packed = Message::bye();
    packed.pack(st, hood, header, is_config, Some((signature.clone(), bytes)));
    assert_eq!(packed.payload, Payload::Reconfigure(signature, config));
    assert_eq!(packed.swarm_time, SwarmTime(10));
    assert!(Message::bye().is_bye());
}

#[test]
fn payload_queries() {
    let data = SyncData::new(vec![1, 2, 3]).unwrap();
    let payload = Payload::Block(BlockID(5), Signature::Extended(GnomeId(2), vec![7], vec![8]), data.clone());
    assert!(payload.has_signature());
    assert!(payload.is_signature_extended());
    assert!(payload.has_data());
    assert_eq!(payload.clone().id_and_data(), Some((BlockID(5), data)));
    assert!(!Payload::KeepAlive(3).has_signature());
    assert_eq!(Signature::Extended(GnomeId(2), vec![7], vec![8]).pubkey(), Some((GnomeId(2), vec![7])));
    assert_eq!(Signature::Regular(GnomeId(2), vec![8]).pubkey(), None);
}

#[test]
fn policy_bytes_and_text() {
    for policy in [Policy::Default, Policy::Data, Policy::InsertPubkey, Policy::DataWithFirstByte(7), Policy::UserDefined(12)] {
        let mut bytes = vec![];
        policy.append_bytes_to(&mut bytes);
        bytes.push(99);
        assert_eq!(Policy::from(&mut bytes), policy);
        assert_eq!(bytes, vec![99]);
    }
    assert_eq!(Policy::DataWithFirstByte(42).text(), "DataWithFirstByte(42)");
    assert_eq!(Policy::UserDefined(0).text(), "UserDefined(0)");
    assert_eq!(Policy::UserDefined(9).text(), "UserDefined(9)");
    assert_eq!(Policy::UserDefined(100).text(), "UserDefined(100)");
    assert_eq!(Policy::DataWithFirstByte(255).text(), "DataWithFirstByte(255)");
    assert_eq!(Policy::DataWithFirstByte(10).text(), "DataWithFirstByte(10)");
    assert_eq!(Policy::ChangeBroadcastOrigin.text(), "ChangeBroadcastOrigin");
    let mut bytes = vec![];
    Policy::UserDefined(243).append_bytes_to(&mut bytes);
    bytes.push(5);
    assert_eq!(Policy::from(&mut bytes), Policy::DataWithFirstByte(5));
}

#[test]
fn policy_mapping_lists_every_policy_once() {
    let (policies, texts) = Policy::mapping();
    assert_eq!(policies.len(), texts.len());
    assert_eq!(policies[0], Policy::Default);
    let unique: HashSet<Policy> = policies.iter().copied().collect();
    assert_eq!(unique.len(), policies.len());
    for (p, t) in policies.iter().zip(texts.iter()) {
        assert_eq!(&p.text(), t);
    }
    assert!(policies.contains(&Policy::DataWithFirstByte(255)));
    assert!(policies.contains(&Policy::UserDefined(0)));
}

#[test]
fn requirement_bytes_roundtrip() {
    let req = Requirement::And(
        Box::new(Requirement::Has(Capabilities::Admin)),
        Box::new(Requirement::Or(Box::new(Requirement::DataByte2Is(4)), Box::new(Requirement::Empty))),
    );
    let mut bytes = vec![];
    req.append_bytes_to(&mut bytes);
    assert_eq!(bytes, vec![220, 100, 253, 210, 80, 4, 0]);
    assert_eq!(req.len() as usize, bytes.len());
    bytes.push(1);
    assert_eq!(Requirement::from(&mut bytes), req);
    assert_eq!(bytes, vec![1]);
}

#[test]
fn requirements_are_checked_against_capabilities_and_data() {
    let mut tree = CapabiliTree::create();
    tree.insert(GnomeId(3));
    let caps = vec![(Capabilities::Admin, tree)];
    let mut sets = HashMap::new();
    sets.insert(1u8, ByteSet::new(HashSet::from([10u8, 20])));
    let has_admin = Requirement::Has(Capabilities::Admin);
    assert!(has_admin.is_fullfilled(&GnomeId(3), &caps, &sets, None, None));
    assert!(!has_admin.is_fullfilled(&GnomeId(4), &caps, &sets, None, None));
    let in_set = Requirement::DataByte2InSet(1);
    assert!(in_set.is_fullfilled(&GnomeId(4), &caps, &sets, Some(20), None));
    assert!(!in_set.is_fullfilled(&GnomeId(4), &caps, &sets, Some(21), None));
    assert!(!in_set.is_fullfilled(&GnomeId(4), &caps, &sets, None, None));
    let both = Requirement::And(Box::new(has_admin), Box::new(Requirement::DataByte3IsNot(5)));
    assert!(both.is_fullfilled(&GnomeId(3), &caps, &sets, None, Some(6)));
    assert!(!both.is_fullfilled(&GnomeId(3), &caps, &sets, None, Some(5)));
    assert!(Requirement::Empty.is_fullfilled(&GnomeId(9), &caps, &sets, None, None));
}

#[test]
fn capability_and_swarm_type_bytes() {
    for c in [Capabilities::Founder, Capabilities::Owner, Capabilities::Superuser, Capabilities::Capability(9)] {
        assert_eq!(Capabilities::from(c.byte()), c);
    }
    assert_eq!(Capabilities::from(255), Capabilities::Founder);
    assert_eq!(Capabilities::from(Capabilities::Capability(255).byte()), Capabilities::Founder);
    assert_eq!(SwarmType::from(SwarmType::Forum.as_byte()), SwarmType::Forum);
    assert_eq!(SwarmType::from(3), SwarmType::UserDefined(3));
    assert_eq!(SwarmType::from(SwarmType::UserDefined(254).as_byte()), SwarmType::Forum);
}

#[test]
fn swarm_name_bytes_roundtrip() {
    let named = SwarmName::new(GnomeId(258), "cats".to_string()).unwrap();
    let bytes = named.as_bytes();
    assert_eq!(bytes, vec![140, 0, 0, 0, 0, 0, 0, 1, 2, b'c', b'a', b't', b's']);
    assert_eq!(SwarmName::from(&bytes).unwrap(), named);
    let anonymous = SwarmName::new(GnomeId::any(), "dogs".to_string()).unwrap();
    let bytes = anonymous.as_bytes();
    assert_eq!(bytes, vec![4, b'd', b'o', b'g', b's']);
    assert_eq!(SwarmName::from(&bytes).unwrap(), anonymous);
    assert!(SwarmName::new(GnomeId(1), "x".repeat(120)).is_err());
    assert!(SwarmName::new(GnomeId(1), "x".repeat(119)).is_ok());
}

#[test]
fn key_registry_insert_get_and_chunks() {
    let mut reg = KeyRegistry::new8();
    assert_eq!(reg.byte(), 1);
    for i in 1..=5u64 {
        reg.insert(GnomeId(i), vec![i as u8]);
    }
    assert_eq!(reg.get(GnomeId(3)), Some(vec![3]));
    assert_eq!(reg.get(GnomeId(6)), None);
    assert!(reg.has_key(GnomeId(5)));
    reg.insert(GnomeId(3), vec![33]);
    assert_eq!(reg.get(GnomeId(3)), Some(vec![33]));
    assert_eq!(reg.get(GnomeId(1)), Some(vec![1]));
    let chunks = reg.chunks();
    assert_eq!(chunks.len(), 2);
    assert_eq!(chunks[0].len(), 4);
    assert_eq!(chunks[1].len(), 1);
    assert_eq!(chunks[0][0], (GnomeId(3), vec![33]));
}

#[test]
fn key_registry_from_bytes() {
    let mut bytes = vec![2, 0, 1];
    bytes.extend_from_slice(&GnomeId(77).bytes());
    bytes.extend(std::iter::repeat(6u8).take(74));
    bytes.push(42);
    let reg = KeyRegistry::from(&mut bytes);
    assert_eq!(reg.size_byte(), 2);
    assert_eq!(reg.get(GnomeId(77)), Some(vec![6u8; 74]));
    assert_eq!(bytes, vec![42]);
}

#[test]
fn byte_sets() {
    let mut set = ByteSet::empty();
    assert!(set.is_none());
    set.add(7);
    set.add(3);
    assert!(set.contains(&7));
    assert!(!set.contains_pair(&7));
    assert_eq!(set.bytes(), vec![3, 7]);
    let mut pairs = ByteSet::new_pairs(HashSet::from([0x0102u16]));
    pairs.add_pair(0x0001);
    assert!(pairs.is_pair());
    assert!(pairs.contains_pair(&0x0102));
    assert_eq!(pairs.bytes(), vec![0, 1, 1, 2]);
}

#[test]
fn data_length_limits() {
    assert!(SyncData::new(vec![0; MAX_SYNC_DATA]).is_ok());
    assert_eq!(SyncData::new(vec![0; MAX_SYNC_DATA + 1]), Err(vec![0; MAX_SYNC_DATA + 1]));
    assert!(CastData::new(vec![0; MAX_CAST_DATA]).is_ok());
    assert!(CastData::new(vec![0; MAX_CAST_DATA + 1]).is_err());
    assert!(Data::new(vec![0; MAX_DATA + 1]).is_err());
    let d = SyncData::new(vec![4, 5, 6]).unwrap();
    assert_eq!((d.first_byte(), d.second_byte(), d.third_byte(), d.len()), (4, 5, 6, 3));
    assert_eq!(SyncData::empty().len(), 0);
    assert_eq!(d.clone().bytes(), vec![4, 5, 6]);
    assert_eq!(d.get_block_id(), d.get_block_id());
}

#[test]
fn policy_registry_from_bytes() {
    let mut bytes = vec![3, 255, 100, 255, 254, 0, 255, 0];
    let policies = swarm_consensus::swarm::Swarm::bytes_to_policy(&mut bytes);
    assert!(bytes.is_empty());
    assert_eq!(policies.len(), 2);
    let find = |p: Policy| policies.iter().find(|(q, _r)| *q == p).map(|(_q, r)| r.clone());
    assert_eq!(find(Policy::Default), Some(Requirement::Empty));
    assert_eq!(find(Policy::Data), Some(Requirement::Empty));
    assert_eq!(find(Policy::EndBroadcast), None);
}

#[test]
fn capability_registry_from_bytes() {
    let mut bytes = vec![3, 253, 1, 0, 0, 0, 0, 0, 0, 1, 5, 254, 0, 253, 2, 0, 0, 0, 0, 0, 0, 0, 7, 0, 0, 0, 0, 0, 0, 0, 8, 9];
    let caps = swarm_consensus::swarm::Swarm::bytes_to_capabilities(&mut bytes);
    assert_eq!(bytes, vec![9]);
    assert_eq!(caps.len(), 2);
    let find = |c: Capabilities| caps.iter().find(|(d, _ids)| *d == c).map(|(_d, ids)| ids.clone());
    assert_eq!(find(Capabilities::Admin), Some(vec![GnomeId(7), GnomeId(8)]));
    assert_eq!(find(Capabilities::Owner), Some(vec![]));
    assert_eq!(find(Capabilities::Founder), None);
}

#[test]
fn swarm_path_parts() {
    let name = SwarmName::new(GnomeId(0x1a2b), "//cats/ab".to_string()).unwrap();
    assert_eq!(name.path_parts(), ("cats/ab".to_string(), "GID-1a2b".to_string()));
    let plain = SwarmName::new(GnomeId(0), "dogs".to_string()).unwrap();
    assert_eq!(plain.path_parts(), ("dogs".to_string(), "GID-0".to_string()));
    let all = SwarmName::new(GnomeId(u64::MAX), "/".to_string()).unwrap();
    assert_eq!(all.path_parts(), (String::new(), "GID-ffffffffffffffff".to_string()));
}

#[test]
fn swarm_path_joins_name_and_founder() {
    let name = SwarmName::new(GnomeId(0x1a2b), "//cats/ab".to_string()).unwrap();
    assert_eq!(name.to_path(), std::path::PathBuf::from("cats/ab/GID-1a2b"));
}

#[test]
fn full_key_registry_drops_its_oldest_entry() {
    let mut reg = KeyRegistry::new8();
    for i in 1..=8u64 {
        reg.insert(GnomeId(i), vec![i as u8]);
    }
    let listed: Vec<u64> = reg.chunks().concat().iter().map(|(g, _)| g.0).collect();
    assert_eq!(listed, vec![8, 7, 6, 5, 4, 3, 2, 1]);
    reg.insert(GnomeId(9), vec![9]);
    assert_eq!(reg.get(GnomeId(1)), None);
    assert_eq!(reg.get(GnomeId(9)), Some(vec![9]));
    assert_eq!(reg.get(GnomeId(2)), Some(vec![2]));
    reg.insert(GnomeId(5), vec![55]);
    let listed: Vec<(u64, Vec<u8>)> = reg.chunks().concat().into_iter().map(|(g, k)| (g.0, k)).collect();
    assert_eq!(listed[0], (5, vec![55]));
    assert_eq!(listed.len(), 8);
    assert_eq!(reg.get(GnomeId(2)), Some(vec![2]));
    assert!(reg.chunks().iter().all(|c| c.len() == 4));
}

#[test]
fn configuration_bytes_decodability() {
    assert!(!Configuration::is_decodable(&vec![]));
    assert!(!Configuration::is_decodable(&vec![254, 0, 0, 0, 0, 0, 0, 0, 1]));
    assert!(Configuration::is_decodable(&vec![254, 0, 0, 0, 0, 0, 0, 0, 1, 3]));
    assert!(!Configuration::is_decodable(&vec![252]));
    assert!(Configuration::is_decodable(&vec![252, 4]));
    assert!(Configuration::is_decodable(&vec![248]));
    assert!(Configuration::is_decodable(&Configuration::EndBroadcast(CastID(2)).bytes()));
}
