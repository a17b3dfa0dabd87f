use vstd::prelude::*;

use crate::assoc::{
    assoc_index, assoc_keys_unique, assoc_lookup, last_lookup, lemma_assoc_index, lemma_assoc_push, lemma_last_lookup_push,
    lemma_assoc_push_unique, lemma_assoc_remove, lemma_assoc_update, lemma_assoc_update_unique,
};
use crate::capabilities::{
    capability_from_byte, capability_index, capability_tree, find_capability, lemma_capability_index,
    CapabiliTree, Capabilities,
};
use crate::data::SyncData;
use crate::gnome::{be_bytes_u64, u64_from_be, GnomeId};
use crate::key_registry::{
    first_slot, insert_position, lemma_first_slot, lemma_get_after_insert, lemma_insert_keeps_others,
    lemma_insert_position, lemma_insert_reachable, registry_get, registry_insert, registry_reachable, unused_slots,
    KeyRegistry, Slot,
};
use crate::message::{config_header_byte, Configuration, Header, Message, Payload, Signature};
use crate::multicast::{distinct_ids, without, Multicast};
use crate::policy::{policy_decodable, policy_decode, Policy};
use crate::requirement::{
    capabilities_wf, lemma_decode_length, requirement_decode, requirement_met, requirement_size, Requirement,
};
use crate::CastID;
use std::collections::HashMap;
use std::collections::HashSet;
use vstd::utf8::{decode_utf8, encode_utf8, valid_utf8};

verus! {

broadcast use vstd::std_specs::hash::group_hash_axioms;

/// Logical time of a swarm, counted in turns.
#[derive(PartialEq, PartialOrd, Eq, Clone, Copy, Debug, Structural)]
pub struct SwarmTime(pub u32);

impl SwarmTime {
    pub fn inc(&self) -> (res: Self)
        ensures
            res.0 == (if self.0 == u32::MAX {
                0
            } else {
                self.0 + 1
            }),
    {
        SwarmTime(self.0.wrapping_add(1))
    }
}

/// The kind of a swarm.
#[derive(PartialEq, Eq, Clone, Copy, Debug, Structural)]
pub enum SwarmType {
    Catalog,
    Forum,
    UserDefined(u8),
}

pub open spec fn swarm_type_byte(t: SwarmType) -> u8 {
    match t {
        SwarmType::Catalog => 255,
        SwarmType::Forum => 254,
        SwarmType::UserDefined(n) => n,
    }
}

pub open spec fn swarm_type_from_byte(b: u8) -> SwarmType {
    if b == 255 {
        SwarmType::Catalog
    } else if b == 254 {
        SwarmType::Forum
    } else {
        SwarmType::UserDefined(b)
    }
}

impl SwarmType {
    pub fn from(byte: u8) -> (res: Self)
        ensures
            res == swarm_type_from_byte(byte),
    {
        match byte {
            255 => SwarmType::Catalog,
            254 => SwarmType::Forum,
            other => SwarmType::UserDefined(other),
        }
    }

    pub fn as_byte(&self) -> (res: u8)
        ensures
            res == swarm_type_byte(*self),
    {
        match self {
            SwarmType::Catalog => 255,
            SwarmType::Forum => 254,
            SwarmType::UserDefined(num) => *num,
        }
    }
}

/// Decoding a swarm type's byte gives it back, unless it is a user type whose
/// number collides with a named type's byte; encoding a decoded byte gives the byte back.
pub proof fn lemma_swarm_type_roundtrip(t: SwarmType, b: u8)
    ensures
        !(t matches SwarmType::UserDefined(x) && x >= 254) ==> swarm_type_from_byte(
            swarm_type_byte(t),
        ) == t,
        swarm_type_byte(swarm_type_from_byte(b)) == b,
{
}

/// Local identifier of a swarm a gnome has joined.
#[derive(PartialEq, Eq, Hash, Debug, Copy, Clone, Structural)]
pub struct SwarmID(pub u8);

/// Name of a swarm: its founder and a text.
#[derive(PartialEq, Eq, Hash, Debug, Clone)]
pub struct SwarmName {
    pub founder: GnomeId,
    pub name: String,
}

/// Whether `v` holds a complete serialized swarm name.
pub open spec fn swarm_name_bytes_ok(v: Seq<u8>) -> bool {
    &&& v.len() >= 1
    &&& if v[0] < 128 {
        &&& v.len() >= 1 + v[0]
        &&& valid_utf8(v.subrange(1, 1 + v[0]))
    } else {
        &&& v[0] >= 136
        &&& v.len() >= v[0] - 127
        &&& valid_utf8(v.subrange(9, v[0] - 127))
    }
}

/// The founder that a serialized swarm name holds.
pub open spec fn swarm_name_founder(v: Seq<u8>) -> u64 {
    if v[0] < 128 {
        0
    } else {
        u64_from_be(v.subrange(1, 9))
    }
}

/// The text that a serialized swarm name holds.
pub open spec fn swarm_name_text(v: Seq<u8>) -> Seq<char> {
    if v[0] < 128 {
        decode_utf8(v.subrange(1, 1 + v[0]))
    } else {
        decode_utf8(v.subrange(9, v[0] - 127))
    }
}

/// The serialization of a swarm name with founder `founder` and text `name`.
pub open spec fn swarm_name_encode(founder: u64, name: Seq<char>) -> Seq<u8> {
    let bytes = encode_utf8(name);
    if founder != 0 {
        seq![(bytes.len() as u8 + 136) as u8] + be_bytes_u64(founder) + bytes
    } else {
        seq![bytes.len() as u8] + bytes
    }
}

/// `String::from_utf8`: the string whose UTF-8 encoding is `bytes`, when
/// `bytes` is valid UTF-8.
#[verifier::external_body]
fn string_from_utf8(bytes: Vec<u8>) -> (res: Option<String>)
    ensures
        res is Some <==> valid_utf8(bytes@),
        res matches Some(s) ==> s@ == decode_utf8(bytes@),
{
    String::from_utf8(bytes).ok()
}

impl SwarmName {
    pub fn new(founder: GnomeId, name: String) -> (res: Result<Self, ()>)
        ensures
            res is Err <==> encode_utf8(name@).len() > 119,
            res matches Ok(n) ==> n.founder == founder && n.name@ == name@,
    {
        if name.as_str().as_bytes().len() > 119 {
            Err(())
        } else {
            Ok(SwarmName { founder, name })
        }
    }

    pub fn from(v: &[u8]) -> (res: Result<Self, ()>)
        requires
            swarm_name_bytes_ok(v@),
        ensures
            res matches Ok(n) && n.founder.0 == swarm_name_founder(v@) && n.name@
                == swarm_name_text(v@),
    {
        let name_len = v[0];
        if name_len < 128 {
            let founder = GnomeId::any();
            let end: usize = 1 + name_len as usize;
            let bytes = vstd::slice::slice_to_vec(&v[1..end]);
            let name = string_from_utf8(bytes).unwrap();
            Ok(SwarmName { founder, name })
        } else {
            let founder = GnomeId::from([v[1], v[2], v[3], v[4], v[5], v[6], v[7], v[8]]);
            assert(v@.subrange(1, 9) =~= seq![v@[1], v@[2], v@[3], v@[4], v@[5], v@[6], v@[7], v@[8]]);
            let end: usize = name_len as usize - 127;
            let bytes = vstd::slice::slice_to_vec(&v[9..end]);
            let name = string_from_utf8(bytes).unwrap();
            Ok(SwarmName { founder, name })
        }
    }

    pub fn as_bytes(&self) -> (res: Vec<u8>)
        requires
            self.founder.0 != 0 ==> encode_utf8(self.name@).len() <= 119,
        ensures
            res@ == swarm_name_encode(self.founder.0, self.name@),
    {
        let name_bytes = self.name.as_str().as_bytes();
        let name_len = name_bytes.len();
        let mut bytes: Vec<u8> = Vec::new();
        if !self.founder.is_any() {
            bytes.push(name_len as u8 + 136);
            let fb = self.founder.bytes();
            let mut k: usize = 0;
            while k < 8
                invariant
                    k <= 8,
                    fb@ == be_bytes_u64(self.founder.0),
                    bytes@ == seq![(name_len as u8 + 136) as u8] + fb@.take(k as int),
                decreases 8 - k,
            {
                bytes.push(fb[k]);
                assert(fb@.take(k + 1) =~= fb@.take(k as int).push(fb@[k as int]));
                k = k + 1;
            }
            assert(fb@.take(8) =~= fb@);
        } else {
            bytes.push(name_len as u8);
        }
        let ghost prefix = bytes@;
        let mut i: usize = 0;
        while i < name_len
            invariant
                i <= name_len,
                name_len == name_bytes@.len(),
                bytes@ == prefix + name_bytes@.take(i as int),
            decreases name_len - i,
        {
            bytes.push(name_bytes[i]);
            assert(name_bytes@.take(i + 1) =~= name_bytes@.take(i as int).push(name_bytes@[i as int]));
            i = i + 1;
        }
        assert(name_bytes@.take(name_len as int) =~= name_bytes@);
        bytes
    }
}

/// Parsing the serialization of a swarm name gives the same founder and text
/// back, for every name of at most 119 bytes.
pub proof fn lemma_swarm_name_roundtrip(founder: u64, name: Seq<char>)
    requires
        encode_utf8(name).len() <= 119,
    ensures
        swarm_name_bytes_ok(swarm_name_encode(founder, name)),
        swarm_name_founder(swarm_name_encode(founder, name)) == founder,
        swarm_name_text(swarm_name_encode(founder, name)) == name,
{
    broadcast use vstd::utf8::encode_utf8_valid_utf8, vstd::utf8::encode_utf8_decode_utf8;

    let bytes = encode_utf8(name);
    let v = swarm_name_encode(founder, name);
    if founder != 0 {
        let fb = be_bytes_u64(founder);
        assert(v[0] == bytes.len() + 136);
        assert(v.subrange(9, v[0] - 127) =~= bytes);
        assert(v.subrange(1, 9) =~= fb);
        crate::gnome::lemma_be_roundtrip(founder);
    } else {
        assert(v.subrange(1, 1 + v[0]) =~= bytes);
    }
}

/// A set of bytes, or of byte pairs, that requirements can refer to.
#[derive(Debug)]
pub enum ByteSet {
    Empty,
    Bytes(HashSet<u8>),
    Pairs(HashSet<u16>),
}

impl ByteSet {
    /// Whether this is a set of single bytes that holds `b`.
    pub open spec fn has_byte(self, b: u8) -> bool {
        self matches ByteSet::Bytes(s) && s@.contains(b)
    }

    /// Whether this is a set of pairs that holds `p`.
    pub open spec fn has_pair(self, p: u16) -> bool {
        self matches ByteSet::Pairs(s) && s@.contains(p)
    }

    pub fn empty() -> (res: Self)
        ensures
            res is Empty,
    {
        ByteSet::Empty
    }

    pub fn new(set: HashSet<u8>) -> (res: Self)
        ensures
            res == ByteSet::Bytes(set),
    {
        ByteSet::Bytes(set)
    }

    pub fn new_pairs(set: HashSet<u16>) -> (res: Self)
        ensures
            res == ByteSet::Pairs(set),
    {
        ByteSet::Pairs(set)
    }

    pub fn contains(&self, b: &u8) -> (res: bool)
        ensures
            res == self.has_byte(*b),
    {
        match self {
            ByteSet::Bytes(b_set) => b_set.contains(b),
            ByteSet::Pairs(_s) => false,
            ByteSet::Empty => false,
        }
    }

    pub fn contains_pair(&self, b: &u16) -> (res: bool)
        ensures
            res == self.has_pair(*b),
    {
        match self {
            ByteSet::Pairs(p_set) => p_set.contains(b),
            ByteSet::Bytes(_s) => false,
            ByteSet::Empty => false,
        }
    }

    pub fn add(&mut self, b: u8)
        ensures
            *old(self) is Pairs ==> *final(self) == *old(self),
            !(*old(self) is Pairs) ==> *final(self) is Bytes,
            forall|x: u8| #[trigger] final(self).has_byte(x) == (!(*old(self) is Pairs) && (old(self).has_byte(x) || x == b)),
    {
        let mut current = ByteSet::Empty;
        std::mem::swap(self, &mut current);
        match current {
            ByteSet::Empty => {
                let mut a_set: HashSet<u8> = HashSet::new();
                a_set.insert(b);
                *self = ByteSet::Bytes(a_set);
            },
            ByteSet::Bytes(mut e_set) => {
                e_set.insert(b);
                *self = ByteSet::Bytes(e_set);
            },
            ByteSet::Pairs(p) => {
                *self = ByteSet::Pairs(p);
            },
        }
    }

    pub fn add_pair(&mut self, b: u16)
        ensures
            *old(self) is Bytes ==> *final(self) == *old(self),
            !(*old(self) is Bytes) ==> *final(self) is Pairs,
            forall|x: u16| #[trigger] final(self).has_pair(x) == (!(*old(self) is Bytes) && (old(self).has_pair(x) || x == b)),
    {
        let mut current = ByteSet::Empty;
        std::mem::swap(self, &mut current);
        match current {
            ByteSet::Empty => {
                let mut a_set: HashSet<u16> = HashSet::new();
                a_set.insert(b);
                *self = ByteSet::Pairs(a_set);
            },
            ByteSet::Pairs(mut e_set) => {
                e_set.insert(b);
                *self = ByteSet::Pairs(e_set);
            },
            ByteSet::Bytes(s) => {
                *self = ByteSet::Bytes(s);
            },
        }
    }

    pub fn is_none(&self) -> (res: bool)
        ensures
            res == (self is Empty),
    {
        matches!(self, ByteSet::Empty)
    }

    pub fn is_pair(&self) -> (res: bool)
        ensures
            res == (self is Pairs),
    {
        matches!(self, ByteSet::Pairs(_p))
    }

    /// The members in increasing order; each pair as two big-endian bytes.
    pub fn bytes(&self) -> (res: Vec<u8>)
        ensures
            self is Empty ==> res@.len() == 0,
            self is Bytes ==> (forall|i: int, j: int| 0 <= i < j < res@.len() ==> res@[i] < res@[j])
                && (forall|x: u8| #[trigger] res@.contains(x) == self.has_byte(x)),
            self is Pairs ==> res@.len() % 2 == 0 && (forall|i: int, j: int|
                0 <= i < j < res@.len() / 2 ==> pair_at(res@, i) < pair_at(res@, j)) && (forall|
                x: u16,
            | self.has_pair(x) <==> exists|i: int| 0 <= i < res@.len() / 2 && #[trigger] pair_at(res@, i) == x),
    {
        match self {
            ByteSet::Empty => Vec::new(),
            ByteSet::Bytes(set) => {
                let mut ordered: Vec<u8> = Vec::new();
                let mut v: u16 = 0;
                while v < 256
                    invariant
                        v <= 256,
                        forall|i: int, j: int| 0 <= i < j < ordered@.len() ==> ordered@[i] < ordered@[j],
                        forall|i: int| 0 <= i < ordered@.len() ==> ordered@[i] < v,
                        forall|x: u8| #[trigger] ordered@.contains(x) == (x < v && set@.contains(x)),
                    decreases 256 - v,
                {
                    let b = v as u8;
                    let ghost before = ordered@;
                    if set.contains(&b) {
                        ordered.push(b);
                        proof {
                            assert(set@.contains(b));
                            assert(b as u16 == v);
                            assert forall|x: u8| #[trigger] ordered@.contains(x) == (x < v + 1 && set@.contains(x)) by {
                                assert(before.contains(x) == (x < v && set@.contains(x)));
                                if x == b {
                                    assert(ordered@[before.len() as int] == x);
                                } else if ordered@.contains(x) {
                                    let i = choose|i: int| 0 <= i < ordered@.len() && ordered@[i] == x;
                                    assert(before[i] == x);
                                    assert(before.contains(x));
                                } else if before.contains(x) {
                                    let i = choose|i: int| 0 <= i < before.len() && before[i] == x;
                                    assert(ordered@[i] == x);
                                }
                            }
                        }
                    } else {
                        proof {
                            assert forall|x: u8| #[trigger] ordered@.contains(x) == (x < v + 1 && set@.contains(x)) by {
                                if x == b {
                                    if ordered@.contains(x) {
                                        let i = choose|i: int| 0 <= i < ordered@.len() && ordered@[i] == x;
                                    }
                                }
                            }
                        }
                    }
                    v = v + 1;
                }
                ordered
            },
            ByteSet::Pairs(set) => {
                let mut bytes: Vec<u8> = Vec::new();
                let mut v: u32 = 0;
                while v < 65536
                    invariant
                        v <= 65536,
                        bytes@.len() % 2 == 0,
                        forall|i: int, j: int| 0 <= i < j < bytes@.len() / 2 ==> pair_at(bytes@, i) < pair_at(bytes@, j),
                        forall|i: int| 0 <= i < bytes@.len() / 2 ==> pair_at(bytes@, i) < v,
                        forall|x: u16| (x < v && set@.contains(x)) <==> exists|i: int| 0 <= i < bytes@.len() / 2 && #[trigger] pair_at(bytes@, i) == x,
                    decreases 65536 - v,
                {
                    let p = v as u16;
                    if set.contains(&p) {
                        let ghost before = bytes@;
                        let hi = (p >> 8u16) as u8;
                        let lo = (p & 0xffu16) as u8;
                        bytes.push(hi);
                        bytes.push(lo);
                        proof {
                            assert(hi as u16 * 256 + lo as u16 == p) by (bit_vector)
                                requires hi == (p >> 8u16) as u8, lo == (p & 0xffu16) as u8;
                            assert(bytes@.len() / 2 == before.len() / 2 + 1);
                            assert forall|i: int| 0 <= i < before.len() / 2 implies pair_at(bytes@, i) == pair_at(before, i) by {
                                assert(bytes@[2 * i] == before[2 * i]);
                                assert(bytes@[2 * i + 1] == before[2 * i + 1]);
                            }
                            assert(bytes@[before.len() as int] == hi);
                            assert(bytes@[before.len() as int + 1] == lo);
                            assert(pair_at(bytes@, (before.len() / 2) as int) == p);
                            assert forall|i: int, j: int| 0 <= i < j < bytes@.len() / 2 implies pair_at(bytes@, i) < pair_at(bytes@, j) by {
                                if j < before.len() / 2 {
                                    assert(pair_at(before, i) < pair_at(before, j));
                                } else {
                                    assert(pair_at(before, i) < v);
                                }
                            }
                            assert forall|i: int| 0 <= i < bytes@.len() / 2 implies pair_at(bytes@, i) < v + 1 by {
                                if i < before.len() / 2 {
                                    assert(pair_at(before, i) < v);
                                }
                            }
                            assert forall|x: u16| (x < v + 1 && set@.contains(x)) implies exists|i: int| 0 <= i < bytes@.len() / 2 && #[trigger] pair_at(bytes@, i) == x by {
                                if x == p {
                                    assert(pair_at(bytes@, (before.len() / 2) as int) == x);
                                } else {
                                    let i = choose|i: int| 0 <= i < before.len() / 2 && #[trigger] pair_at(before, i) == x;
                                    assert(pair_at(bytes@, i) == x);
                                }
                            }
                            assert forall|x: u16| (exists|i: int| 0 <= i < bytes@.len() / 2 && #[trigger] pair_at(bytes@, i) == x) implies (x < v + 1 && set@.contains(x)) by {
                                let i = choose|i: int| 0 <= i < bytes@.len() / 2 && #[trigger] pair_at(bytes@, i) == x;
                                if i < before.len() / 2 {
                                    assert(pair_at(before, i) == x);
                                }
                            }
                        }
                    } else {
                        proof {
                            assert forall|x: u16| (x < v + 1 && set@.contains(x)) implies exists|i: int| 0 <= i < bytes@.len() / 2 && #[trigger] pair_at(bytes@, i) == x by {
                                assert(x != v);
                            }
                        }
                    }
                    v = v + 1;
                }
                bytes
            },
        }
    }
}

/// The pair stored big-endian at position `i` of a byte sequence.
pub open spec fn pair_at(s: Seq<u8>, i: int) -> u16 {
    (s[2 * i] as u16 * 256 + s[2 * i + 1] as u16) as u16
}

impl Default for ByteSet {
    fn default() -> (res: Self)
        ensures
            res is Empty,
    {
        ByteSet::Empty
    }
}


/// The number of turns a message needs to reach every gnome of a swarm.
pub const DEFAULT_SWARM_DIAMETER: u32 = 7;

/// A capability registry finds a capability where an association list does.
pub proof fn lemma_capability_index_is_assoc(caps: Seq<(Capabilities, CapabiliTree)>, c: Capabilities)
    ensures
        capability_index(caps, c) == assoc_index(caps, c),
        capability_tree(caps, c) == assoc_lookup(caps, c),
    decreases caps.len(),
{
    if caps.len() > 0 {
        lemma_capability_index_is_assoc(caps.drop_first(), c);
    }
    lemma_capability_index(caps, c);
}

/// The policy that governs a reconfiguration with header byte `c_id`.
pub open spec fn config_policy(c_id: u8) -> Policy {
    if c_id == 254 {
        Policy::StartBroadcast
    } else if c_id == 253 {
        Policy::ChangeBroadcastOrigin
    } else if c_id == 252 {
        Policy::EndBroadcast
    } else if c_id == 251 {
        Policy::StartMulticast
    } else if c_id == 250 {
        Policy::ChangeMulticastOrigin
    } else if c_id == 249 {
        Policy::EndMulticast
    } else if c_id == 248 {
        Policy::CreateGroup
    } else if c_id == 247 {
        Policy::DeleteGroup
    } else if c_id == 246 {
        Policy::ModifyGroup
    } else if c_id == 245 {
        Policy::InsertPubkey
    } else {
        Policy::UserDefined(c_id)
    }
}

/// A reconfiguration is checked against the policy named like it: the
/// header byte that a configuration is announced under leads to the policy
/// of the same kind, and a user-defined configuration to the user-defined
/// policy of its own byte.
pub proof fn lemma_config_policy_names_kind(c: Configuration)
    ensures
        c is StartBroadcast ==> config_policy(config_header_byte(c)) == Policy::StartBroadcast,
        c is ChangeBroadcastOrigin ==> config_policy(config_header_byte(c)) == Policy::ChangeBroadcastOrigin,
        c is EndBroadcast ==> config_policy(config_header_byte(c)) == Policy::EndBroadcast,
        c is StartMulticast ==> config_policy(config_header_byte(c)) == Policy::StartMulticast,
        c is ChangeMulticastOrigin ==> config_policy(config_header_byte(c)) == Policy::ChangeMulticastOrigin,
        c is EndMulticast ==> config_policy(config_header_byte(c)) == Policy::EndMulticast,
        c is CreateGroup ==> config_policy(config_header_byte(c)) == Policy::CreateGroup,
        c is DeleteGroup ==> config_policy(config_header_byte(c)) == Policy::DeleteGroup,
        c is ModifyGroup ==> config_policy(config_header_byte(c)) == Policy::ModifyGroup,
        c is InsertPubkey ==> config_policy(config_header_byte(c)) == Policy::InsertPubkey,
        c matches Configuration::UserDefined(b) ==> (b < 245 ==> config_policy(config_header_byte(c))
            == Policy::UserDefined(b)),
{
}

/// Distinct header bytes lead to distinct policies: no two kinds of
/// reconfiguration share a requirement by mistake.
pub proof fn lemma_config_policy_injective(a: u8, b: u8)
    requires
        a != b,
    ensures
        config_policy(a) != config_policy(b),
{
}

/// The requirement registered for `p`, or else the default one.
pub open spec fn requirement_for(reg: Seq<(Policy, Requirement)>, p: Policy) -> Requirement {
    match assoc_lookup(reg, p) {
        Some(r) => r,
        None => assoc_lookup(reg, Policy::Default)->Some_0,
    }
}

/// The requirement that data whose first byte is `first` must meet: the one
/// for that first byte, else the one for all data, else the default one.
pub open spec fn data_requirement(reg: Seq<(Policy, Requirement)>, first: u8) -> Requirement {
    match assoc_lookup(reg, Policy::DataWithFirstByte(first)) {
        Some(r) => r,
        None => requirement_for(reg, Policy::Data),
    }
}

/// Where the pubkey registry sync stands after a chunk `chunk_no` of `total`
/// arrives at `last`, and whether the chunk is taken.
pub open spec fn pubkey_chunk_step(last: (u8, u8), chunk_no: u8, total: u8) -> ((u8, u8), bool) {
    if chunk_no == last.0 + 1 && last.1 == total {
        (
            if chunk_no == total {
                (0u8, 0u8)
            } else {
                (chunk_no, total)
            },
            true,
        )
    } else if last == (0u8, 1u8) {
        if chunk_no == 1 {
            ((chunk_no, total), true)
        } else {
            ((0u8, 0u8), false)
        }
    } else {
        ((0u8, 0u8), false)
    }
}

/// A key registry sync that starts with `mark_pubkeys_unsynced` takes its
/// chunks in order: the first chunk is taken, each next one in turn, and the
/// last ends the sync; any other chunk is refused and ends it too.
pub proof fn lemma_pubkey_chunks_in_order(total: u8, k: u8, other: u8)
    requires
        total >= 1,
        1 <= k < total,
    ensures
        total > 1 ==> pubkey_chunk_step((0u8, 1u8), 1, total) == ((1u8, total), true),
        total == 1 ==> pubkey_chunk_step((0u8, 1u8), 1, total).1,
        pubkey_chunk_step((k, total), (k + 1) as u8, total) == (
            if k + 1 == total {
                (0u8, 0u8)
            } else {
                ((k + 1) as u8, total)
            },
            true,
        ),
        other != k + 1 ==> pubkey_chunk_step((k, total), other, total) == ((0u8, 0u8), false),
{
}

/// The registry after inserting `pairs` from the last one to the first.
pub open spec fn insert_pairs_from_back(reg: Seq<Slot>, pairs: Seq<(GnomeId, Vec<u8>)>) -> Seq<Slot>
    decreases pairs.len(),
{
    if pairs.len() == 0 {
        reg
    } else {
        insert_pairs_from_back(
            registry_insert(reg, pairs.last().0.0, pairs.last().1@),
            pairs.drop_last(),
        )
    }
}

/// The ids of `pairs` are non-zero and pairwise different.
pub open spec fn distinct_nonzero_ids(pairs: Seq<(GnomeId, Vec<u8>)>) -> bool {
    &&& forall|i: int| 0 <= i < pairs.len() ==> (#[trigger] pairs[i]).0.0 != 0
    &&& forall|i: int, j: int| #![trigger pairs[i], pairs[j]] 0 <= i < j < pairs.len() ==> pairs[i].0 != pairs[j].0
}

/// Inserting pairs whose ids are non-zero keeps a registry reachable.
pub proof fn lemma_pairs_keep_reachable(reg: Seq<Slot>, pairs: Seq<(GnomeId, Vec<u8>)>)
    requires
        reg.len() >= 1,
        registry_reachable(reg),
        forall|i: int| 0 <= i < pairs.len() ==> (#[trigger] pairs[i]).0.0 != 0,
    ensures
        registry_reachable(insert_pairs_from_back(reg, pairs)),
        insert_pairs_from_back(reg, pairs).len() == reg.len(),
    decreases pairs.len(),
{
    if pairs.len() > 0 {
        let last = pairs.last();
        assert(last == pairs[pairs.len() - 1]);
        lemma_insert_reachable(reg, last.0.0, last.1@);
        lemma_get_after_insert(reg, last.0.0, last.1@);
        let rest = pairs.drop_last();
        assert forall|i: int| 0 <= i < rest.len() implies (#[trigger] rest[i]).0.0 != 0 by {
            assert(rest[i] == pairs[i]);
        }
        lemma_pairs_keep_reachable(registry_insert(reg, last.0.0, last.1@), rest);
    }
}

/// A registered id that none of `pairs` names keeps its key while they are
/// inserted, and moves back by at most one slot per pair.
proof fn lemma_pairs_keep_key(reg: Seq<Slot>, pairs: Seq<(GnomeId, Vec<u8>)>, x: u64)
    requires
        x != 0,
        first_slot(reg, x) >= 0,
        first_slot(reg, x) + pairs.len() < reg.len(),
        forall|i: int| 0 <= i < pairs.len() ==> (#[trigger] pairs[i]).0.0 != x,
    ensures
        registry_get(insert_pairs_from_back(reg, pairs), x) == registry_get(reg, x),
        0 <= first_slot(insert_pairs_from_back(reg, pairs), x) <= first_slot(reg, x) + pairs.len(),
    decreases pairs.len(),
{
    if pairs.len() > 0 {
        let last = pairs.last();
        assert(last == pairs[pairs.len() - 1]);
        let id = last.0.0;
        lemma_insert_position(reg, id, 0);
        lemma_first_slot(reg, x, 0);
        let f = first_slot(reg, x);
        let j = insert_position(reg, id);
        assert(f != j);
        lemma_insert_keeps_others(reg, id, last.1@, x);
        let t = registry_insert(reg, id, last.1@);
        let tf = if f < j {
            f + 1
        } else {
            f
        };
        assert(t[tf] == reg[f]);
        lemma_first_slot(t, x, 0);
        let rest = pairs.drop_last();
        assert forall|i: int| 0 <= i < rest.len() implies (#[trigger] rest[i]).0.0 != x by {
            assert(rest[i] == pairs[i]);
        }
        lemma_pairs_keep_key(t, rest, x);
    }
}

/// Every pair of a registry chunk is registered after the chunk is taken in,
/// where the registry is reachable, has a slot for each pair, and the
/// chunk's ids are non-zero and distinct.
pub proof fn lemma_pairs_registered(reg: Seq<Slot>, pairs: Seq<(GnomeId, Vec<u8>)>)
    requires
        registry_reachable(reg),
        1 <= pairs.len() <= reg.len(),
        distinct_nonzero_ids(pairs),
    ensures
        registry_reachable(insert_pairs_from_back(reg, pairs)),
        forall|i: int| 0 <= i < pairs.len() ==> registry_get(insert_pairs_from_back(reg, pairs), (#[trigger] pairs[i]).0.0)
            == Some(pairs[i].1@),
    decreases pairs.len(),
{
    lemma_pairs_keep_reachable(reg, pairs);
    let n = pairs.len();
    let last = pairs.last();
    assert(last == pairs[n - 1]);
    let x = last.0.0;
    let t = registry_insert(reg, x, last.1@);
    lemma_insert_reachable(reg, x, last.1@);
    lemma_get_after_insert(reg, x, last.1@);
    lemma_first_slot(t, x, 0);
    let rest = pairs.drop_last();
    assert forall|i: int| 0 <= i < rest.len() implies (#[trigger] rest[i]).0.0 != x by {
        assert(rest[i] == pairs[i]);
    }
    lemma_pairs_keep_key(t, rest, x);
    if n > 1 {
        assert(distinct_nonzero_ids(rest)) by {
            assert forall|i: int| 0 <= i < rest.len() implies (#[trigger] rest[i]).0.0 != 0 by {
                assert(rest[i] == pairs[i]);
            }
            assert forall|i: int, j: int| #![trigger rest[i], rest[j]] 0 <= i < j < rest.len() implies rest[i].0 != rest[j].0 by {
                assert(rest[i] == pairs[i] && rest[j] == pairs[j]);
            }
        }
        lemma_pairs_registered(t, rest);
        assert forall|i: int| 0 <= i < n implies registry_get(insert_pairs_from_back(reg, pairs), (#[trigger] pairs[i]).0.0)
            == Some(pairs[i].1@) by {
            if i < n - 1 {
                assert(rest[i] == pairs[i]);
            }
        }
    }
}

/// Every id of a registry chunk is registered after the chunk is taken in,
/// where the registry is reachable, has a slot for each pair, and the
/// chunk's ids are non-zero; an id listed twice keeps the key of its first
/// listing, which is inserted last.
pub proof fn lemma_pairs_all_registered(reg: Seq<Slot>, pairs: Seq<(GnomeId, Vec<u8>)>)
    requires
        registry_reachable(reg),
        1 <= pairs.len() <= reg.len(),
        forall|i: int| 0 <= i < pairs.len() ==> (#[trigger] pairs[i]).0.0 != 0,
    ensures
        registry_reachable(insert_pairs_from_back(reg, pairs)),
        forall|i: int| 0 <= i < pairs.len() ==> registry_get(insert_pairs_from_back(reg, pairs), (#[trigger] pairs[i]).0.0)
            is Some,
    decreases pairs.len(),
{
    lemma_pairs_keep_reachable(reg, pairs);
    let n = pairs.len();
    let last = pairs.last();
    assert(last == pairs[n - 1]);
    let x = last.0.0;
    let t = registry_insert(reg, x, last.1@);
    lemma_insert_reachable(reg, x, last.1@);
    lemma_get_after_insert(reg, x, last.1@);
    lemma_first_slot(t, x, 0);
    let rest = pairs.drop_last();
    assert forall|i: int| 0 <= i < rest.len() implies (#[trigger] rest[i]).0.0 != 0 by {
        assert(rest[i] == pairs[i]);
    }
    if n > 1 {
        lemma_pairs_all_registered(t, rest);
    }
    if forall|i: int| 0 <= i < rest.len() ==> (#[trigger] rest[i]).0.0 != x {
        lemma_pairs_keep_key(t, rest, x);
    } else {
        let j = choose|j: int| 0 <= j < rest.len() && (#[trigger] rest[j]).0.0 == x;
        assert(rest[j] == pairs[j]);
    }
    assert forall|i: int| 0 <= i < n implies registry_get(insert_pairs_from_back(reg, pairs), (#[trigger] pairs[i]).0.0)
        is Some by {
        if i < n - 1 {
            assert(rest[i] == pairs[i]);
        }
    }
}

/// A swarm as one gnome takes part in it: its name and kind, the registries
/// that its policies are checked against, and the casts the gnome is part of.
pub struct Swarm {
    pub name: SwarmName,
    pub id: SwarmID,
    pub swarm_type: SwarmType,
    pub diameter: SwarmTime,
    pub active_unicasts: Vec<CastID>,
    pub active_broadcasts: Vec<(CastID, Multicast)>,
    pub active_multicasts: Vec<(CastID, Multicast)>,
    pub key_reg: KeyRegistry,
    pub capability_reg: Vec<(Capabilities, CapabiliTree)>,
    pub policy_reg: Vec<(Policy, Requirement)>,
    pub byteset_reg: HashMap<u8, ByteSet>,
    pub last_accepted_pubkey_chunk: (u8, u8),
}

/// Each cast of a list occurs once and knows each subscriber once.
pub open spec fn casts_wf(s: Seq<(CastID, Multicast)>) -> bool {
    &&& assoc_keys_unique(s)
    &&& forall|i: int| 0 <= i < s.len() ==> (#[trigger] s[i]).1.wf()
}

/// The list after the entry for `id`, if any, is replaced by `m`.
pub open spec fn casts_changed(
    before: Seq<(CastID, Multicast)>,
    after: Seq<(CastID, Multicast)>,
    id: CastID,
    m: Multicast,
) -> bool {
    forall|c: CastID| #[trigger]
        assoc_lookup(after, c) == if c == id {
            Some(m)
        } else {
            assoc_lookup(before, c)
        }
}

fn find_cast(list: &Vec<(CastID, Multicast)>, id: CastID) -> (res: Option<usize>)
    ensures
        res matches Some(i) ==> i == assoc_index(list@, id) && i < list@.len(),
        res is None ==> assoc_index(list@, id) < 0,
{
    proof {
        lemma_assoc_index(list@, id);
    }
    let mut i: usize = 0;
    while i < list.len()
        invariant
            i <= list@.len(),
            forall|k: int| 0 <= k < i ==> list@[k].0 != id,
            -1 <= assoc_index(list@, id) < list@.len(),
            assoc_index(list@, id) >= 0 ==> list@[assoc_index(list@, id)].0 == id,
            forall|m: int| 0 <= m < assoc_index(list@, id) ==> list@[m].0 != id,
            assoc_index(list@, id) < 0 <==> forall|m: int| 0 <= m < list@.len() ==> list@[m].0 != id,
        decreases list@.len() - i,
    {
        if list[i].0 == id {
            return Some(i);
        }
        i = i + 1;
    }
    None
}

fn find_policy(list: &Vec<(Policy, Requirement)>, p: Policy) -> (res: Option<usize>)
    ensures
        res matches Some(i) ==> i == assoc_index(list@, p) && i < list@.len(),
        res is None ==> assoc_index(list@, p) < 0,
{
    proof {
        lemma_assoc_index(list@, p);
    }
    let mut i: usize = 0;
    while i < list.len()
        invariant
            i <= list@.len(),
            forall|k: int| 0 <= k < i ==> list@[k].0 != p,
            -1 <= assoc_index(list@, p) < list@.len(),
            assoc_index(list@, p) >= 0 ==> list@[assoc_index(list@, p)].0 == p,
            forall|m: int| 0 <= m < assoc_index(list@, p) ==> list@[m].0 != p,
            assoc_index(list@, p) < 0 <==> forall|m: int| 0 <= m < list@.len() ==> list@[m].0 != p,
        decreases list@.len() - i,
    {
        if list[i].0 == p {
            return Some(i);
        }
        i = i + 1;
    }
    None
}

/// Puts `m` in place of the entry for `id`, or adds it.
fn put_cast(list: &mut Vec<(CastID, Multicast)>, id: CastID, m: Multicast)
    requires
        casts_wf(old(list)@),
        m.wf(),
    ensures
        casts_wf(final(list)@),
        casts_changed(old(list)@, final(list)@, id, m),
{
    proof {
        lemma_assoc_index(old(list)@, id);
    }
    match find_cast(list, id) {
        Some(i) => {
            let ghost before = list@;
            list.set(i, (id, m));
            proof {
                lemma_assoc_update(before, id, m);
                lemma_assoc_update_unique(before, i as int, id, m);
                assert(list@ == before.update(i as int, (id, m)));
            }
        },
        None => {
            let ghost before = list@;
            list.push((id, m));
            proof {
                lemma_assoc_push(before, id, m);
                lemma_assoc_push_unique(before, id, m);
            }
        },
    }
}

/// Takes the entry for `id` out of the list.
fn take_cast(list: &mut Vec<(CastID, Multicast)>, id: CastID) -> (res: Option<Multicast>)
    requires
        casts_wf(old(list)@),
    ensures
        casts_wf(final(list)@),
        res == assoc_lookup(old(list)@, id),
        res is None ==> final(list)@ == old(list)@,
        forall|c: CastID| #[trigger]
            assoc_lookup(final(list)@, c) == if c == id {
                None
            } else {
                assoc_lookup(old(list)@, c)
            },
{
    proof {
        lemma_assoc_index(old(list)@, id);
    }
    match find_cast(list, id) {
        Some(i) => {
            let ghost before = list@;
            let (_cid, cast) = list.remove(i);
            proof {
                lemma_assoc_remove(before, id);
                assert forall|j: int| 0 <= j < list@.len() implies (#[trigger] list@[j]).1.wf() by {
                    if j < i {
                        assert(list@[j] == before[j]);
                    } else {
                        assert(list@[j] == before[j + 1]);
                    }
                }
            }
            Some(cast)
        },
        None => {
            proof {
                assert forall|c: CastID| #[trigger]
                    assoc_lookup(list@, c) == if c == id {
                        None
                    } else {
                        assoc_lookup(old(list)@, c)
                    } by {}
            }
            None
        },
    }
}

impl Swarm {
    /// The broadcasts, or else the multicasts.
    pub open spec fn casts(&self, is_bcast: bool) -> Seq<(CastID, Multicast)> {
        if is_bcast {
            self.active_broadcasts@
        } else {
            self.active_multicasts@
        }
    }

    /// The registries stay consistent: a default policy is always there, each
    /// policy and each capability is registered once, the capability trees
    /// are well formed, and casts are registered once each.
    pub open spec fn wf(&self) -> bool {
        &&& assoc_lookup(self.policy_reg@, Policy::Default) is Some
        &&& assoc_keys_unique(self.policy_reg@)
        &&& assoc_keys_unique(self.capability_reg@)
        &&& capabilities_wf(self.capability_reg@)
        &&& self.key_reg.wf()
        &&& casts_wf(self.active_broadcasts@)
        &&& casts_wf(self.active_multicasts@)
    }

    /// The registries of a swarm that a gnome joins: the founder, where known,
    /// holds the founder capability, which the default policy asks for.
    pub fn new(name: SwarmName, id: SwarmID) -> (res: Self)
        ensures
            res.wf(),
            res.name == name,
            res.id == id,
            res.swarm_type == SwarmType::Catalog,
            res.diameter == SwarmTime(DEFAULT_SWARM_DIAMETER),
            res.active_unicasts@.len() == 0,
            res.active_broadcasts@.len() == 0,
            res.active_multicasts@.len() == 0,
            res.policy_reg@ == seq![(Policy::Default, Requirement::Has(Capabilities::Founder))],
            name.founder.0 == 0 ==> res.capability_reg@.len() == 0,
            name.founder.0 != 0 ==> res.capability_reg@.len() == 1 && res.capability_reg@[0].0
                == Capabilities::Founder && forall|g: u64| #[trigger]
                res.capability_reg@[0].1.has(g) == (g == name.founder.0),
            res.byteset_reg@ == Map::<u8, ByteSet>::empty(),
            res.last_accepted_pubkey_chunk == (0u8, 0u8),
            res.key_reg@ == unused_slots(8),
    {
        let mut policy_reg: Vec<(Policy, Requirement)> = Vec::new();
        policy_reg.push((Policy::Default, Requirement::Has(Capabilities::Founder)));
        let mut capability_reg: Vec<(Capabilities, CapabiliTree)> = Vec::new();
        if !name.founder.is_any() {
            let mut ct = CapabiliTree::create();
            ct.insert(name.founder);
            capability_reg.push((Capabilities::Founder, ct));
        }
        let key_reg = KeyRegistry::new8();
        let res = Swarm {
            name,
            id,
            swarm_type: SwarmType::Catalog,
            diameter: SwarmTime(DEFAULT_SWARM_DIAMETER),
            active_unicasts: Vec::new(),
            active_broadcasts: Vec::new(),
            active_multicasts: Vec::new(),
            key_reg,
            capability_reg,
            policy_reg,
            byteset_reg: HashMap::new(),
            last_accepted_pubkey_chunk: (0, 0),
        };
        proof {
            assert(res.policy_reg@ =~= seq![(Policy::Default, Requirement::Has(Capabilities::Founder))]);
            assert(assoc_index(res.policy_reg@, Policy::Default) == 0);
        }
        res
    }

    /// Whether the registries let `gnome_id` make the reconfiguration with
    /// header byte `c_id`.
    pub fn check_config_policy(&self, gnome_id: &GnomeId, c_id: u8) -> (res: bool)
        requires
            self.wf(),
        ensures
            res == requirement_met(
                requirement_for(self.policy_reg@, config_policy(c_id)),
                gnome_id.0,
                self.capability_reg@,
                self.byteset_reg@,
                None,
                None,
            ),
    {
        let policy = Self::config_to_policy(c_id);
        let idx = match find_policy(&self.policy_reg, policy) {
            Some(i) => i,
            None => {
                match find_policy(&self.policy_reg, Policy::Default) {
                    Some(i) => i,
                    None => {
                        proof {
                            assert(false);
                        }
                        0
                    },
                }
            },
        };
        self.policy_reg[idx].1.is_fullfilled(
            gnome_id,
            &self.capability_reg,
            &self.byteset_reg,
            None,
            None,
        )
    }

    /// Whether the registries let `gnome_id` propose data that starts with
    /// the three bytes given.
    pub fn check_data_policy(
        &self,
        gnome_id: &GnomeId,
        first_byte: u8,
        second_byte: u8,
        third_byte: u8,
    ) -> (res: bool)
        requires
            self.wf(),
        ensures
            res == requirement_met(
                data_requirement(self.policy_reg@, first_byte),
                gnome_id.0,
                self.capability_reg@,
                self.byteset_reg@,
                Some(second_byte),
                Some(third_byte),
            ),
    {
        let idx = match find_policy(&self.policy_reg, Policy::DataWithFirstByte(first_byte)) {
            Some(i) => i,
            None => {
                match find_policy(&self.policy_reg, Policy::Data) {
                    Some(i) => i,
                    None => {
                        match find_policy(&self.policy_reg, Policy::Default) {
                            Some(i) => i,
                            None => {
                                proof {
                                    assert(false);
                                }
                                0
                            },
                        }
                    },
                }
            },
        };
        self.policy_reg[idx].1.is_fullfilled(
            gnome_id,
            &self.capability_reg,
            &self.byteset_reg,
            Some(second_byte),
            Some(third_byte),
        )
    }

    /// Whether the signer of a reconfiguration or a block may propose it.
    /// Other messages carry nothing to check.
    pub fn verify_policy(&self, message: &Message) -> (res: bool)
        requires
            self.wf(),
            message.header is Block ==> (message.payload matches Payload::Block(_i, _s, d)
                ==> d.view_bytes().len() >= 3),
        ensures
            res == match message.header {
                Header::Reconfigure(c_id, gnome_id) => requirement_met(
                    requirement_for(self.policy_reg@, config_policy(c_id)),
                    gnome_id.0,
                    self.capability_reg@,
                    self.byteset_reg@,
                    None,
                    None,
                ),
                Header::Block(_b) => match message.payload {
                    Payload::Block(_i, sign, d) => requirement_met(
                        data_requirement(self.policy_reg@, d.view_bytes()[0]),
                        match sign {
                            Signature::Regular(g, _s) => g.0,
                            Signature::Extended(g, _p, _s) => g.0,
                        },
                        self.capability_reg@,
                        self.byteset_reg@,
                        Some(d.view_bytes()[1]),
                        Some(d.view_bytes()[2]),
                    ),
                    _ => false,
                },
                Header::Sync => true,
            },
    {
        match message.header {
            Header::Reconfigure(c_id, gnome_id) => self.check_config_policy(&gnome_id, c_id),
            Header::Block(_b_id) => {
                if let Payload::Block(_bid, sign, data) = &message.payload {
                    let gnome_id = match sign {
                        Signature::Regular(gnome_id, _s) => *gnome_id,
                        Signature::Extended(gnome_id, _p, _s) => *gnome_id,
                    };
                    self.check_data_policy(
                        &gnome_id,
                        data.first_byte(),
                        data.second_byte(),
                        data.third_byte(),
                    )
                } else {
                    false
                }
            },
            Header::Sync => true,
        }
    }

    /// The policy that governs a reconfiguration with header byte `c_id`.
    pub fn config_to_policy(c_id: u8) -> (res: Policy)
        ensures
            res == config_policy(c_id),
    {
        match c_id {
            254 => Policy::StartBroadcast,
            253 => Policy::ChangeBroadcastOrigin,
            252 => Policy::EndBroadcast,
            251 => Policy::StartMulticast,
            250 => Policy::ChangeMulticastOrigin,
            249 => Policy::EndMulticast,
            248 => Policy::CreateGroup,
            247 => Policy::DeleteGroup,
            246 => Policy::ModifyGroup,
            245 => Policy::InsertPubkey,
            other => Policy::UserDefined(other),
        }
    }

    /// Registers `req` for `pol`, in place of any requirement it had.
    pub fn set_policy(&mut self, pol: Policy, req: Requirement)
        requires
            old(self).wf(),
        ensures
            final(self).wf(),
            forall|p: Policy| #[trigger]
                assoc_lookup(final(self).policy_reg@, p) == if p == pol {
                    Some(req)
                } else {
                    assoc_lookup(old(self).policy_reg@, p)
                },
            *final(self) == (Swarm { policy_reg: final(self).policy_reg, ..*old(self) }),
    {
        match find_policy(&self.policy_reg, pol) {
            Some(i) => {
                let ghost before = self.policy_reg@;
                self.policy_reg.set(i, (pol, req));
                proof {
                    lemma_assoc_index(before, pol);
                    lemma_assoc_update(before, pol, req);
                    lemma_assoc_update_unique(before, i as int, pol, req);
                }
            },
            None => {
                let ghost before = self.policy_reg@;
                self.policy_reg.push((pol, req));
                proof {
                    lemma_assoc_push(before, pol, req);
                    lemma_assoc_push_unique(before, pol, req);
                }
            },
        }
    }

    /// Puts `tree` in the capability registry as the holders of `cap`.
    fn set_capability(&mut self, cap: Capabilities, tree: CapabiliTree)
        requires
            old(self).wf(),
            tree.wf(),
        ensures
            final(self).wf(),
            forall|c: Capabilities| #[trigger]
                capability_tree(final(self).capability_reg@, c) == if c == cap {
                    Some(tree)
                } else {
                    capability_tree(old(self).capability_reg@, c)
                },
            *final(self) == (Swarm { capability_reg: final(self).capability_reg, ..*old(self) }),
    {
        let ghost before = self.capability_reg@;
        proof {
            lemma_capability_index_is_assoc(before, cap);
        }
        match find_capability(&self.capability_reg, &cap) {
            Some(i) => {
                self.capability_reg.set(i, (cap, tree));
                proof {
                    lemma_assoc_index(before, cap);
                    lemma_assoc_update(before, cap, tree);
                    lemma_assoc_update_unique(before, i as int, cap, tree);
                }
            },
            None => {
                self.capability_reg.push((cap, tree));
                proof {
                    lemma_assoc_push(before, cap, tree);
                    lemma_assoc_push_unique(before, cap, tree);
                }
            },
        }
        proof {
            assert forall|c: Capabilities| #[trigger]
                capability_tree(self.capability_reg@, c) == if c == cap {
                    Some(tree)
                } else {
                    capability_tree(before, c)
                } by {
                lemma_capability_index_is_assoc(self.capability_reg@, c);
                lemma_capability_index_is_assoc(before, c);
            }
            assert forall|i: int| 0 <= i < self.capability_reg@.len() implies (
            #[trigger] self.capability_reg@[i]).1.wf() by {
                if i < before.len() && self.capability_reg@[i] == before[i] {
                } else {
                    assert(self.capability_reg@[i].1 == tree);
                }
            }
        }
    }

    /// Makes `gnome_id` the founder of the swarm, and the only holder of the
    /// founder capability.
    pub fn set_founder(&mut self, gnome_id: GnomeId)
        requires
            old(self).wf(),
        ensures
            final(self).wf(),
            final(self).name == (SwarmName { founder: gnome_id, ..old(self).name }),
            forall|c: Capabilities| #[trigger]
                capability_tree(final(self).capability_reg@, c) == if c == Capabilities::Founder {
                    capability_tree(final(self).capability_reg@, c)
                } else {
                    capability_tree(old(self).capability_reg@, c)
                },
            capability_tree(final(self).capability_reg@, Capabilities::Founder) matches Some(t)
                && forall|g: u64| #[trigger] t.has(g) == (g == gnome_id.0),
            *final(self) == (Swarm {
                name: final(self).name,
                capability_reg: final(self).capability_reg,
                ..*old(self)
            }),
    {
        self.name.founder = gnome_id;
        let mut tree = CapabiliTree::create();
        tree.insert(gnome_id);
        self.set_capability(Capabilities::Founder, tree);
    }

    /// Registers capability `cap` for the last gnome of `id_list` alone; an
    /// empty list changes nothing.
    pub fn insert_capability(&mut self, cap: Capabilities, id_list: Vec<GnomeId>)
        requires
            old(self).wf(),
        ensures
            final(self).wf(),
            id_list@.len() == 0 ==> *final(self) == *old(self),
            id_list@.len() > 0 ==> forall|c: Capabilities| #[trigger]
                capability_tree(final(self).capability_reg@, c) == if c == cap {
                    capability_tree(final(self).capability_reg@, c)
                } else {
                    capability_tree(old(self).capability_reg@, c)
                },
            id_list@.len() > 0 ==> (capability_tree(final(self).capability_reg@, cap) matches Some(t)
                && forall|g: u64| #[trigger] t.has(g) == (g == id_list@.last().0)),
            *final(self) == (Swarm { capability_reg: final(self).capability_reg, ..*old(self) }),
    {
        let mut id_list = id_list;
        if let Some(gnome_id) = id_list.pop() {
            let mut tree = CapabiliTree::create();
            tree.insert(gnome_id);
            self.set_capability(cap, tree);
        }
    }

    pub fn mark_pubkeys_unsynced(&mut self)
        ensures
            *final(self) == (Swarm { last_accepted_pubkey_chunk: (0u8, 1u8), ..*old(self) }),
    {
        self.last_accepted_pubkey_chunk = (0, 1);
    }

    /// Takes chunk `chunk_no` of `total_chunks` of a key registry sync. A
    /// chunk is taken only as the next one expected, or as the first after
    /// the sync started; its keys then go into the registry, from the last
    /// pair to the first. A chunk out of order ends the sync.
    pub fn insert_pubkeys(&mut self, chunk_no: u8, total_chunks: u8, pairs: Vec<(GnomeId, Vec<u8>)>) -> (res: bool)
        requires
            old(self).wf(),
            old(self).last_accepted_pubkey_chunk.0 < 255,
        ensures
            final(self).wf(),
            (final(self).last_accepted_pubkey_chunk, res) == pubkey_chunk_step(
                old(self).last_accepted_pubkey_chunk,
                chunk_no,
                total_chunks,
            ),
            res ==> final(self).key_reg@ == insert_pairs_from_back(old(self).key_reg@, pairs@),
            !res ==> final(self).key_reg == old(self).key_reg,
            res && registry_reachable(old(self).key_reg@) && 1 <= pairs@.len() <= old(self).key_reg@.len()
                && (forall|i: int| 0 <= i < pairs@.len() ==> (#[trigger] pairs@[i]).0.0 != 0) ==> forall|
                i: int,
            |
                0 <= i < pairs@.len() ==> registry_get(final(self).key_reg@, (#[trigger] pairs@[i]).0.0) is Some,
            *final(self) == (Swarm {
                key_reg: final(self).key_reg,
                last_accepted_pubkey_chunk: final(self).last_accepted_pubkey_chunk,
                ..*old(self)
            }),
    {
        let last = self.last_accepted_pubkey_chunk;
        let accept = if chunk_no == last.0 + 1 && last.1 == total_chunks {
            self.last_accepted_pubkey_chunk = if chunk_no == total_chunks {
                (0, 0)
            } else {
                (chunk_no, total_chunks)
            };
            true
        } else if last.0 == 0 && last.1 == 1 {
            if chunk_no == 1 {
                self.last_accepted_pubkey_chunk = (chunk_no, total_chunks);
                true
            } else {
                self.last_accepted_pubkey_chunk = (0, 0);
                false
            }
        } else {
            self.last_accepted_pubkey_chunk = (0, 0);
            false
        };
        if accept {
            let mut pairs = pairs;
            let ghost orig = pairs@;
            let ghost orig_reg = self.key_reg@;
            let ghost pre = *self;
            while pairs.len() > 0
                invariant
                    self.key_reg.wf(),
                    pre.wf(),
                    *self == (Swarm { key_reg: self.key_reg, ..pre }),
                    insert_pairs_from_back(self.key_reg@, pairs@) == insert_pairs_from_back(
                        orig_reg,
                        orig,
                    ),
                decreases pairs@.len(),
            {
                let ghost before = pairs@;
                let (gnome_id, pubkey) = pairs.pop().unwrap();
                proof {
                    assert(pairs@ == before.drop_last());
                }
                self.key_reg.insert(gnome_id, pubkey);
            }
            proof {
                if registry_reachable(orig_reg) && 1 <= orig.len() <= orig_reg.len() && (forall|i: int|
                    0 <= i < orig.len() ==> (#[trigger] orig[i]).0.0 != 0) {
                    lemma_pairs_all_registered(orig_reg, orig);
                }
            }
        }
        accept
    }

    pub fn is_unicast_id_available(&self, cast_id: CastID) -> (res: bool)
        ensures
            res == !self.active_unicasts@.contains(cast_id),
    {
        let mut i: usize = 0;
        while i < self.active_unicasts.len()
            invariant
                i <= self.active_unicasts@.len(),
                forall|k: int| 0 <= k < i ==> self.active_unicasts@[k] != cast_id,
            decreases self.active_unicasts@.len() - i,
        {
            if self.active_unicasts[i] == cast_id {
                return false;
            }
            i = i + 1;
        }
        true
    }

    pub fn is_multicast_id_available(&self, cast_id: CastID) -> (res: bool)
        ensures
            res == (assoc_lookup(self.active_multicasts@, cast_id) is None),
    {
        find_cast(&self.active_multicasts, cast_id).is_none()
    }

    pub fn is_broadcast_id_available(&self, cast_id: CastID) -> (res: bool)
        ensures
            res == (assoc_lookup(self.active_broadcasts@, cast_id) is None),
    {
        find_cast(&self.active_broadcasts, cast_id).is_none()
    }

    /// The lowest broadcast id not in use.
    pub fn next_broadcast_id(&self) -> (res: Option<CastID>)
        ensures
            res matches Some(c) ==> assoc_lookup(self.active_broadcasts@, c) is None && forall|
                d: u8,
            | d < c.0 ==> #[trigger] assoc_lookup(self.active_broadcasts@, CastID(d)) is Some,
            res is None ==> forall|d: u8|
                #[trigger] assoc_lookup(self.active_broadcasts@, CastID(d)) is Some,
    {
        let mut id: u16 = 0;
        while id <= 255
            invariant
                id <= 256,
                forall|d: u8| d < id ==> #[trigger] assoc_lookup(self.active_broadcasts@, CastID(d)) is Some,
            decreases 256 - id,
        {
            let cid = CastID(id as u8);
            if self.is_broadcast_id_available(cid) {
                return Some(cid);
            }
            id = id + 1;
        }
        None
    }

    /// The lowest multicast id not in use.
    pub fn next_multicast_id(&self) -> (res: Option<CastID>)
        ensures
            res matches Some(c) ==> assoc_lookup(self.active_multicasts@, c) is None && forall|
                d: u8,
            | d < c.0 ==> #[trigger] assoc_lookup(self.active_multicasts@, CastID(d)) is Some,
            res is None ==> forall|d: u8|
                #[trigger] assoc_lookup(self.active_multicasts@, CastID(d)) is Some,
    {
        let mut id: u16 = 0;
        while id <= 255
            invariant
                id <= 256,
                forall|d: u8| d < id ==> #[trigger] assoc_lookup(self.active_multicasts@, CastID(d)) is Some,
            decreases 256 - id,
        {
            let cid = CastID(id as u8);
            if self.is_multicast_id_available(cid) {
                return Some(cid);
            }
            id = id + 1;
        }
        None
    }

    pub fn insert_unicast(&mut self, cast_id: CastID)
        ensures
            final(self).active_unicasts@.to_set() == old(self).active_unicasts@.to_set().insert(
                cast_id,
            ),
            *final(self) == (Swarm { active_unicasts: final(self).active_unicasts, ..*old(self) }),
    {
        if self.is_unicast_id_available(cast_id) {
            self.active_unicasts.push(cast_id);
            proof {
                old(self).active_unicasts@.lemma_push_to_set_commute(cast_id);
                assert(self.active_unicasts@.to_set() =~= old(self).active_unicasts@.to_set().insert(cast_id));
            }
        } else {
            proof {
                assert(old(self).active_unicasts@.to_set().contains(cast_id));
                assert(self.active_unicasts@.to_set() =~= old(self).active_unicasts@.to_set().insert(cast_id));
            }
        }
    }

    pub fn insert_multicast(&mut self, cast_id: CastID, multicast: Multicast)
        requires
            old(self).wf(),
            multicast.wf(),
        ensures
            final(self).wf(),
            casts_changed(old(self).active_multicasts@, final(self).active_multicasts@, cast_id, multicast),
            *final(self) == (Swarm { active_multicasts: final(self).active_multicasts, ..*old(self) }),
    {
        put_cast(&mut self.active_multicasts, cast_id, multicast);
    }

    pub fn insert_broadcast(&mut self, cast_id: CastID, broadcast: Multicast)
        requires
            old(self).wf(),
            broadcast.wf(),
        ensures
            final(self).wf(),
            casts_changed(old(self).active_broadcasts@, final(self).active_broadcasts@, cast_id, broadcast),
            *final(self) == (Swarm { active_broadcasts: final(self).active_broadcasts, ..*old(self) }),
    {
        put_cast(&mut self.active_broadcasts, cast_id, broadcast);
    }

    /// The subscribers of the cast `cast_id`, with `sub_id` added, and its
    /// origin; `None` where the gnome takes no part in that cast.
    pub fn add_subscriber(&mut self, is_bcast: bool, cast_id: &CastID, sub_id: GnomeId) -> (res:
        Option<GnomeId>)
        requires
            old(self).wf(),
        ensures
            final(self).wf(),
            final(self).casts(!is_bcast) == old(self).casts(!is_bcast),
            cast_unchanged_but(old(self).casts(is_bcast), final(self).casts(is_bcast), *cast_id),
            *final(self) == (Swarm {
                active_broadcasts: final(self).active_broadcasts,
                active_multicasts: final(self).active_multicasts,
                ..*old(self)
            }),
            match assoc_lookup(old(self).casts(is_bcast), *cast_id) {
                None => res is None && final(self).casts(is_bcast) == old(self).casts(is_bcast),
                Some(m) => res == Some(m.origin) && (assoc_lookup(final(self).casts(is_bcast), *cast_id) matches Some(m2)
                    && same_but_subscribers(m, m2) && m2.subscribers@ == (
                if m.subscribers@.contains(sub_id) {
                    m.subscribers@
                } else {
                    m.subscribers@.push(sub_id)
                })),
            },
    {
        let list = if is_bcast {
            &mut self.active_broadcasts
        } else {
            &mut self.active_multicasts
        };
        match find_cast(list, *cast_id) {
            Some(i) => {
                let ghost before = list@;
                proof {
                    lemma_assoc_index(before, *cast_id);
                }
                let (cid, mut cast) = list.remove(i);
                cast.add_subscriber(sub_id);
                let origin = cast.origin;
                list.insert(i, (cid, cast));
                proof {
                    assert(list@ =~= before.update(i as int, (*cast_id, cast)));
                    lemma_assoc_update(before, *cast_id, cast);
                    lemma_assoc_update_unique(before, i as int, *cast_id, cast);
                    assert forall|j: int| 0 <= j < list@.len() implies (#[trigger] list@[j]).1.wf() by {
                        if j != i {
                            assert(list@[j] == before[j]);
                        }
                    }
                }
                Some(origin)
            },
            None => None,
        }
    }

    /// Removes `sub_id` from the subscribers of the cast `cast_id`, and says
    /// whether it was one.
    pub fn remove_subscriber(&mut self, is_bcast: bool, cast_id: &CastID, sub_id: GnomeId) -> (res:
        bool)
        requires
            old(self).wf(),
        ensures
            final(self).wf(),
            final(self).casts(!is_bcast) == old(self).casts(!is_bcast),
            cast_unchanged_but(old(self).casts(is_bcast), final(self).casts(is_bcast), *cast_id),
            *final(self) == (Swarm {
                active_broadcasts: final(self).active_broadcasts,
                active_multicasts: final(self).active_multicasts,
                ..*old(self)
            }),
            match assoc_lookup(old(self).casts(is_bcast), *cast_id) {
                None => !res && final(self).casts(is_bcast) == old(self).casts(is_bcast),
                Some(m) => res == m.subscribers@.contains(sub_id) && (assoc_lookup(final(self).casts(is_bcast), *cast_id) matches Some(m2)
                    && same_but_subscribers(m, m2) && m2.subscribers@ == without(m.subscribers@, sub_id)),
            },
    {
        let list = if is_bcast {
            &mut self.active_broadcasts
        } else {
            &mut self.active_multicasts
        };
        match find_cast(list, *cast_id) {
            Some(i) => {
                let ghost before = list@;
                proof {
                    lemma_assoc_index(before, *cast_id);
                }
                let (cid, mut cast) = list.remove(i);
                let removed = cast.remove_subscriber(&sub_id);
                list.insert(i, (cid, cast));
                proof {
                    assert(list@ =~= before.update(i as int, (*cast_id, cast)));
                    lemma_assoc_update(before, *cast_id, cast);
                    lemma_assoc_update_unique(before, i as int, *cast_id, cast);
                    assert forall|j: int| 0 <= j < list@.len() implies (#[trigger] list@[j]).1.wf() by {
                        if j != i {
                            assert(list@[j] == before[j]);
                        }
                    }
                }
                removed
            },
            None => false,
        }
    }

    /// Forgets `old_source` as an alternative source of the cast `cast_id`
    /// and gives the alternatives left.
    pub fn get_alt_sources(&mut self, is_bcast: bool, cast_id: &CastID, old_source: GnomeId) -> (res:
        Vec<GnomeId>)
        requires
            old(self).wf(),
        ensures
            final(self).wf(),
            final(self).casts(!is_bcast) == old(self).casts(!is_bcast),
            cast_unchanged_but(old(self).casts(is_bcast), final(self).casts(is_bcast), *cast_id),
            *final(self) == (Swarm {
                active_broadcasts: final(self).active_broadcasts,
                active_multicasts: final(self).active_multicasts,
                ..*old(self)
            }),
            match assoc_lookup(old(self).casts(is_bcast), *cast_id) {
                None => res@.len() == 0 && final(self).casts(is_bcast) == old(self).casts(is_bcast),
                Some(m) => res@ == without(m.alt_sources@, old_source) && (assoc_lookup(final(self).casts(is_bcast), *cast_id) matches Some(m2)
                    && m2.alt_sources@ == res@ && m2.origin == m.origin && m2.source == m.source
                    && m2.subscribers == m.subscribers && m2.to_app == m.to_app),
            },
    {
        let list = if is_bcast {
            &mut self.active_broadcasts
        } else {
            &mut self.active_multicasts
        };
        match find_cast(list, *cast_id) {
            Some(i) => {
                let ghost before = list@;
                proof {
                    lemma_assoc_index(before, *cast_id);
                }
                let (cid, mut cast) = list.remove(i);
                let alts = cast.get_alt_sources(old_source);
                list.insert(i, (cid, cast));
                proof {
                    assert(list@ =~= before.update(i as int, (*cast_id, cast)));
                    lemma_assoc_update(before, *cast_id, cast);
                    lemma_assoc_update_unique(before, i as int, *cast_id, cast);
                    assert forall|j: int| 0 <= j < list@.len() implies (#[trigger] list@[j]).1.wf() by {
                        if j != i {
                            assert(list@[j] == before[j]);
                        }
                    }
                }
                alts
            },
            None => Vec::new(),
        }
    }

    /// The neighbor that the cast `cast_id` comes from.
    pub fn get_source(&self, cast_id: &CastID, is_broadcast: bool) -> (res: Option<GnomeId>)
        ensures
            res == match assoc_lookup(self.casts(is_broadcast), *cast_id) {
                Some(m) => Some(m.source),
                None => None,
            },
    {
        let list = if is_broadcast {
            &self.active_broadcasts
        } else {
            &self.active_multicasts
        };
        proof {
            lemma_assoc_index(list@, *cast_id);
        }
        match find_cast(list, *cast_id) {
            Some(i) => Some(list[i].1.source),
            None => None,
        }
    }

    /// Makes `source` the neighbor that the cast `cast_id` comes from.
    pub fn set_source(&mut self, cast_id: &CastID, is_broadcast: bool, source: GnomeId)
        requires
            old(self).wf(),
        ensures
            final(self).wf(),
            final(self).casts(!is_broadcast) == old(self).casts(!is_broadcast),
            cast_unchanged_but(old(self).casts(is_broadcast), final(self).casts(is_broadcast), *cast_id),
            *final(self) == (Swarm {
                active_broadcasts: final(self).active_broadcasts,
                active_multicasts: final(self).active_multicasts,
                ..*old(self)
            }),
            match assoc_lookup(old(self).casts(is_broadcast), *cast_id) {
                None => final(self).casts(is_broadcast) == old(self).casts(is_broadcast),
                Some(m) => assoc_lookup(final(self).casts(is_broadcast), *cast_id) == Some(
                    Multicast { source, ..m },
                ),
            },
    {
        let list = if is_broadcast {
            &mut self.active_broadcasts
        } else {
            &mut self.active_multicasts
        };
        match find_cast(list, *cast_id) {
            Some(i) => {
                let ghost before = list@;
                proof {
                    lemma_assoc_index(before, *cast_id);
                }
                let (cid, mut cast) = list.remove(i);
                cast.set_source(source);
                list.insert(i, (cid, cast));
                proof {
                    assert(list@ =~= before.update(i as int, (*cast_id, cast)));
                    lemma_assoc_update(before, *cast_id, cast);
                    lemma_assoc_update_unique(before, i as int, *cast_id, cast);
                    assert forall|j: int| 0 <= j < list@.len() implies (#[trigger] list@[j]).1.wf() by {
                        if j != i {
                            assert(list@[j] == before[j]);
                        }
                    }
                }
            },
            None => {},
        }
    }

    /// Stops the gnome's application from getting the cast `cast_id`. The
    /// origin of a cast keeps serving it and gets `None`; any other gnome
    /// leaves the cast and gets where it came from and who it went to.
    pub fn unsubscribe_cast(&mut self, own_gnome_id: GnomeId, is_bcast: bool, cast_id: &CastID) -> (res:
        Option<(GnomeId, Vec<GnomeId>)>)
        requires
            old(self).wf(),
        ensures
            final(self).wf(),
            final(self).casts(!is_bcast) == old(self).casts(!is_bcast),
            cast_unchanged_but(old(self).casts(is_bcast), final(self).casts(is_bcast), *cast_id),
            *final(self) == (Swarm {
                active_broadcasts: final(self).active_broadcasts,
                active_multicasts: final(self).active_multicasts,
                ..*old(self)
            }),
            match assoc_lookup(old(self).casts(is_bcast), *cast_id) {
                None => res is None && final(self).casts(is_bcast) == old(self).casts(is_bcast),
                Some(m) => if m.origin == own_gnome_id {
                    res is None && assoc_lookup(final(self).casts(is_bcast), *cast_id) == Some(
                        Multicast { to_app: false, ..m },
                    )
                } else {
                    (res matches Some((o, subs)) && o == m.origin && subs@ == m.subscribers@)
                        && assoc_lookup(final(self).casts(is_bcast), *cast_id) is None
                },
            },
    {
        let list = if is_bcast {
            &mut self.active_broadcasts
        } else {
            &mut self.active_multicasts
        };
        proof {
            lemma_assoc_index(list@, *cast_id);
        }
        match take_cast(list, *cast_id) {
            Some(mut cast) => {
                if own_gnome_id == cast.origin {
                    cast.dont_send_to_app();
                    let ghost mid = list@;
                    proof {
                        lemma_assoc_index(mid, *cast_id);
                    }
                    put_cast(list, *cast_id, cast);
                    None
                } else {
                    Some((cast.origin, cast.subscribers()))
                }
            },
            None => None,
        }
    }

    /// Ends the cast `cast_id` here, giving where it came from and who it went to.
    pub fn remove_cast(&mut self, is_bcast: bool, cast_id: &CastID) -> (res: Option<(GnomeId, Vec<GnomeId>)>)
        requires
            old(self).wf(),
        ensures
            final(self).wf(),
            final(self).casts(!is_bcast) == old(self).casts(!is_bcast),
            is_bcast ==> final(self).active_multicasts == old(self).active_multicasts,
            !is_bcast ==> final(self).active_broadcasts == old(self).active_broadcasts,
            cast_unchanged_but(old(self).casts(is_bcast), final(self).casts(is_bcast), *cast_id),
            assoc_lookup(final(self).casts(is_bcast), *cast_id) is None,
            *final(self) == (Swarm {
                active_broadcasts: final(self).active_broadcasts,
                active_multicasts: final(self).active_multicasts,
                ..*old(self)
            }),
            match assoc_lookup(old(self).casts(is_bcast), *cast_id) {
                None => res is None,
                Some(m) => res matches Some((src, subs)) && src == m.source && subs@ == m.subscribers@,
            },
    {
        let list = if is_bcast {
            &mut self.active_broadcasts
        } else {
            &mut self.active_multicasts
        };
        match take_cast(list, *cast_id) {
            Some(cast) => Some((cast.source, cast.subscribers())),
            None => None,
        }
    }

    /// The number of broadcasts, counted modulo 256.
    pub fn broadcasts_count(&self) -> (res: u8)
        ensures
            res == self.active_broadcasts@.len() % 256,
    {
        let n = self.active_broadcasts.len();
        let r = (n % 256) as u8;
        r
    }

    /// The number of multicasts, counted modulo 256.
    pub fn multicasts_count(&self) -> (res: u8)
        ensures
            res == self.active_multicasts@.len() % 256,
    {
        let n = self.active_multicasts.len();
        let r = (n % 256) as u8;
        r
    }

    /// Each broadcast with its origin.
    pub fn broadcast_ids(&self) -> (res: Vec<(CastID, GnomeId)>)
        ensures
            res@.len() == self.active_broadcasts@.len(),
            forall|i: int| 0 <= i < res@.len() ==> #[trigger] res@[i] == (self.active_broadcasts@[i].0, self.active_broadcasts@[i].1.origin),
    {
        cast_ids(&self.active_broadcasts)
    }

    /// Each multicast with its origin.
    pub fn multicast_ids(&self) -> (res: Vec<(CastID, GnomeId)>)
        ensures
            res@.len() == self.active_multicasts@.len(),
            forall|i: int| 0 <= i < res@.len() ==> #[trigger] res@[i] == (self.active_multicasts@[i].0, self.active_multicasts@[i].1.origin),
    {
        cast_ids(&self.active_multicasts)
    }

    /// The unicast ids not in use, ascending. Ids `254` and `255` are kept
    /// for requests and responses between neighbors.
    pub fn avail_unicast_ids(&self) -> (res: Vec<CastID>)
        ensures
            res@ == free_unicast_ids(self.active_unicasts@),
            ascending_ids(res@),
            forall|c: CastID| #[trigger] res@.contains(c) <==> c.0 <= 253 && !self.active_unicasts@.contains(c),
    {
        let mut res: Vec<CastID> = Vec::new();
        let mut i: u16 = 0;
        proof {
            reveal(Seq::filter);
            assert(cast_ids_below(0).filter(not_in(self.active_unicasts@)) =~= Seq::<CastID>::empty());
        }
        while i <= 253
            invariant
                i <= 254,
                ascending_ids(res@),
                res@ == cast_ids_below(i as nat).filter(not_in(self.active_unicasts@)),
                forall|k: int| 0 <= k < res@.len() ==> res@[k].0 < i,
                forall|c: CastID| #[trigger] res@.contains(c) <==> c.0 < i && !self.active_unicasts@.contains(c),
            decreases 254 - i,
        {
            let ci: u8 = i as u8;
            assert(ci == i) by (bit_vector)
                requires
                    ci == i as u8,
                    i <= 255,
            ;
            let c = CastID(ci);
            let ghost prev = res@;
            if self.is_unicast_id_available(c) {
                res.push(c);
            }
            proof {
                let all = cast_ids_below((i + 1) as nat);
                assert(all.drop_last() =~= cast_ids_below(i as nat));
                assert(all.last() == c);
                reveal(Seq::filter);
                assert(res@ =~= all.filter(not_in(self.active_unicasts@)));
            }
            proof {
                assert forall|x: CastID| #[trigger] res@.contains(x) <==> x.0 < i + 1 && !self.active_unicasts@.contains(x) by {
                    if x.0 == i {
                        assert(x == c);
                        if res@.len() > prev.len() {
                            assert(res@[prev.len() as int] == c);
                        }
                    }
                    if res@.len() > prev.len() && res@.contains(x) {
                        let k = choose|k: int| 0 <= k < res@.len() && res@[k] == x;
                        if k < prev.len() {
                            assert(prev[k] == x);
                        }
                    }
                    if prev.contains(x) {
                        let k = choose|k: int| 0 <= k < prev.len() && prev[k] == x;
                        assert(res@[k] == x);
                    }
                }
            }
            i = i + 1;
        }
        res
    }

    /// The multicast ids not in use, ascending.
    pub fn avail_multicast_ids(&self) -> (res: Vec<CastID>)
        ensures
            ascending_ids(res@),
            forall|c: CastID| #[trigger] res@.contains(c) <==> assoc_lookup(self.active_multicasts@, c) is None,
    {
        let mut res: Vec<CastID> = Vec::new();
        let mut i: u16 = 0;
        while i <= 255
            invariant
                i <= 256,
                ascending_ids(res@),
                forall|k: int| 0 <= k < res@.len() ==> res@[k].0 < i,
                forall|c: CastID| #[trigger] res@.contains(c) <==> c.0 < i && assoc_lookup(self.active_multicasts@, c) is None,
            decreases 256 - i,
        {
            let ci: u8 = i as u8;
            assert(ci == i) by (bit_vector)
                requires
                    ci == i as u8,
                    i <= 255,
            ;
            let c = CastID(ci);
            let ghost prev = res@;
            if self.is_multicast_id_available(c) {
                res.push(c);
            }
            proof {
                assert forall|x: CastID| #[trigger] res@.contains(x) <==> x.0 < i + 1 && assoc_lookup(self.active_multicasts@, x) is None by {
                    if x.0 == i {
                        assert(x == c);
                        if res@.len() > prev.len() {
                            assert(res@[prev.len() as int] == c);
                        }
                    }
                    if res@.len() > prev.len() && res@.contains(x) {
                        let k = choose|k: int| 0 <= k < res@.len() && res@[k] == x;
                        if k < prev.len() {
                            assert(prev[k] == x);
                        }
                    }
                    if prev.contains(x) {
                        let k = choose|k: int| 0 <= k < prev.len() && prev[k] == x;
                        assert(res@[k] == x);
                    }
                }
            }
            i = i + 1;
        }
        res
    }

    /// The broadcast ids not in use, ascending.
    pub fn avail_broadcast_ids(&self) -> (res: Vec<CastID>)
        ensures
            ascending_ids(res@),
            forall|c: CastID| #[trigger] res@.contains(c) <==> assoc_lookup(self.active_broadcasts@, c) is None,
    {
        let mut res: Vec<CastID> = Vec::new();
        let mut i: u16 = 0;
        while i <= 255
            invariant
                i <= 256,
                ascending_ids(res@),
                forall|k: int| 0 <= k < res@.len() ==> res@[k].0 < i,
                forall|c: CastID| #[trigger] res@.contains(c) <==> c.0 < i && assoc_lookup(self.active_broadcasts@, c) is None,
            decreases 256 - i,
        {
            let ci: u8 = i as u8;
            assert(ci == i) by (bit_vector)
                requires
                    ci == i as u8,
                    i <= 255,
            ;
            let c = CastID(ci);
            let ghost prev = res@;
            if self.is_broadcast_id_available(c) {
                res.push(c);
            }
            proof {
                assert forall|x: CastID| #[trigger] res@.contains(x) <==> x.0 < i + 1 && assoc_lookup(self.active_broadcasts@, x) is None by {
                    if x.0 == i {
                        assert(x == c);
                        if res@.len() > prev.len() {
                            assert(res@[prev.len() as int] == c);
                        }
                    }
                    if res@.len() > prev.len() && res@.contains(x) {
                        let k = choose|k: int| 0 <= k < res@.len() && res@[k] == x;
                        if k < prev.len() {
                            assert(prev[k] == x);
                        }
                    }
                    if prev.contains(x) {
                        let k = choose|k: int| 0 <= k < prev.len() && prev[k] == x;
                        assert(res@[k] == x);
                    }
                }
            }
            i = i + 1;
        }
        res
    }
}

/// Ids in strictly ascending order.
/// The ids `0` to `n - 1`, ascending.
pub open spec fn cast_ids_below(n: nat) -> Seq<CastID> {
    Seq::new(n, |i: int| CastID(i as u8))
}

/// The test for an id that `active` does not hold.
pub open spec fn not_in(active: Seq<CastID>) -> spec_fn(CastID) -> bool {
    |c: CastID| !active.contains(c)
}

/// The unicast ids, up to 253, that `active` leaves free, ascending.
pub open spec fn free_unicast_ids(active: Seq<CastID>) -> Seq<CastID> {
    cast_ids_below(254).filter(not_in(active))
}

pub open spec fn ascending_ids(s: Seq<CastID>) -> bool {
    forall|i: int, j: int| 0 <= i < j < s.len() ==> s[i].0 < s[j].0
}

/// Only the entry for `id` may differ between the two lists.
pub open spec fn cast_unchanged_but(
    before: Seq<(CastID, Multicast)>,
    after: Seq<(CastID, Multicast)>,
    id: CastID,
) -> bool {
    forall|c: CastID| c != id ==> #[trigger] assoc_lookup(after, c) == assoc_lookup(before, c)
}

/// The two casts differ at most in their subscribers.
pub open spec fn same_but_subscribers(a: Multicast, b: Multicast) -> bool {
    &&& a.origin == b.origin
    &&& a.source == b.source
    &&& a.alt_sources == b.alt_sources
    &&& a.to_app == b.to_app
}

fn cast_ids(list: &Vec<(CastID, Multicast)>) -> (res: Vec<(CastID, GnomeId)>)
    ensures
        res@.len() == list@.len(),
        forall|i: int| 0 <= i < res@.len() ==> #[trigger] res@[i] == (list@[i].0, list@[i].1.origin),
{
    let mut ids: Vec<(CastID, GnomeId)> = Vec::new();
    let mut i: usize = 0;
    while i < list.len()
        invariant
            i <= list@.len(),
            ids@.len() == i,
            forall|k: int| 0 <= k < i ==> #[trigger] ids@[k] == (list@[k].0, list@[k].1.origin),
        decreases list@.len() - i,
    {
        ids.push((list[i].0, list[i].1.origin));
        i = i + 1;
    }
    ids
}


/// Capability sync chunks under construction: the chunks done, the pairs of
/// the chunk being filled, the ids of the capability being added, and the
/// bytes left in the chunk.
pub type CapChunking = (Seq<Seq<(Capabilities, Seq<GnomeId>)>>, Seq<(Capabilities, Seq<GnomeId>)>, Seq<GnomeId>, int);

/// Adding id `g` of capability `c`: an id takes eight bytes and fits while
/// nine are left. Where it does not fit, the chunk is closed with the ids so
/// far and a new one starts, and `g` itself is not sent.
pub open spec fn cap_id_step(st: CapChunking, c: Capabilities, g: GnomeId) -> CapChunking {
    if st.3 >= 9 {
        (st.0, st.1, st.2.push(g), st.3 - 8)
    } else {
        (st.0.push(st.1.push((c, st.2))), Seq::empty(), Seq::empty(), 1200)
    }
}

/// Adding the ids `ids` of capability `c`, in order.
pub open spec fn cap_ids_steps(st: CapChunking, c: Capabilities, ids: Seq<GnomeId>) -> CapChunking
    decreases ids.len(),
{
    if ids.len() == 0 {
        st
    } else {
        cap_id_step(cap_ids_steps(st, c, ids.drop_last()), c, ids.last())
    }
}

/// Chunking the capability registry `reg`, entry by entry.
pub open spec fn cap_chunking(reg: Seq<(Capabilities, CapabiliTree)>) -> (Seq<Seq<(Capabilities, Seq<GnomeId>)>>, Seq<(Capabilities, Seq<GnomeId>)>, int)
    decreases reg.len(),
{
    if reg.len() == 0 {
        (Seq::empty(), Seq::empty(), 1200)
    } else {
        let prev = cap_chunking(reg.drop_last());
        let e = reg.last();
        let st = cap_ids_steps((prev.0, prev.1, Seq::empty(), prev.2), e.0, e.1.id_seq());
        (st.0, st.1.push((e.0, st.2)), st.3)
    }
}

/// The chunks in which a capability registry is sent to a joining neighbor.
pub open spec fn capability_chunks_of(reg: Seq<(Capabilities, CapabiliTree)>) -> Seq<Seq<(Capabilities, Seq<GnomeId>)>> {
    let st = cap_chunking(reg);
    if st.1.len() > 0 {
        st.0.push(st.1)
    } else {
        st.0
    }
}

/// Policy sync chunks under construction: the chunks done, the pairs of the
/// chunk being filled, and the bytes left in it.
pub type PolicyChunking = (Seq<Seq<(Policy, Requirement)>>, Seq<(Policy, Requirement)>, int);

/// Chunking the policy registry `reg`, entry by entry: a policy takes a byte
/// and its requirement as many as its encoding has. Where it does not fit,
/// the chunk is closed and a new one starts, and the policy is not sent.
pub open spec fn policy_chunking(reg: Seq<(Policy, Requirement)>) -> PolicyChunking
    decreases reg.len(),
{
    if reg.len() == 0 {
        (Seq::empty(), Seq::empty(), 1200)
    } else {
        let st = policy_chunking(reg.drop_last());
        let e = reg.last();
        let l = requirement_size(e.1);
        if l + 1 <= st.2 {
            (st.0, st.1.push(e), st.2 - 1 - l)
        } else {
            (st.0.push(st.1), Seq::empty(), 1200)
        }
    }
}

/// The chunks in which a policy registry is sent to a joining neighbor.
pub open spec fn policy_chunks_of(reg: Seq<(Policy, Requirement)>) -> Seq<Seq<(Policy, Requirement)>> {
    let st = policy_chunking(reg);
    if st.1.len() > 0 {
        st.0.push(st.1)
    } else {
        st.0
    }
}

/// The pairs of a capability chunk, with each id list by its content.
pub open spec fn cap_pairs_view(p: Seq<(Capabilities, Vec<GnomeId>)>) -> Seq<(Capabilities, Seq<GnomeId>)> {
    p.map_values(|e: (Capabilities, Vec<GnomeId>)| (e.0, e.1@))
}

/// Capability chunks by their content.
pub open spec fn cap_chunks_view(t: Seq<Vec<(Capabilities, Vec<GnomeId>)>>) -> Seq<Seq<(Capabilities, Seq<GnomeId>)>> {
    t.map_values(|v: Vec<(Capabilities, Vec<GnomeId>)>| cap_pairs_view(v@))
}

/// Policy chunks by their content.
pub open spec fn policy_chunks_view(t: Seq<Vec<(Policy, Requirement)>>) -> Seq<Seq<(Policy, Requirement)>> {
    t.map_values(|v: Vec<(Policy, Requirement)>| v@)
}

proof fn lemma_cap_chunks_push(t: Seq<Vec<(Capabilities, Vec<GnomeId>)>>, v: Vec<(Capabilities, Vec<GnomeId>)>)
    ensures
        cap_chunks_view(t.push(v)) == cap_chunks_view(t).push(cap_pairs_view(v@)),
{
    assert(cap_chunks_view(t.push(v)) =~= cap_chunks_view(t).push(cap_pairs_view(v@)));
}

proof fn lemma_cap_pairs_push(p: Seq<(Capabilities, Vec<GnomeId>)>, e: (Capabilities, Vec<GnomeId>))
    ensures
        cap_pairs_view(p.push(e)) == cap_pairs_view(p).push((e.0, e.1@)),
{
    assert(cap_pairs_view(p.push(e)) =~= cap_pairs_view(p).push((e.0, e.1@)));
}

proof fn lemma_policy_views_push(t: Seq<Vec<(Policy, Requirement)>>, v: Vec<(Policy, Requirement)>)
    ensures
        policy_chunks_view(t.push(v)) == policy_chunks_view(t).push(v@),
{
    assert(policy_chunks_view(t.push(v)) =~= policy_chunks_view(t).push(v@));
}

impl Swarm {
    /// The capability registry in chunks that fit a sync message: see
    /// `capability_chunks_of`.
    pub fn capabilities_chunks(&self) -> (res: Vec<Vec<(Capabilities, Vec<GnomeId>)>>)
        ensures
            cap_chunks_view(res@) == capability_chunks_of(self.capability_reg@),
    {
        let mut total: Vec<Vec<(Capabilities, Vec<GnomeId>)>> = Vec::new();
        let mut pairs: Vec<(Capabilities, Vec<GnomeId>)> = Vec::new();
        let mut avail_bytes: u16 = 1200;
        let mut i: usize = 0;
        proof {
            assert(self.capability_reg@.take(0) =~= Seq::<(Capabilities, CapabiliTree)>::empty());
            assert(cap_chunks_view(total@) =~= Seq::<Seq<(Capabilities, Seq<GnomeId>)>>::empty());
            assert(cap_pairs_view(pairs@) =~= Seq::<(Capabilities, Seq<GnomeId>)>::empty());
        }
        while i < self.capability_reg.len()
            invariant
                i <= self.capability_reg@.len(),
                avail_bytes <= 1200,
                (cap_chunks_view(total@), cap_pairs_view(pairs@), avail_bytes as int) == cap_chunking(self.capability_reg@.take(i as int)),
            decreases self.capability_reg@.len() - i,
        {
            let c_id = self.capability_reg[i].0;
            let gnome_ids = self.capability_reg[i].1.id_vec();
            let ghost st0: CapChunking = (cap_chunks_view(total@), cap_pairs_view(pairs@), Seq::<GnomeId>::empty(), avail_bytes as int);
            let mut gnomes_to_add: Vec<GnomeId> = Vec::new();
            let mut j: usize = 0;
            proof {
                assert(gnome_ids@.take(0) =~= Seq::<GnomeId>::empty());
            }
            while j < gnome_ids.len()
                invariant
                    j <= gnome_ids@.len(),
                    avail_bytes <= 1200,
                    (cap_chunks_view(total@), cap_pairs_view(pairs@), gnomes_to_add@, avail_bytes as int) == cap_ids_steps(st0, c_id, gnome_ids@.take(j as int)),
                decreases gnome_ids@.len() - j,
            {
                let g_id = gnome_ids[j];
                proof {
                    assert(gnome_ids@.take(j as int + 1).drop_last() =~= gnome_ids@.take(j as int));
                    assert(gnome_ids@.take(j as int + 1).last() == g_id);
                }
                if avail_bytes >= 9 {
                    gnomes_to_add.push(g_id);
                    avail_bytes = avail_bytes - 8;
                } else {
                    let mut done_gnomes: Vec<GnomeId> = Vec::new();
                    std::mem::swap(&mut done_gnomes, &mut gnomes_to_add);
                    let ghost p_before = pairs@;
                    let ghost t_before = total@;
                    pairs.push((c_id, done_gnomes));
                    let mut done_pairs: Vec<(Capabilities, Vec<GnomeId>)> = Vec::new();
                    std::mem::swap(&mut done_pairs, &mut pairs);
                    total.push(done_pairs);
                    proof {
                        lemma_cap_pairs_push(p_before, (c_id, done_gnomes));
                        lemma_cap_chunks_push(t_before, done_pairs);
                        assert(cap_pairs_view(pairs@) =~= Seq::<(Capabilities, Seq<GnomeId>)>::empty());
                    }
                    avail_bytes = 1200;
                }
                j = j + 1;
            }
            proof {
                assert(gnome_ids@.take(j as int) =~= gnome_ids@);
                assert(self.capability_reg@.take(i as int + 1).drop_last() =~= self.capability_reg@.take(i as int));
                assert(self.capability_reg@.take(i as int + 1).last() == self.capability_reg@[i as int]);
            }
            let ghost p_before = pairs@;
            pairs.push((c_id, gnomes_to_add));
            proof {
                lemma_cap_pairs_push(p_before, (c_id, gnomes_to_add));
            }
            i = i + 1;
        }
        proof {
            assert(self.capability_reg@.take(i as int) =~= self.capability_reg@);
        }
        if pairs.len() > 0 {
            let ghost t_before = total@;
            total.push(pairs);
            proof {
                lemma_cap_chunks_push(t_before, pairs);
            }
        }
        total
    }

    /// The policy registry in chunks that fit a sync message: see
    /// `policy_chunks_of`.
    pub fn policy_chunks(&self) -> (res: Vec<Vec<(Policy, Requirement)>>)
        requires
            forall|k: int| 0 <= k < self.policy_reg@.len() ==> requirement_size((#[trigger] self.policy_reg@[k]).1) <= 255,
        ensures
            policy_chunks_view(res@) == policy_chunks_of(self.policy_reg@),
    {
        let mut total: Vec<Vec<(Policy, Requirement)>> = Vec::new();
        let mut pairs: Vec<(Policy, Requirement)> = Vec::new();
        let mut avail_bytes: u16 = 1200;
        let mut i: usize = 0;
        proof {
            assert(self.policy_reg@.take(0) =~= Seq::<(Policy, Requirement)>::empty());
            assert(policy_chunks_view(total@) =~= Seq::<Seq<(Policy, Requirement)>>::empty());
        }
        while i < self.policy_reg.len()
            invariant
                i <= self.policy_reg@.len(),
                avail_bytes <= 1200,
                forall|k: int| 0 <= k < self.policy_reg@.len() ==> requirement_size((#[trigger] self.policy_reg@[k]).1) <= 255,
                (policy_chunks_view(total@), pairs@, avail_bytes as int) == policy_chunking(self.policy_reg@.take(i as int)),
            decreases self.policy_reg@.len() - i,
        {
            let p_id = self.policy_reg[i].0;
            let req = self.policy_reg[i].1.clone();
            let req_len = req.len();
            proof {
                assert(self.policy_reg@.take(i as int + 1).drop_last() =~= self.policy_reg@.take(i as int));
                assert(self.policy_reg@.take(i as int + 1).last() == self.policy_reg@[i as int]);
            }
            if (req_len as u16) + 1 <= avail_bytes {
                pairs.push((p_id, req));
                avail_bytes = avail_bytes - 1 - (req_len as u16);
            } else {
                let mut done: Vec<(Policy, Requirement)> = Vec::new();
                std::mem::swap(&mut done, &mut pairs);
                let ghost t_before = total@;
                total.push(done);
                proof {
                    lemma_policy_views_push(t_before, done);
                }
                avail_bytes = 1200;
            }
            i = i + 1;
        }
        proof {
            assert(self.policy_reg@.take(i as int) =~= self.policy_reg@);
        }
        if pairs.len() > 0 {
            let ghost t_before = total@;
            total.push(pairs);
            proof {
                lemma_policy_views_push(t_before, pairs);
            }
        }
        total
    }
}


impl Swarm {
    /// Serves a neighbor's unicast request: the first of the `offered` ids
    /// that is free here becomes an active unicast and is returned.
    pub fn claim_unicast_id(&mut self, offered: &[CastID; 256]) -> (res: Option<CastID>)
        ensures
            ({
                let first = first_free_offer(offered@, old(self).active_unicasts@);
                &&& first < 0 ==> res is None && final(self).active_unicasts@ == old(self).active_unicasts@
                &&& first >= 0 ==> res == Some(offered@[first]) && final(self).active_unicasts@
                    == old(self).active_unicasts@.push(offered@[first])
            }),
            *final(self) == (Swarm { active_unicasts: final(self).active_unicasts, ..*old(self) }),
    {
        let mut i: usize = 0;
        proof {
            assert(offered@.skip(0) =~= offered@);
        }
        while i < 256
            invariant
                i <= 256,
                *self == *old(self),
                first_free_offer(offered@, self.active_unicasts@) == if first_free_offer(offered@.skip(i as int), self.active_unicasts@) < 0 {
                    -1
                } else {
                    first_free_offer(offered@.skip(i as int), self.active_unicasts@) + i
                },
            decreases 256 - i,
        {
            proof {
                assert(offered@.skip(i as int).drop_first() =~= offered@.skip(i as int + 1));
                assert(offered@.skip(i as int)[0] == offered@[i as int]);
            }
            let c = offered[i];
            if self.is_unicast_id_available(c) {
                self.active_unicasts.push(c);
                return Some(c);
            }
            i = i + 1;
        }
        proof {
            assert(offered@.skip(256) =~= Seq::<CastID>::empty());
        }
        None
    }
}

/// Index of the first id of `offered` not among `active`, or `-1`.
pub open spec fn first_free_offer(offered: Seq<CastID>, active: Seq<CastID>) -> int
    decreases offered.len(),
{
    if offered.len() == 0 {
        -1
    } else if !active.contains(offered[0]) {
        0
    } else {
        let i = first_free_offer(offered.drop_first(), active);
        if i < 0 {
            -1
        } else {
            i + 1
        }
    }
}

/// The (policy, requirement) pairs that `s` encodes one after another, up
/// to its end; `None` where it does not split into such pairs.
pub open spec fn policy_pairs(s: Seq<u8>) -> Option<Seq<(Policy, Requirement)>>
    decreases s.len(),
{
    if s.len() == 0 {
        Some(Seq::empty())
    } else if !policy_decodable(s) {
        None
    } else {
        let rest = s.skip(policy_decode(s).1 as int);
        match requirement_decode(rest) {
            None => None,
            Some((r, m)) => {
                proof {
                    lemma_decode_length(rest);
                }
                match policy_pairs(rest.skip(m as int)) {
                    None => None,
                    Some(t) => Some(seq![(policy_decode(s).0, r)] + t),
                }
            },
        }
    }
}

/// Sets `req` as the requirement of `pol` in an association list.
fn put_policy(list: &mut Vec<(Policy, Requirement)>, pol: Policy, req: Requirement)
    requires
        assoc_keys_unique(old(list)@),
    ensures
        assoc_keys_unique(final(list)@),
        forall|p: Policy| #[trigger]
            assoc_lookup(final(list)@, p) == if p == pol {
                Some(req)
            } else {
                assoc_lookup(old(list)@, p)
            },
{
    let ghost before = list@;
    proof {
        lemma_assoc_index(before, pol);
    }
    match find_policy(list, pol) {
        Some(i) => {
            list.set(i, (pol, req));
            proof {
                lemma_assoc_update(before, pol, req);
                lemma_assoc_update_unique(before, i as int, pol, req);
            }
        },
        None => {
            list.push((pol, req));
            proof {
                lemma_assoc_push(before, pol, req);
                lemma_assoc_push_unique(before, pol, req);
            }
        },
    }
}

impl Swarm {
    /// Reads a serialized policy registry: a count byte, which is not
    /// relied on, then pairs of a policy and its requirement up to the end.
    /// A policy listed twice keeps its last requirement.
    pub fn bytes_to_policy(bytes: &mut Vec<u8>) -> (res: Vec<(Policy, Requirement)>)
        requires
            old(bytes)@.len() >= 1,
            policy_pairs(old(bytes)@.skip(1)) is Some,
        ensures
            final(bytes)@.len() == 0,
            assoc_keys_unique(res@),
            forall|p: Policy| #[trigger]
                assoc_lookup(res@, p) == last_lookup(policy_pairs(old(bytes)@.skip(1)).unwrap(), p),
    {
        let ghost start = bytes@;
        let _count = bytes.remove(0);
        proof {
            assert(bytes@ =~= start.skip(1));
        }
        let ghost all = policy_pairs(bytes@).unwrap();
        let ghost mut done: Seq<(Policy, Requirement)> = Seq::empty();
        let mut res: Vec<(Policy, Requirement)> = Vec::new();
        while bytes.len() > 0
            invariant
                policy_pairs(bytes@) is Some,
                all == done + policy_pairs(bytes@).unwrap(),
                assoc_keys_unique(res@),
                forall|p: Policy| #[trigger] assoc_lookup(res@, p) == last_lookup(done, p),
            decreases bytes@.len(),
        {
            let ghost s = bytes@;
            let policy = Policy::from(bytes);
            let requirement = Requirement::from(bytes);
            let ghost before = res@;
            put_policy(&mut res, policy, requirement);
            proof {
                let tail = policy_pairs(bytes@).unwrap();
                assert(policy_pairs(s) == Some(seq![(policy, requirement)] + tail));
                assert(all =~= done.push((policy, requirement)) + tail);
                assert forall|p: Policy| #[trigger] assoc_lookup(res@, p) == last_lookup(done.push((policy, requirement)), p) by {
                    lemma_last_lookup_push(done, policy, requirement, p);
                }
                done = done.push((policy, requirement));
            }
        }
        proof {
            assert(all =~= done);
        }
        res
    }
}

/// `cnt` gnome ids of 8 big-endian bytes each, from the start of `s`.
pub open spec fn gnome_ids_at(s: Seq<u8>, cnt: nat) -> Seq<GnomeId> {
    Seq::new(cnt, |i: int| GnomeId(u64_from_be(s.subrange(8 * i, 8 * i + 8))))
}

/// The `n` capability groups that `s` starts with, each a capability byte,
/// a count byte and that many gnome ids, with the number of bytes they
/// take; `None` where `s` is too short for them.
pub open spec fn capability_groups(s: Seq<u8>, n: nat) -> Option<(Seq<(Capabilities, Seq<GnomeId>)>, nat)>
    decreases n,
{
    if n == 0 {
        Some((Seq::empty(), 0))
    } else if s.len() < 2 || s.len() < 2 + 8 * (s[1] as nat) {
        None
    } else {
        let cnt = s[1] as nat;
        let used = 2 + 8 * cnt;
        match capability_groups(s.skip(used as int), (n - 1) as nat) {
            None => None,
            Some((t, k)) => Some(
                (seq![(capability_from_byte(s[0]), gnome_ids_at(s.skip(2), cnt))] + t, used + k),
            ),
        }
    }
}

/// The ids listed for capability `c` in an association list.
pub open spec fn ids_lookup(s: Seq<(Capabilities, Vec<GnomeId>)>, c: Capabilities) -> Option<Seq<GnomeId>> {
    match assoc_lookup(s, c) {
        Some(v) => Some(v@),
        None => None,
    }
}

fn find_ids(list: &Vec<(Capabilities, Vec<GnomeId>)>, c: Capabilities) -> (res: Option<usize>)
    ensures
        res matches Some(i) ==> i == assoc_index(list@, c) && i < list@.len(),
        res is None ==> assoc_index(list@, c) < 0,
{
    proof {
        lemma_assoc_index(list@, c);
    }
    let mut i: usize = 0;
    while i < list.len()
        invariant
            i <= list@.len(),
            forall|k: int| 0 <= k < i ==> list@[k].0 != c,
            -1 <= assoc_index(list@, c) < list@.len(),
            assoc_index(list@, c) >= 0 ==> list@[assoc_index(list@, c)].0 == c,
            forall|m: int| 0 <= m < assoc_index(list@, c) ==> list@[m].0 != c,
            assoc_index(list@, c) < 0 <==> forall|m: int| 0 <= m < list@.len() ==> list@[m].0 != c,
        decreases list@.len() - i,
    {
        if list[i].0 == c {
            return Some(i);
        }
        i = i + 1;
    }
    None
}

/// Sets `ids` as the holders of `cap` in an association list.
fn put_ids(list: &mut Vec<(Capabilities, Vec<GnomeId>)>, cap: Capabilities, ids: Vec<GnomeId>)
    requires
        assoc_keys_unique(old(list)@),
    ensures
        assoc_keys_unique(final(list)@),
        forall|c: Capabilities| #[trigger]
            assoc_lookup(final(list)@, c) == if c == cap {
                Some(ids)
            } else {
                assoc_lookup(old(list)@, c)
            },
{
    let ghost before = list@;
    proof {
        lemma_assoc_index(before, cap);
    }
    match find_ids(list, cap) {
        Some(i) => {
            list.set(i, (cap, ids));
            proof {
                lemma_assoc_update(before, cap, ids);
                lemma_assoc_update_unique(before, i as int, cap, ids);
            }
        },
        None => {
            list.push((cap, ids));
            proof {
                lemma_assoc_push(before, cap, ids);
                lemma_assoc_push_unique(before, cap, ids);
            }
        },
    }
}

/// Reads `count` gnome ids from `bytes`, starting at `pos`.
fn read_gnome_ids(bytes: &Vec<u8>, pos: usize, count: u8) -> (res: Vec<GnomeId>)
    requires
        pos + 8 * count <= bytes@.len(),
    ensures
        res@ == gnome_ids_at(bytes@.skip(pos as int), count as nat),
{
    let mut ids: Vec<GnomeId> = Vec::new();
    let mut j: u8 = 0;
    let n: usize = bytes.len();
    while j < count
        invariant
            j <= count,
            n == bytes@.len(),
            pos + 8 * count <= bytes@.len(),
            ids@ =~= gnome_ids_at(bytes@.skip(pos as int), j as nat),
        decreases count - j,
    {
        let p: usize = pos + 8 * (j as usize);
        let id = GnomeId::from(
            [bytes[p], bytes[p + 1], bytes[p + 2], bytes[p + 3], bytes[p + 4], bytes[p + 5], bytes[p + 6], bytes[p + 7]],
        );
        proof {
            let s = bytes@.skip(pos as int);
            assert(s.subrange(8 * j, 8 * j + 8) =~= seq![
                bytes@[p as int],
                bytes@[p + 1],
                bytes@[p + 2],
                bytes@[p + 3],
                bytes@[p + 4],
                bytes@[p + 5],
                bytes@[p + 6],
                bytes@[p + 7],
            ]);
        }
        ids.push(id);
        j = j + 1;
    }
    ids
}

impl Swarm {
    /// Reads a serialized capability registry: a count byte, then that many
    /// groups of a capability byte, a count byte and the gnome ids. The
    /// bytes read are taken off the front of `bytes`. A capability listed
    /// twice keeps its last group.
    pub fn bytes_to_capabilities(bytes: &mut Vec<u8>) -> (res: Vec<(Capabilities, Vec<GnomeId>)>)
        requires
            old(bytes)@.len() >= 1,
            capability_groups(old(bytes)@.skip(1), old(bytes)@[0] as nat) is Some,
        ensures
            ({
                let (groups, used) = capability_groups(old(bytes)@.skip(1), old(bytes)@[0] as nat).unwrap();
                &&& final(bytes)@ == old(bytes)@.skip((1 + used) as int)
                &&& assoc_keys_unique(res@)
                &&& forall|c: Capabilities| #[trigger] ids_lookup(res@, c) == last_lookup(groups, c)
            }),
    {
        let cap_len = bytes[0];
        let ghost whole = capability_groups(bytes@.skip(1), cap_len as nat).unwrap();
        let mut res: Vec<(Capabilities, Vec<GnomeId>)> = Vec::new();
        let ghost mut done: Seq<(Capabilities, Seq<GnomeId>)> = Seq::empty();
        let mut pos: usize = 1;
        let mut i: u8 = 0;
        let n: usize = bytes.len();
        while i < cap_len
            invariant
                i <= cap_len,
                n == bytes@.len(),
                1 <= pos <= bytes@.len(),
                cap_len == bytes@[0],
                capability_groups(bytes@.skip(pos as int), (cap_len - i) as nat) is Some,
                whole.0 == done + capability_groups(bytes@.skip(pos as int), (cap_len - i) as nat).unwrap().0,
                whole.1 == (pos - 1) + capability_groups(bytes@.skip(pos as int), (cap_len - i) as nat).unwrap().1,
                assoc_keys_unique(res@),
                forall|c: Capabilities| #[trigger] ids_lookup(res@, c) == last_lookup(done, c),
            decreases cap_len - i,
        {
            let ghost s = bytes@.skip(pos as int);
            proof {
                assert(s.len() >= 2 + 8 * (s[1] as nat));
                assert(s[0] == bytes@[pos as int] && s[1] == bytes@[pos + 1]);
            }
            let cap_id = bytes[pos];
            let count = bytes[pos + 1];
            let ids = read_gnome_ids(bytes, pos + 2, count);
            let cap = Capabilities::from(cap_id);
            let ghost entry = (cap, ids@);
            let ghost before = res@;
            put_ids(&mut res, cap, ids);
            let used: usize = 2 + 8 * (count as usize);
            proof {
                assert(s.skip(2) =~= bytes@.skip(pos + 2));
                assert(s.skip(used as int) =~= bytes@.skip(pos + used));
                let tail = capability_groups(bytes@.skip(pos + used), (cap_len - i - 1) as nat).unwrap();
                assert(capability_groups(s, (cap_len - i) as nat).unwrap().0 =~= seq![entry] + tail.0);
                assert(whole.0 =~= done.push(entry) + tail.0);
                assert forall|c: Capabilities| #[trigger] ids_lookup(res@, c) == last_lookup(done.push(entry), c) by {
                    lemma_last_lookup_push(done, cap, entry.1, c);
                    assert(ids_lookup(before, c) == last_lookup(done, c));
                }
                done = done.push(entry);
            }
            pos = pos + used;
            i = i + 1;
        }
        proof {
            assert(whole.0 =~= done);
        }
        let rest = bytes.split_off(pos);
        *bytes = rest;
        res
    }
}

} // verus!
