use vstd::prelude::*;

use crate::capabilities::{
    capability_byte, capability_from_byte, capability_index, capability_tree, find_capability,
    lemma_capability_index, CapabiliTree, Capabilities,
};
use crate::gnome::GnomeId;
use crate::swarm::ByteSet;
use std::collections::HashMap;

verus! {

broadcast use vstd::std_specs::hash::group_hash_axioms;

/// A condition that a gnome, and the data it proposes, must meet.
#[derive(Debug, PartialEq, Eq)]
pub enum Requirement {
    And(Box<Requirement>, Box<Requirement>),
    Or(Box<Requirement>, Box<Requirement>),
    Has(Capabilities),
    DataByte2InSet(u8),
    DataByte2Is(u8),
    DataByte2IsNot(u8),
    DataByte3InSet(u8),
    DataByte3Is(u8),
    DataByte3IsNot(u8),
    DataBytes2And3InSet(u8),
    /// Met by everyone.
    Empty,
}

/// The bytes that encode a requirement: a tag byte, then the operands.
pub open spec fn requirement_encode(r: Requirement) -> Seq<u8>
    decreases r,
{
    match r {
        Requirement::And(l, rr) => seq![220u8] + requirement_encode(*l) + requirement_encode(*rr),
        Requirement::Or(l, rr) => seq![210u8] + requirement_encode(*l) + requirement_encode(*rr),
        Requirement::Has(c) => seq![100u8, capability_byte(c)],
        Requirement::DataByte2InSet(s) => seq![90u8, s],
        Requirement::DataByte2Is(v) => seq![80u8, v],
        Requirement::DataByte2IsNot(v) => seq![70u8, v],
        Requirement::DataByte3InSet(s) => seq![60u8, s],
        Requirement::DataByte3Is(v) => seq![50u8, v],
        Requirement::DataByte3IsNot(v) => seq![40u8, v],
        Requirement::DataBytes2And3InSet(s) => seq![30u8, s],
        Requirement::Empty => seq![0u8],
    }
}

/// The requirement that a byte sequence starts with, and how many bytes
/// encode it; `None` when the sequence does not start with a complete one.
pub open spec fn requirement_decode(s: Seq<u8>) -> Option<(Requirement, nat)>
    decreases s.len(),
{
    if s.len() == 0 {
        None
    } else {
        let t = s[0];
        if t == 220 || t == 210 {
            match requirement_decode(s.skip(1)) {
                Some((l, n1)) => {
                    if n1 <= s.len() - 1 {
                        match requirement_decode(s.skip(1 + n1 as int)) {
                            Some((r, n2)) => Some(
                                (
                                    if t == 220 {
                                        Requirement::And(Box::new(l), Box::new(r))
                                    } else {
                                        Requirement::Or(Box::new(l), Box::new(r))
                                    },
                                    1 + n1 + n2,
                                ),
                            ),
                            None => None,
                        }
                    } else {
                        None
                    }
                },
                None => None,
            }
        } else if t == 0 {
            Some((Requirement::Empty, 1))
        } else if s.len() < 2 {
            None
        } else if t == 100 {
            Some((Requirement::Has(capability_from_byte(s[1])), 2))
        } else if t == 90 {
            Some((Requirement::DataByte2InSet(s[1]), 2))
        } else if t == 80 {
            Some((Requirement::DataByte2Is(s[1]), 2))
        } else if t == 70 {
            Some((Requirement::DataByte2IsNot(s[1]), 2))
        } else if t == 60 {
            Some((Requirement::DataByte3InSet(s[1]), 2))
        } else if t == 50 {
            Some((Requirement::DataByte3Is(s[1]), 2))
        } else if t == 40 {
            Some((Requirement::DataByte3IsNot(s[1]), 2))
        } else if t == 30 {
            Some((Requirement::DataBytes2And3InSet(s[1]), 2))
        } else {
            None
        }
    }
}

/// Every capability that the requirement names survives encoding.
pub open spec fn requirement_encodable(r: Requirement) -> bool
    decreases r,
{
    match r {
        Requirement::And(l, rr) => requirement_encodable(*l) && requirement_encodable(*rr),
        Requirement::Or(l, rr) => requirement_encodable(*l) && requirement_encodable(*rr),
        Requirement::Has(c) => capability_from_byte(capability_byte(c)) == c,
        _ => true,
    }
}

/// The pair of data bytes 2 and 3, read big-endian.
pub open spec fn byte_pair(b2: u8, b3: u8) -> u16 {
    (b2 as u16 * 256 + b3 as u16) as u16
}

/// Whether requirement `r` is met by gnome `gnome_id`, given the registered
/// capabilities and byte sets, and the second and third byte of the data.
pub open spec fn requirement_met(
    r: Requirement,
    gnome_id: u64,
    caps: Seq<(Capabilities, CapabiliTree)>,
    sets: Map<u8, ByteSet>,
    byte_2: Option<u8>,
    byte_3: Option<u8>,
) -> bool
    decreases r,
{
    match r {
        Requirement::DataByte2InSet(s) => byte_2 matches Some(b) && sets.contains_key(s)
            && sets[s].has_byte(b),
        Requirement::DataByte2Is(v) => byte_2 matches Some(b) && b == v,
        Requirement::DataByte2IsNot(v) => byte_2 matches Some(b) && b != v,
        Requirement::DataByte3InSet(s) => byte_3 matches Some(b) && sets.contains_key(s)
            && sets[s].has_byte(b),
        Requirement::DataByte3Is(v) => byte_3 matches Some(b) && b == v,
        Requirement::DataByte3IsNot(v) => byte_3 matches Some(b) && b != v,
        Requirement::DataBytes2And3InSet(s) => byte_2 matches Some(b2) && byte_3 matches Some(b3)
            && sets.contains_key(s) && sets[s].has_pair(byte_pair(b2, b3)),
        Requirement::Empty => true,
        Requirement::Has(c) => capability_tree(caps, c) matches Some(t) && t.has(gnome_id),
        Requirement::And(l, rr) => requirement_met(*l, gnome_id, caps, sets, byte_2, byte_3)
            && requirement_met(*rr, gnome_id, caps, sets, byte_2, byte_3),
        Requirement::Or(l, rr) => requirement_met(*l, gnome_id, caps, sets, byte_2, byte_3)
            || requirement_met(*rr, gnome_id, caps, sets, byte_2, byte_3),
    }
}

/// All trees of a capability registry are well formed.
pub open spec fn capabilities_wf(caps: Seq<(Capabilities, CapabiliTree)>) -> bool {
    forall|i: int| 0 <= i < caps.len() ==> (#[trigger] caps[i]).1.wf()
}

/// A decoded requirement takes at least one byte and no more than there are.
pub proof fn lemma_decode_length(s: Seq<u8>)
    ensures
        requirement_decode(s) matches Some((r, n)) ==> 1 <= n <= s.len(),
    decreases s.len(),
{
    if s.len() > 0 && (s[0] == 220 || s[0] == 210) {
        lemma_decode_length(s.skip(1));
        if let Some((l, n1)) = requirement_decode(s.skip(1)) {
            if n1 <= s.len() - 1 {
                lemma_decode_length(s.skip(1 + n1 as int));
            }
        }
    }
}

/// Decoding the encoding of a requirement, followed by anything, gives the
/// requirement back and consumes exactly its encoding.
pub proof fn lemma_requirement_roundtrip(r: Requirement, rest: Seq<u8>)
    requires
        requirement_encodable(r),
    ensures
        requirement_decode(requirement_encode(r) + rest) == Some(
            (r, requirement_encode(r).len()),
        ),
    decreases r,
{
    let s = requirement_encode(r) + rest;
    match r {
        Requirement::And(l, rr) => {
            let el = requirement_encode(*l);
            let er = requirement_encode(*rr);
            lemma_requirement_roundtrip(*l, er + rest);
            lemma_requirement_roundtrip(*rr, rest);
            assert(s.skip(1) =~= el + (er + rest));
            assert(s.skip(1 + el.len() as int) =~= er + rest);
        },
        Requirement::Or(l, rr) => {
            let el = requirement_encode(*l);
            let er = requirement_encode(*rr);
            lemma_requirement_roundtrip(*l, er + rest);
            lemma_requirement_roundtrip(*rr, rest);
            assert(s.skip(1) =~= el + (er + rest));
            assert(s.skip(1 + el.len() as int) =~= er + rest);
        },
        _ => {
            assert(s[0] == requirement_encode(r)[0]);
            if requirement_encode(r).len() == 2 {
                assert(s[1] == requirement_encode(r)[1]);
            }
        },
    }
}

/// The size of a requirement's encoding, as `Requirement::len` reports it.
pub open spec fn requirement_size(r: Requirement) -> nat
    decreases r,
{
    match r {
        Requirement::And(l, rr) => 1 + requirement_size(*l) + requirement_size(*rr),
        Requirement::Or(l, rr) => 1 + requirement_size(*l) + requirement_size(*rr),
        Requirement::Empty => 1,
        _ => 2,
    }
}

/// The size that `len` reports is the length of the encoding.
pub proof fn lemma_size_is_encoding_length(r: Requirement)
    ensures
        requirement_size(r) == requirement_encode(r).len(),
    decreases r,
{
    match r {
        Requirement::And(l, rr) => {
            lemma_size_is_encoding_length(*l);
            lemma_size_is_encoding_length(*rr);
        },
        Requirement::Or(l, rr) => {
            lemma_size_is_encoding_length(*l);
            lemma_size_is_encoding_length(*rr);
        },
        _ => {},
    }
}

impl Clone for Requirement {
    fn clone(&self) -> (res: Self)
        ensures
            res == *self,
        decreases *self,
    {
        match self {
            Requirement::And(l, r) => Requirement::And(
                Box::new((&**l).clone()),
                Box::new((&**r).clone()),
            ),
            Requirement::Or(l, r) => Requirement::Or(
                Box::new((&**l).clone()),
                Box::new((&**r).clone()),
            ),
            Requirement::Has(c) => Requirement::Has(*c),
            Requirement::DataByte2InSet(v) => Requirement::DataByte2InSet(*v),
            Requirement::DataByte2Is(v) => Requirement::DataByte2Is(*v),
            Requirement::DataByte2IsNot(v) => Requirement::DataByte2IsNot(*v),
            Requirement::DataByte3InSet(v) => Requirement::DataByte3InSet(*v),
            Requirement::DataByte3Is(v) => Requirement::DataByte3Is(*v),
            Requirement::DataByte3IsNot(v) => Requirement::DataByte3IsNot(*v),
            Requirement::DataBytes2And3InSet(v) => Requirement::DataBytes2And3InSet(*v),
            Requirement::Empty => Requirement::Empty,
        }
    }
}

impl Requirement {
    pub fn from(bytes: &mut Vec<u8>) -> (res: Self)
        requires
            requirement_decode(old(bytes)@) is Some,
        ensures
            final(bytes)@.len() < old(bytes)@.len(),
            requirement_decode(old(bytes)@) == Some((res, (old(bytes)@.len() - final(bytes)@.len()) as nat)),
            final(bytes)@ == old(bytes)@.skip(old(bytes)@.len() - final(bytes)@.len()),
        decreases old(bytes)@.len(),
    {
        let ghost s = bytes@;
        proof {
            lemma_decode_length(s);
        }
        let byte = bytes.remove(0);
        assert(bytes@ =~= s.skip(1));
        match byte {
            220 | 210 => {
                proof {
                    lemma_decode_length(s.skip(1));
                }
                let ghost s1 = bytes@;
                let left_req = Requirement::from(bytes);
                let ghost n1 = (s.len() - 1 - bytes@.len()) as nat;
                assert(bytes@ == s1.skip(s1.len() - bytes@.len()));
                assert(s1.len() == s.len() - 1);
                assert(bytes@ =~= s1.skip(n1 as int));
                assert(s1.skip(n1 as int) =~= s.skip(1 + n1 as int));
                let ghost s2 = bytes@;
                let right_req = Requirement::from(bytes);
                let ghost n2 = (s2.len() - bytes@.len()) as nat;
                assert(bytes@ =~= s2.skip(n2 as int));
                assert(s2.skip(n2 as int) =~= s.skip(s.len() - bytes@.len()));
                if byte == 220 {
                    Requirement::And(Box::new(left_req), Box::new(right_req))
                } else {
                    Requirement::Or(Box::new(left_req), Box::new(right_req))
                }
            },
            100 => {
                let c_byte = bytes.remove(0);
                assert(bytes@ =~= s.skip(2));
                Requirement::Has(Capabilities::from(c_byte))
            },
            90 => {
                let s_id = bytes.remove(0);
                assert(bytes@ =~= s.skip(2));
                Requirement::DataByte2InSet(s_id)
            },
            80 => {
                let val = bytes.remove(0);
                assert(bytes@ =~= s.skip(2));
                Requirement::DataByte2Is(val)
            },
            70 => {
                let val = bytes.remove(0);
                assert(bytes@ =~= s.skip(2));
                Requirement::DataByte2IsNot(val)
            },
            60 => {
                let s_id = bytes.remove(0);
                assert(bytes@ =~= s.skip(2));
                Requirement::DataByte3InSet(s_id)
            },
            50 => {
                let val = bytes.remove(0);
                assert(bytes@ =~= s.skip(2));
                Requirement::DataByte3Is(val)
            },
            40 => {
                let val = bytes.remove(0);
                assert(bytes@ =~= s.skip(2));
                Requirement::DataByte3IsNot(val)
            },
            30 => {
                let s_id = bytes.remove(0);
                assert(bytes@ =~= s.skip(2));
                Requirement::DataBytes2And3InSet(s_id)
            },
            _ => Requirement::Empty,
        }
    }

    pub fn append_bytes_to(&self, bytes: &mut Vec<u8>)
        ensures
            final(bytes)@ == old(bytes)@ + requirement_encode(*self),
        decreases *self,
    {
        let ghost start = bytes@;
        match self {
            Requirement::And(r_l, r_r) => {
                bytes.push(220);
                r_l.append_bytes_to(bytes);
                r_r.append_bytes_to(bytes);
            },
            Requirement::Or(r_l, r_r) => {
                bytes.push(210);
                r_l.append_bytes_to(bytes);
                r_r.append_bytes_to(bytes);
            },
            Requirement::Has(c) => {
                bytes.push(100);
                bytes.push(c.byte());
            },
            Requirement::DataByte2InSet(s_id) => {
                bytes.push(90);
                bytes.push(*s_id);
            },
            Requirement::DataByte2Is(val) => {
                bytes.push(80);
                bytes.push(*val);
            },
            Requirement::DataByte2IsNot(s_id) => {
                bytes.push(70);
                bytes.push(*s_id);
            },
            Requirement::DataByte3InSet(s_id) => {
                bytes.push(60);
                bytes.push(*s_id);
            },
            Requirement::DataByte3Is(val) => {
                bytes.push(50);
                bytes.push(*val);
            },
            Requirement::DataByte3IsNot(s_id) => {
                bytes.push(40);
                bytes.push(*s_id);
            },
            Requirement::DataBytes2And3InSet(s_id) => {
                bytes.push(30);
                bytes.push(*s_id);
            },
            Requirement::Empty => bytes.push(0),
        }
        assert(bytes@ =~= start + requirement_encode(*self));
    }

    pub fn is_fullfilled(
        &self,
        gnome_id: &GnomeId,
        caps: &Vec<(Capabilities, CapabiliTree)>,
        b_sets: &HashMap<u8, ByteSet>,
        byte_2: Option<u8>,
        byte_3: Option<u8>,
    ) -> (res: bool)
        requires
            capabilities_wf(caps@),
        ensures
            res == requirement_met(*self, gnome_id.0, caps@, b_sets@, byte_2, byte_3),
        decreases *self,
    {
        match self {
            Requirement::DataByte2InSet(s_id) => {
                if let Some(b_2) = byte_2 {
                    if let Some(set) = b_sets.get(s_id) {
                        set.contains(&b_2)
                    } else {
                        false
                    }
                } else {
                    false
                }
            },
            Requirement::DataByte2Is(val) => {
                if let Some(b_2) = byte_2 {
                    b_2 == *val
                } else {
                    false
                }
            },
            Requirement::DataByte2IsNot(val) => {
                if let Some(b_2) = byte_2 {
                    b_2 != *val
                } else {
                    false
                }
            },
            Requirement::DataByte3InSet(s_id) => {
                if let Some(b_3) = byte_3 {
                    if let Some(set) = b_sets.get(s_id) {
                        set.contains(&b_3)
                    } else {
                        false
                    }
                } else {
                    false
                }
            },
            Requirement::DataByte3Is(val) => {
                if let Some(b_3) = byte_3 {
                    b_3 == *val
                } else {
                    false
                }
            },
            Requirement::DataByte3IsNot(val) => {
                if let Some(b_3) = byte_3 {
                    b_3 != *val
                } else {
                    false
                }
            },
            Requirement::DataBytes2And3InSet(s_id) => {
                if let Some(b_2) = byte_2 {
                    if let Some(b_3) = byte_3 {
                        if let Some(set) = b_sets.get(s_id) {
                            let pair: u16 = (b_2 as u16) * 256 + (b_3 as u16);
                            set.contains_pair(&pair)
                        } else {
                            false
                        }
                    } else {
                        false
                    }
                } else {
                    false
                }
            },
            Requirement::Empty => true,
            Requirement::Has(capa) => {
                proof {
                    lemma_capability_index(caps@, *capa);
                }
                if let Some(i) = find_capability(caps, capa) {
                    caps[i].1.contains(gnome_id)
                } else {
                    false
                }
            },
            Requirement::And(req_one, req_two) => {
                req_one.is_fullfilled(gnome_id, caps, b_sets, byte_2, byte_3)
                    && req_two.is_fullfilled(gnome_id, caps, b_sets, byte_2, byte_3)
            },
            Requirement::Or(req_one, req_two) => {
                req_one.is_fullfilled(gnome_id, caps, b_sets, byte_2, byte_3)
                    || req_two.is_fullfilled(gnome_id, caps, b_sets, byte_2, byte_3)
            },
        }
    }

    pub fn len(&self) -> (res: u8)
        requires
            requirement_size(*self) <= 255,
        ensures
            res == requirement_size(*self),
        decreases *self,
    {
        match self {
            Requirement::And(r_l, r_r) => 1 + r_l.len() + r_r.len(),
            Requirement::Or(r_l, r_r) => 1 + r_l.len() + r_r.len(),
            Requirement::Has(_c) => 2,
            Requirement::Empty => 1,
            _ => 2,
        }
    }
}

} // verus!
