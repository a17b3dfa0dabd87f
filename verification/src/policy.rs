use vstd::prelude::*;

verus! {

/// What a requirement can be attached to in a swarm.
#[derive(PartialEq, Eq, Hash, Clone, Copy, Debug, Structural)]
pub enum Policy {
    Default,
    Data,
    StartBroadcast,
    ChangeBroadcastOrigin,
    EndBroadcast,
    StartMulticast,
    ChangeMulticastOrigin,
    EndMulticast,
    CreateGroup,
    DeleteGroup,
    ModifyGroup,
    InsertPubkey,
    DataWithFirstByte(u8),
    UserDefined(u8),
}

/// The bytes that encode a policy.
pub open spec fn policy_encode(p: Policy) -> Seq<u8> {
    match p {
        Policy::Default => seq![255u8],
        Policy::Data => seq![254u8],
        Policy::StartBroadcast => seq![253u8],
        Policy::ChangeBroadcastOrigin => seq![252u8],
        Policy::EndBroadcast => seq![251u8],
        Policy::StartMulticast => seq![250u8],
        Policy::ChangeMulticastOrigin => seq![249u8],
        Policy::EndMulticast => seq![248u8],
        Policy::CreateGroup => seq![247u8],
        Policy::DeleteGroup => seq![246u8],
        Policy::ModifyGroup => seq![245u8],
        Policy::InsertPubkey => seq![244u8],
        Policy::DataWithFirstByte(b) => seq![243u8, b],
        Policy::UserDefined(o) => seq![o],
    }
}

/// Whether `s` starts with a complete policy encoding.
pub open spec fn policy_decodable(s: Seq<u8>) -> bool {
    s.len() >= 1 && (s[0] == 243 ==> s.len() >= 2)
}

/// The policy that a byte sequence starts with, and how many bytes encode it.
pub open spec fn policy_decode(s: Seq<u8>) -> (Policy, nat)
    recommends
        policy_decodable(s),
{
    let b = s[0];
    if b == 255 {
        (Policy::Default, 1)
    } else if b == 254 {
        (Policy::Data, 1)
    } else if b == 253 {
        (Policy::StartBroadcast, 1)
    } else if b == 252 {
        (Policy::ChangeBroadcastOrigin, 1)
    } else if b == 251 {
        (Policy::EndBroadcast, 1)
    } else if b == 250 {
        (Policy::StartMulticast, 1)
    } else if b == 249 {
        (Policy::ChangeMulticastOrigin, 1)
    } else if b == 248 {
        (Policy::EndMulticast, 1)
    } else if b == 247 {
        (Policy::CreateGroup, 1)
    } else if b == 246 {
        (Policy::DeleteGroup, 1)
    } else if b == 245 {
        (Policy::ModifyGroup, 1)
    } else if b == 244 {
        (Policy::InsertPubkey, 1)
    } else if b == 243 {
        (Policy::DataWithFirstByte(s[1]), 2)
    } else {
        (Policy::UserDefined(b), 1)
    }
}

/// A policy survives encoding, unless it is a user policy whose number
/// collides with a named policy's byte.
pub open spec fn policy_encodable(p: Policy) -> bool {
    !(p matches Policy::UserDefined(x) && x >= 243)
}

/// Decimal digits of a byte.
pub open spec fn decimal_text(b: u8) -> Seq<char> {
    let d = |x: u8| ((x + 48) as char);
    if b < 10 {
        seq![d(b)]
    } else if b < 100 {
        seq![d(b / 10), d(b % 10)]
    } else {
        seq![d(b / 100), d((b / 10) % 10), d(b % 10)]
    }
}

/// The name a policy is displayed with.
pub open spec fn policy_text(p: Policy) -> Seq<char> {
    match p {
        Policy::Default => "Default"@,
        Policy::Data => "Data"@,
        Policy::StartBroadcast => "StartBroadcast"@,
        Policy::ChangeBroadcastOrigin => "ChangeBroadcastOrigin"@,
        Policy::EndBroadcast => "EndBroadcast"@,
        Policy::StartMulticast => "StartMulticast"@,
        Policy::ChangeMulticastOrigin => "ChangeMulticastOrigin"@,
        Policy::EndMulticast => "EndMulticast"@,
        Policy::CreateGroup => "CreateGroup"@,
        Policy::DeleteGroup => "DeleteGroup"@,
        Policy::ModifyGroup => "ModifyGroup"@,
        Policy::InsertPubkey => "InsertPubkey"@,
        Policy::DataWithFirstByte(b) => "DataWithFirstByte("@ + decimal_text(b) + ")"@,
        Policy::UserDefined(o) => "UserDefined("@ + decimal_text(o) + ")"@,
    }
}

/// Every policy, in the order in which `Policy::mapping` lists them: the
/// named ones, then `DataWithFirstByte(0..=255)`, then `UserDefined(0..=242)`.
pub open spec fn all_policies() -> Seq<Policy> {
    seq![
        Policy::Default,
        Policy::Data,
        Policy::StartBroadcast,
        Policy::ChangeBroadcastOrigin,
        Policy::EndBroadcast,
        Policy::StartMulticast,
        Policy::ChangeMulticastOrigin,
        Policy::EndMulticast,
        Policy::CreateGroup,
        Policy::DeleteGroup,
        Policy::ModifyGroup,
        Policy::InsertPubkey,
    ] + Seq::new(256, |i: int| Policy::DataWithFirstByte(i as u8)) + Seq::new(
        243,
        |i: int| Policy::UserDefined(i as u8),
    )
}

/// The decimal digit `d` as text.
fn digit_text(d: u8) -> (res: &'static str)
    requires
        d < 10,
    ensures
        res@ == seq![(d + 48) as char],
{
    match d {
        0 => {
            proof {
                reveal_strlit("0");
            }
            "0"
        },
        1 => {
            proof {
                reveal_strlit("1");
            }
            "1"
        },
        2 => {
            proof {
                reveal_strlit("2");
            }
            "2"
        },
        3 => {
            proof {
                reveal_strlit("3");
            }
            "3"
        },
        4 => {
            proof {
                reveal_strlit("4");
            }
            "4"
        },
        5 => {
            proof {
                reveal_strlit("5");
            }
            "5"
        },
        6 => {
            proof {
                reveal_strlit("6");
            }
            "6"
        },
        7 => {
            proof {
                reveal_strlit("7");
            }
            "7"
        },
        8 => {
            proof {
                reveal_strlit("8");
            }
            "8"
        },
        _ => {
            proof {
                reveal_strlit("9");
            }
            "9"
        },
    }
}

/// Decimal rendering of a byte.
fn byte_to_decimal(b: u8) -> (res: String)
    ensures
        res@ == decimal_text(b),
{
    let mut s = String::from_str("");
    proof {
        reveal_strlit("");
    }
    if b >= 100 {
        s.append(digit_text(b / 100));
    }
    if b >= 10 {
        s.append(digit_text((b / 10) % 10));
    }
    s.append(digit_text(b % 10));
    proof {
        if b < 10 {
            assert(s@ =~= decimal_text(b));
        } else if b < 100 {
            assert(b / 10 < 10);
            assert((b / 10) % 10 == b / 10);
            assert(s@ =~= decimal_text(b));
        } else {
            assert(s@ =~= decimal_text(b));
        }
    }
    s
}

impl Policy {
    pub fn from(bytes: &mut Vec<u8>) -> (res: Self)
        requires
            policy_decodable(old(bytes)@),
        ensures
            res == policy_decode(old(bytes)@).0,
            final(bytes)@ == old(bytes)@.skip(policy_decode(old(bytes)@).1 as int),
    {
        let byte = bytes.remove(0);
        match byte {
            255 => Policy::Default,
            254 => Policy::Data,
            253 => Policy::StartBroadcast,
            252 => Policy::ChangeBroadcastOrigin,
            251 => Policy::EndBroadcast,
            250 => Policy::StartMulticast,
            249 => Policy::ChangeMulticastOrigin,
            248 => Policy::EndMulticast,
            247 => Policy::CreateGroup,
            246 => Policy::DeleteGroup,
            245 => Policy::ModifyGroup,
            244 => Policy::InsertPubkey,
            243 => {
                let byte = bytes.remove(0);
                Policy::DataWithFirstByte(byte)
            },
            other => Policy::UserDefined(other),
        }
    }

    pub fn append_bytes_to(&self, bytes: &mut Vec<u8>)
        ensures
            final(bytes)@ == old(bytes)@ + policy_encode(*self),
    {
        match self {
            Policy::Default => bytes.push(255),
            Policy::Data => bytes.push(254),
            Policy::StartBroadcast => bytes.push(253),
            Policy::ChangeBroadcastOrigin => bytes.push(252),
            Policy::EndBroadcast => bytes.push(251),
            Policy::StartMulticast => bytes.push(250),
            Policy::ChangeMulticastOrigin => bytes.push(249),
            Policy::EndMulticast => bytes.push(248),
            Policy::CreateGroup => bytes.push(247),
            Policy::DeleteGroup => bytes.push(246),
            Policy::ModifyGroup => bytes.push(245),
            Policy::InsertPubkey => bytes.push(244),
            Policy::DataWithFirstByte(byte) => {
                bytes.push(243);
                bytes.push(*byte);
            },
            Policy::UserDefined(other) => bytes.push(*other),
        }
        assert(final(bytes)@ =~= old(bytes)@ + policy_encode(*self));
    }

    pub fn text(&self) -> (res: String)
        ensures
            res@ == policy_text(*self),
    {
        match self {
            Policy::Default => String::from_str("Default"),
            Policy::Data => String::from_str("Data"),
            Policy::StartBroadcast => String::from_str("StartBroadcast"),
            Policy::ChangeBroadcastOrigin => String::from_str("ChangeBroadcastOrigin"),
            Policy::EndBroadcast => String::from_str("EndBroadcast"),
            Policy::StartMulticast => String::from_str("StartMulticast"),
            Policy::ChangeMulticastOrigin => String::from_str("ChangeMulticastOrigin"),
            Policy::EndMulticast => String::from_str("EndMulticast"),
            Policy::CreateGroup => String::from_str("CreateGroup"),
            Policy::DeleteGroup => String::from_str("DeleteGroup"),
            Policy::ModifyGroup => String::from_str("ModifyGroup"),
            Policy::InsertPubkey => String::from_str("InsertPubkey"),
            Policy::DataWithFirstByte(b) => {
                let mut s = String::from_str("DataWithFirstByte(");
                let digits = byte_to_decimal(*b);
                s.append(digits.as_str());
                s.append(")");
                s
            },
            Policy::UserDefined(o) => {
                let mut s = String::from_str("UserDefined(");
                let digits = byte_to_decimal(*o);
                s.append(digits.as_str());
                s.append(")");
                s
            },
        }
    }

    pub fn mapping() -> (res: (Vec<Policy>, Vec<String>))
        ensures
            res.0@ == all_policies(),
            res.1@.len() == res.0@.len(),
            forall|i: int| 0 <= i < res.1@.len() ==> #[trigger] res.1@[i]@ == policy_text(res.0@[i]),
    {
        let mut pols: Vec<Policy> = Vec::with_capacity(512);
        let mut strs: Vec<String> = Vec::with_capacity(512);
        let mut p_iter = Policy::iter();
        let ghost all = p_iter.remaining();
        loop
            invariant
                all == all_policies(),
                pols@ + p_iter.remaining() == all,
                strs@.len() == pols@.len(),
                forall|i: int| 0 <= i < strs@.len() ==> #[trigger] strs@[i]@ == policy_text(pols@[i]),
            ensures
                pols@ == all_policies(),
                strs@.len() == pols@.len(),
                forall|i: int| 0 <= i < strs@.len() ==> #[trigger] strs@[i]@ == policy_text(pols@[i]),
            decreases p_iter.remaining().len(),
        {
                        match p_iter.next() {
                Some(p) => {
                    strs.push(p.text());
                    pols.push(p);
                    assert(pols@ + p_iter.remaining() =~= all);
                },
                None => {
                    assert(pols@ =~= all);
                    break;
                },
            }
        }
        (pols, strs)
    }

    fn iter() -> (res: PolIter)
        ensures
            res.remaining() == all_policies(),
    {
        PolIter::new()
    }
}

struct PolIter {
    items: Vec<Policy>,
}

impl PolIter {
    /// The policies that are still to come.
    pub closed spec fn remaining(&self) -> Seq<Policy> {
        self.items@
    }

    pub fn new() -> (res: Self)
        ensures
            res.remaining() == all_policies(),
    {
        let mut items: Vec<Policy> = Vec::with_capacity(512);
        items.push(Policy::Default);
        items.push(Policy::Data);
        items.push(Policy::StartBroadcast);
        items.push(Policy::ChangeBroadcastOrigin);
        items.push(Policy::EndBroadcast);
        items.push(Policy::StartMulticast);
        items.push(Policy::ChangeMulticastOrigin);
        items.push(Policy::EndMulticast);
        items.push(Policy::CreateGroup);
        items.push(Policy::DeleteGroup);
        items.push(Policy::ModifyGroup);
        items.push(Policy::InsertPubkey);
        let ghost named = items@;
        let mut i: u16 = 0;
        while i <= 255
            invariant
                i <= 256,
                items@ =~= named + Seq::new(i as nat, |k: int| Policy::DataWithFirstByte(k as u8)),
            decreases 256 - i,
        {
            items.push(Policy::DataWithFirstByte(i as u8));
            i = i + 1;
        }
        let ghost with_data = items@;
        let mut j: u16 = 0;
        while j <= 242
            invariant
                j <= 243,
                items@ =~= with_data + Seq::new(j as nat, |k: int| Policy::UserDefined(k as u8)),
            decreases 243 - j,
        {
            items.push(Policy::UserDefined(j as u8));
            j = j + 1;
        }
        assert(items@ =~= all_policies());
        PolIter { items }
    }

    pub fn next(&mut self) -> (res: Option<Policy>)
        ensures
            old(self).remaining().len() == 0 ==> res is None
                && final(self).remaining() == old(self).remaining(),
            old(self).remaining().len() > 0 ==> res == Some(old(self).remaining()[0])
                && final(self).remaining() == old(self).remaining().drop_first(),
    {
        if self.items.is_empty() {
            None
        } else {
            Some(self.items.remove(0))
        }
    }
}

/// Decoding the encoding of a policy gives that policy back, and consumes
/// exactly its encoding, whatever follows it.
pub proof fn lemma_policy_roundtrip(p: Policy, rest: Seq<u8>)
    requires
        policy_encodable(p),
    ensures
        policy_decodable(policy_encode(p) + rest),
        policy_decode(policy_encode(p) + rest) == (p, policy_encode(p).len()),
{
    let s = policy_encode(p) + rest;
    assert(s[0] == policy_encode(p)[0]);
    if p is DataWithFirstByte {
        assert(s[1] == policy_encode(p)[1]);
    }
}

} // verus!
