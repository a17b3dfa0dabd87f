use vstd::prelude::*;

use crate::data::{SyncData, MAX_SYNC_DATA};
use crate::gnome::{be_bytes_u64, u64_from_be, GnomeId};
use crate::neighbor::Neighborhood;
use crate::swarm::SwarmTime;
use crate::CastID;

verus! {

/// Kind of a reconfiguration, as carried in a header.
pub type ConfigType = u8;

/// Identifier of a block.
#[derive(Clone, Copy, Debug, PartialEq, Eq, PartialOrd, Ord, Structural)]
pub struct BlockID(pub u64);

/// What a message announces. Headers are ordered: `Sync` below every
/// `Reconfigure`, which is below every `Block`; within a kind by the fields.
#[derive(Clone, Copy, Debug, PartialEq, Eq, PartialOrd, Ord, Structural)]
pub enum Header {
    Sync,
    Reconfigure(ConfigType, GnomeId),
    Block(BlockID),
}

/// The order of headers, as their derived `Ord` defines it.
pub open spec fn header_less(a: Header, b: Header) -> bool {
    match (a, b) {
        (Header::Sync, Header::Sync) => false,
        (Header::Sync, _) => true,
        (Header::Reconfigure(_c, _g), Header::Sync) => false,
        (Header::Reconfigure(c1, g1), Header::Reconfigure(c2, g2)) => c1 < c2 || (c1 == c2
            && g1.0 < g2.0),
        (Header::Reconfigure(_c, _g), Header::Block(_b)) => true,
        (Header::Block(b1), Header::Block(b2)) => b1.0 < b2.0,
        (Header::Block(_b), _) => false,
    }
}

/// Headers are totally ordered by `header_less`: no header is below itself,
/// the order is transitive, and of two different headers one is below the
/// other. So the highest header a gnome hears is well defined.
pub proof fn lemma_header_order(a: Header, b: Header, c: Header)
    ensures
        !header_less(a, a),
        header_less(a, b) && header_less(b, c) ==> header_less(a, c),
        a != b ==> header_less(a, b) || header_less(b, a),
        header_less(a, b) ==> !header_less(b, a),
{
}

impl Header {
    /// A block other than block 0.
    pub open spec fn non_zero_block_spec(&self) -> bool {
        self matches Header::Block(b) && b.0 > 0
    }

    pub fn non_zero_block(&self) -> (res: bool)
        ensures
            res == (self matches Header::Block(b) && b.0 > 0),
    {
        match *self {
            Header::Block(b_id) => b_id.0 > 0,
            _ => false,
        }
    }

    pub fn is_reconfigure(&self) -> (res: bool)
        ensures
            res == (self is Reconfigure),
    {
        matches!(self, Header::Reconfigure(_t, _g))
    }

    pub fn is_sync(&self) -> (res: bool)
        ensures
            res == (self is Sync),
    {
        matches!(self, Header::Sync)
    }

    /// Whether `self` comes after `other` in the order of headers.
    pub fn is_above(&self, other: &Header) -> (res: bool)
        ensures
            res == header_less(*other, *self),
    {
        match (*other, *self) {
            (Header::Sync, Header::Sync) => false,
            (Header::Sync, _) => true,
            (Header::Reconfigure(_c, _g), Header::Sync) => false,
            (Header::Reconfigure(c1, g1), Header::Reconfigure(c2, g2)) => c1 < c2 || (c1 == c2
                && g1.0 < g2.0),
            (Header::Reconfigure(_c, _g), Header::Block(_b)) => true,
            (Header::Block(b1), Header::Block(b2)) => b1.0 < b2.0,
            (Header::Block(_b), _) => false,
        }
    }
}

/// Proof that a gnome signed some content: the signer, optionally its public
/// key, and the signature bytes.
#[derive(Clone, Debug, PartialEq, Eq, PartialOrd, Ord)]
pub enum Signature {
    Regular(GnomeId, Vec<u8>),
    Extended(GnomeId, Vec<u8>, Vec<u8>),
}

/// A change of a swarm's configuration.
#[derive(Clone, Debug, PartialEq, Eq, PartialOrd, Ord)]
pub enum Configuration {
    StartBroadcast(GnomeId, CastID),
    ChangeBroadcastOrigin(GnomeId, CastID),
    EndBroadcast(CastID),
    StartMulticast(GnomeId, CastID),
    ChangeMulticastOrigin(GnomeId, CastID),
    EndMulticast(CastID),
    CreateGroup,
    DeleteGroup,
    ModifyGroup,
    InsertPubkey(GnomeId, Vec<u8>),
    UserDefined(u8),
}

/// The payload of a message.
#[derive(Clone, Debug, PartialEq, Eq)]
pub enum Payload {
    KeepAlive(u64),
    Bye,
    Reconfigure(Signature, Configuration),
    Block(BlockID, Signature, SyncData),
}

/// A message exchanged between neighboring gnomes.
#[derive(Clone, Debug)]
pub struct Message {
    pub swarm_time: SwarmTime,
    pub neighborhood: Neighborhood,
    pub header: Header,
    pub payload: Payload,
}

pub open spec fn config_header_byte(c: Configuration) -> u8 {
    match c {
        Configuration::StartBroadcast(_g, _c) => 254,
        Configuration::ChangeBroadcastOrigin(_g, _c) => 253,
        Configuration::EndBroadcast(_c) => 252,
        Configuration::StartMulticast(_g, _c) => 251,
        Configuration::ChangeMulticastOrigin(_g, _c) => 250,
        Configuration::EndMulticast(_c) => 249,
        Configuration::CreateGroup => 248,
        Configuration::DeleteGroup => 247,
        Configuration::ModifyGroup => 246,
        Configuration::InsertPubkey(_g, _k) => 245,
        Configuration::UserDefined(other) => other,
    }
}

pub open spec fn config_gid(c: Configuration) -> u64 {
    match c {
        Configuration::StartBroadcast(g, _c) => g.0,
        Configuration::ChangeBroadcastOrigin(g, _c) => g.0,
        Configuration::StartMulticast(g, _c) => g.0,
        Configuration::ChangeMulticastOrigin(g, _c) => g.0,
        Configuration::InsertPubkey(g, _k) => g.0,
        _ => 0,
    }
}

/// The content bytes of a configuration; the gnome id only when asked for.
pub open spec fn config_content(c: Configuration, with_gnome_id: bool) -> Seq<u8> {
    let gid = |g: GnomeId|
        if with_gnome_id {
            be_bytes_u64(g.0)
        } else {
            Seq::<u8>::empty()
        };
    match c {
        Configuration::StartBroadcast(g, cid) => gid(g).push(cid.0),
        Configuration::ChangeBroadcastOrigin(g, cid) => gid(g).push(cid.0),
        Configuration::EndBroadcast(cid) => seq![cid.0],
        Configuration::StartMulticast(g, cid) => gid(g).push(cid.0),
        Configuration::ChangeMulticastOrigin(g, cid) => gid(g).push(cid.0),
        Configuration::EndMulticast(cid) => seq![cid.0],
        Configuration::InsertPubkey(g, key) => gid(g) + key@,
        _ => Seq::empty(),
    }
}

/// The serialization of a configuration: its header byte, then its content
/// with the gnome id.
pub open spec fn config_encode(c: Configuration) -> Seq<u8> {
    seq![config_header_byte(c)] + config_content(c, true)
}

/// Whether `v` is long enough for the configuration its first byte names.
pub open spec fn config_decodable(v: Seq<u8>) -> bool {
    &&& v.len() >= 1
    &&& (v[0] == 254 || v[0] == 253 || v[0] == 251 || v[0] == 250) ==> v.len() >= 10
    &&& v[0] == 252 ==> v.len() >= 2
    &&& v[0] == 245 ==> v.len() >= 9
}

/// The configuration that `v` decodes to. The public key of `InsertPubkey` is
/// compared by its bytes.
pub open spec fn config_decode_matches(v: Seq<u8>, c: Configuration) -> bool {
    let h = v[0];
    let gid = GnomeId(u64_from_be(v.subrange(1, 9)));
    if h == 254 {
        c == Configuration::StartBroadcast(gid, CastID(v[9]))
    } else if h == 253 {
        c == Configuration::ChangeBroadcastOrigin(gid, CastID(v[9]))
    } else if h == 252 {
        c == Configuration::EndBroadcast(CastID(v[1]))
    } else if h == 251 {
        c == Configuration::StartMulticast(gid, CastID(v[9]))
    } else if h == 250 {
        c == Configuration::ChangeMulticastOrigin(gid, CastID(v[9]))
    } else if h == 249 {
        c == Configuration::EndMulticast(CastID(0))
    } else if h == 248 {
        c == Configuration::CreateGroup
    } else if h == 247 {
        c == Configuration::DeleteGroup
    } else if h == 246 {
        c == Configuration::ModifyGroup
    } else if h == 245 {
        c matches Configuration::InsertPubkey(g, key) && g == gid && key@ == v.skip(9)
    } else {
        c == Configuration::UserDefined(h)
    }
}

/// Two configurations are the same, comparing a public key by its bytes.
pub open spec fn config_same(a: Configuration, b: Configuration) -> bool {
    match (a, b) {
        (Configuration::InsertPubkey(g1, k1), Configuration::InsertPubkey(g2, k2)) => g1 == g2
            && k1@ == k2@,
        _ => a == b,
    }
}

/// A configuration that survives serialization: not an `EndMulticast` of a
/// cast other than `0`, and not a user configuration whose number collides
/// with a named configuration's header byte.
pub open spec fn config_encodable(c: Configuration) -> bool {
    &&& !(c matches Configuration::EndMulticast(cid) && cid.0 != 0)
    &&& !(c matches Configuration::UserDefined(x) && 245 <= x <= 254)
}

pub open spec fn config_len(c: Configuration) -> nat {
    match c {
        Configuration::StartBroadcast(_g, _c) => 10,
        Configuration::ChangeBroadcastOrigin(_g, _c) => 10,
        Configuration::EndBroadcast(_c) => 2,
        Configuration::StartMulticast(_g, _c) => 10,
        Configuration::ChangeMulticastOrigin(_g, _c) => 10,
        Configuration::EndMulticast(_c) => 2,
        Configuration::InsertPubkey(_g, key) => 9 + key@.len(),
        _ => 1,
    }
}

fn push_gnome_id(bytes: &mut Vec<u8>, gid: GnomeId)
    ensures
        final(bytes)@ == old(bytes)@ + be_bytes_u64(gid.0),
{
    let b = gid.bytes();
    let ghost start = bytes@;
    let mut i: usize = 0;
    while i < 8
        invariant
            i <= 8,
            b@ == be_bytes_u64(gid.0),
            bytes@ == start + b@.take(i as int),
        decreases 8 - i,
    {
        bytes.push(b[i]);
        assert(b@.take(i + 1) =~= b@.take(i as int).push(b@[i as int]));
        i = i + 1;
    }
    assert(b@.take(8) =~= b@);
}

/// Two signatures by the same gnome with the same bytes.
pub open spec fn signature_same(a: Signature, b: Signature) -> bool {
    match (a, b) {
        (Signature::Regular(g1, s1), Signature::Regular(g2, s2)) => g1 == g2 && s1@ == s2@,
        (Signature::Extended(g1, k1, s1), Signature::Extended(g2, k2, s2)) => g1 == g2 && k1@
            == k2@ && s1@ == s2@,
        _ => false,
    }
}

/// Two payloads with the same content.
pub open spec fn payload_same(a: Payload, b: Payload) -> bool {
    match (a, b) {
        (Payload::KeepAlive(x), Payload::KeepAlive(y)) => x == y,
        (Payload::Bye, Payload::Bye) => true,
        (Payload::Reconfigure(s1, c1), Payload::Reconfigure(s2, c2)) => signature_same(s1, s2)
            && config_same(c1, c2),
        (Payload::Block(i1, s1, d1), Payload::Block(i2, s2, d2)) => i1 == i2 && signature_same(
            s1,
            s2,
        ) && d1.view_bytes() == d2.view_bytes(),
        _ => false,
    }
}

impl Configuration {
    /// A copy with the same content.
    pub fn duplicate(&self) -> (res: Self)
        ensures
            config_same(res, *self),
    {
        match self {
            Configuration::StartBroadcast(g, c) => Configuration::StartBroadcast(*g, *c),
            Configuration::ChangeBroadcastOrigin(g, c) => Configuration::ChangeBroadcastOrigin(*g, *c),
            Configuration::EndBroadcast(c) => Configuration::EndBroadcast(*c),
            Configuration::StartMulticast(g, c) => Configuration::StartMulticast(*g, *c),
            Configuration::ChangeMulticastOrigin(g, c) => Configuration::ChangeMulticastOrigin(*g, *c),
            Configuration::EndMulticast(c) => Configuration::EndMulticast(*c),
            Configuration::CreateGroup => Configuration::CreateGroup,
            Configuration::DeleteGroup => Configuration::DeleteGroup,
            Configuration::ModifyGroup => Configuration::ModifyGroup,
            Configuration::InsertPubkey(g, k) => Configuration::InsertPubkey(*g, k.clone()),
            Configuration::UserDefined(b) => Configuration::UserDefined(*b),
        }
    }

    pub fn header_byte(&self) -> (res: u8)
        ensures
            res == config_header_byte(*self),
    {
        match *self {
            Configuration::StartBroadcast(_gid, _cid) => 254,
            Configuration::ChangeBroadcastOrigin(_gid, _cid) => 253,
            Configuration::EndBroadcast(_cid) => 252,
            Configuration::StartMulticast(_gid, _cid) => 251,
            Configuration::ChangeMulticastOrigin(_gid, _cid) => 250,
            Configuration::EndMulticast(_cid) => 249,
            Configuration::CreateGroup => 248,
            Configuration::DeleteGroup => 247,
            Configuration::ModifyGroup => 246,
            Configuration::InsertPubkey(_gid, ref _pub_key) => 245,
            Configuration::UserDefined(other) => other,
        }
    }

    pub fn as_ct(&self) -> (res: ConfigType)
        ensures
            res == config_header_byte(*self),
    {
        self.header_byte()
    }

    pub fn as_gid(&self) -> (res: GnomeId)
        ensures
            res.0 == config_gid(*self),
    {
        match *self {
            Configuration::StartBroadcast(gid, _cid) => gid,
            Configuration::ChangeBroadcastOrigin(gid, _cid) => gid,
            Configuration::EndBroadcast(_cid) => GnomeId(0),
            Configuration::StartMulticast(gid, _cid) => gid,
            Configuration::ChangeMulticastOrigin(gid, _cid) => gid,
            Configuration::EndMulticast(_cid) => GnomeId(0),
            Configuration::CreateGroup => GnomeId(0),
            Configuration::DeleteGroup => GnomeId(0),
            Configuration::ModifyGroup => GnomeId(0),
            Configuration::InsertPubkey(gid, ref _pub_key) => gid,
            Configuration::UserDefined(_other) => GnomeId(0),
        }
    }

    pub fn len(&self) -> (res: usize)
        requires
            config_len(*self) <= usize::MAX,
        ensures
            res == config_len(*self),
    {
        match self {
            Configuration::StartBroadcast(_gid, _cid) => 10,
            Configuration::ChangeBroadcastOrigin(_gid, _cid) => 10,
            Configuration::EndBroadcast(_cid) => 2,
            Configuration::StartMulticast(_gid, _cid) => 10,
            Configuration::ChangeMulticastOrigin(_gid, _cid) => 10,
            Configuration::EndMulticast(_cid) => 2,
            Configuration::CreateGroup => 1,
            Configuration::DeleteGroup => 1,
            Configuration::ModifyGroup => 1,
            Configuration::InsertPubkey(_gid, pub_key) => 9 + pub_key.len(),
            Configuration::UserDefined(_other) => 1,
        }
    }

    /// Whether `value` is long enough for `from_bytes`: one header byte,
    /// then what the configuration it names needs.
    pub fn is_decodable(value: &Vec<u8>) -> (res: bool)
        ensures
            res == config_decodable(value@),
    {
        if value.len() == 0 {
            return false;
        }
        let h = value[0];
        if h == 254 || h == 253 || h == 251 || h == 250 {
            value.len() >= 10
        } else if h == 252 {
            value.len() >= 2
        } else if h == 245 {
            value.len() >= 9
        } else {
            true
        }
    }

    pub fn from_bytes(value: Vec<u8>) -> (res: Configuration)
        requires
            config_decodable(value@),
        ensures
            config_decode_matches(value@, res),
    {
        let header_byte = value[0];
        match header_byte {
            254 => {
                let gnome_id = read_gnome_id(&value);
                Configuration::StartBroadcast(gnome_id, CastID(value[9]))
            },
            253 => {
                let gnome_id = read_gnome_id(&value);
                Configuration::ChangeBroadcastOrigin(gnome_id, CastID(value[9]))
            },
            252 => Configuration::EndBroadcast(CastID(value[1])),
            251 => {
                let gnome_id = read_gnome_id(&value);
                Configuration::StartMulticast(gnome_id, CastID(value[9]))
            },
            250 => {
                let gnome_id = read_gnome_id(&value);
                Configuration::ChangeMulticastOrigin(gnome_id, CastID(value[9]))
            },
            249 => Configuration::EndMulticast(CastID(0)),
            248 => Configuration::CreateGroup,
            247 => Configuration::DeleteGroup,
            246 => Configuration::ModifyGroup,
            245 => {
                let gnome_id = read_gnome_id(&value);
                let key = vstd::slice::slice_to_vec(&value.as_slice()[9..value.len()]);
                assert(key@ =~= value@.skip(9));
                Configuration::InsertPubkey(gnome_id, key)
            },
            other => Configuration::UserDefined(other),
        }
    }

    pub fn bytes(&self) -> (res: Vec<u8>)
        ensures
            res@ == config_encode(*self),
    {
        let mut result_vec: Vec<u8> = Vec::new();
        result_vec.push(self.header_byte());
        let content = self.content_bytes(true);
        let ghost start = result_vec@;
        let mut i: usize = 0;
        while i < content.len()
            invariant
                i <= content@.len(),
                content@ == config_content(*self, true),
                start == seq![config_header_byte(*self)],
                result_vec@ == start + content@.take(i as int),
            decreases content@.len() - i,
        {
            result_vec.push(content[i]);
            assert(content@.take(i + 1) =~= content@.take(i as int).push(content@[i as int]));
            i = i + 1;
        }
        assert(content@.take(content@.len() as int) =~= content@);
        result_vec
    }

    pub fn content_bytes(&self, with_gnome_id: bool) -> (res: Vec<u8>)
        ensures
            res@ == config_content(*self, with_gnome_id),
    {
        let mut content_bytes: Vec<u8> = Vec::new();
        match *self {
            Configuration::StartBroadcast(gid, cid) | Configuration::ChangeBroadcastOrigin(
                gid,
                cid,
            )
            | Configuration::StartMulticast(gid, cid) | Configuration::ChangeMulticastOrigin(
                gid,
                cid,
            ) => {
                if with_gnome_id {
                    push_gnome_id(&mut content_bytes, gid);
                }
                content_bytes.push(cid.0);
            },
            Configuration::EndBroadcast(cid) | Configuration::EndMulticast(cid) => {
                content_bytes.push(cid.0);
            },
            Configuration::InsertPubkey(gid, ref pub_key) => {
                if with_gnome_id {
                    push_gnome_id(&mut content_bytes, gid);
                }
                let ghost start = content_bytes@;
                let mut i: usize = 0;
                while i < pub_key.len()
                    invariant
                        i <= pub_key@.len(),
                        content_bytes@ == start + pub_key@.take(i as int),
                    decreases pub_key@.len() - i,
                {
                    content_bytes.push(pub_key[i]);
                    assert(pub_key@.take(i + 1) =~= pub_key@.take(i as int).push(pub_key@[i as int]));
                    i = i + 1;
                }
                assert(pub_key@.take(pub_key@.len() as int) =~= pub_key@);
            },
            _ => {},
        }
        assert(content_bytes@ =~= config_content(*self, with_gnome_id));
        content_bytes
    }
}

fn read_gnome_id(value: &Vec<u8>) -> (res: GnomeId)
    requires
        value@.len() >= 9,
    ensures
        res.0 == u64_from_be(value@.subrange(1, 9)),
{
    let arr: [u8; 8] = [value[1], value[2], value[3], value[4], value[5], value[6], value[7], value[8]];
    assert(arr@ =~= value@.subrange(1, 9));
    GnomeId::from(arr)
}

/// The length that `Configuration::len` reports is the length of the
/// serialization: the header byte and the content with the gnome id.
pub proof fn lemma_config_len(c: Configuration)
    ensures
        config_encode(c).len() == 1 + config_content(c, true).len(),
        config_len(c) == config_encode(c).len(),
{
}

/// A serialized configuration decodes to itself, for every configuration
/// that survives serialization.
pub proof fn lemma_config_roundtrip(c: Configuration)
    requires
        config_encodable(c),
    ensures
        config_decodable(config_encode(c)),
        config_decode_matches(config_encode(c), c),
        config_encode(c).len() == config_len(c),
{
    let v = config_encode(c);
    match c {
        Configuration::StartBroadcast(g, _cid) | Configuration::ChangeBroadcastOrigin(g, _cid)
        | Configuration::StartMulticast(g, _cid) | Configuration::ChangeMulticastOrigin(
            g,
            _cid,
        ) => {
            assert(v.subrange(1, 9) =~= be_bytes_u64(g.0));
            crate::gnome::lemma_be_roundtrip(g.0);
        },
        Configuration::InsertPubkey(g, key) => {
            assert(v.subrange(1, 9) =~= be_bytes_u64(g.0));
            assert(v.skip(9) =~= key@);
            crate::gnome::lemma_be_roundtrip(g.0);
        },
        _ => {},
    }
}

impl Signature {
    /// A copy with the same content.
    pub fn duplicate(&self) -> (res: Self)
        ensures
            signature_same(res, *self),
    {
        match self {
            Signature::Regular(g, b) => Signature::Regular(*g, b.clone()),
            Signature::Extended(g, k, b) => Signature::Extended(*g, k.clone(), b.clone()),
        }
    }

    pub fn header_byte(&self) -> (res: u8)
        ensures
            res == (if self is Regular {
                0u8
            } else {
                255u8
            }),
    {
        if matches!(*self, Signature::Regular(_gid, _)) {
            0
        } else {
            255
        }
    }

    pub fn len(&self) -> (res: usize)
        requires
            self matches Signature::Extended(_g, p, s) ==> p@.len() + s@.len() <= usize::MAX,
        ensures
            self matches Signature::Regular(_g, s) ==> res == s@.len(),
            self matches Signature::Extended(_g, p, s) ==> res == p@.len() + s@.len(),
    {
        match self {
            Signature::Regular(_gid, signature) => signature.len(),
            Signature::Extended(_gid, pub_key, signature) => pub_key.len() + signature.len(),
        }
    }

    pub fn gnome_id(&self) -> (res: GnomeId)
        ensures
            self matches Signature::Regular(g, _s) ==> res == g,
            self matches Signature::Extended(g, _p, _s) ==> res == g,
    {
        match self {
            Signature::Regular(gid, _signature) => *gid,
            Signature::Extended(gid, _pub_key, _signature) => *gid,
        }
    }

    pub fn pubkey(&self) -> (res: Option<(GnomeId, Vec<u8>)>)
        ensures
            self is Regular ==> res is None,
            self matches Signature::Extended(g, p, _s) ==> res matches Some((rg, rp)) && rg == g
                && rp@ == p@,
    {
        match self {
            Signature::Regular(_gid, _signature) => None,
            Signature::Extended(gid, pub_key, _signature) => Some((*gid, pub_key.clone())),
        }
    }

    pub fn bytes(self) -> (res: Vec<u8>)
        ensures
            self matches Signature::Regular(_g, s) ==> res@ == s@,
            self matches Signature::Extended(_g, p, s) ==> res@ == p@ + s@,
    {
        match self {
            Signature::Regular(_gid, signature) => signature,
            Signature::Extended(_gid, mut pub_key, mut signature) => {
                pub_key.append(&mut signature);
                pub_key
            },
        }
    }
}

/// Whether a payload carries a signature with the signer's public key.
pub open spec fn payload_signature_extended(p: Payload) -> bool {
    match p {
        Payload::Reconfigure(s, _c) => s is Extended,
        Payload::Block(_b, s, _d) => s is Extended,
        _ => false,
    }
}

/// `p` is the reconfiguration that `sb` holds: the same signature and the
/// configuration its bytes decode to.
pub open spec fn packed_config(p: Payload, sb: Option<(Signature, Vec<u8>)>) -> bool {
    match (p, sb) {
        (Payload::Reconfigure(s, c), Some((rs, b))) => s == rs && config_decode_matches(b@, c),
        _ => false,
    }
}

/// `p` is a block with the signature and the bytes that `sb` holds.
pub open spec fn packed_block(p: Payload, sb: Option<(Signature, Vec<u8>)>) -> bool {
    match (p, sb) {
        (Payload::Block(_id, s, d), Some((rs, b))) => s == rs && d.view_bytes() == b@,
        _ => false,
    }
}

/// The empty block payload: block 0, an empty signature by gnome 0, no data.
pub open spec fn is_empty_block(p: Payload) -> bool {
    match p {
        Payload::Block(id, Signature::Regular(g, b), d) => id.0 == 0 && g.0 == 0 && b@.len() == 0
            && d.view_bytes().len() == 0,
        _ => false,
    }
}

/// The placeholder reconfiguration: an empty signature by gnome 0 on starting
/// broadcast 0 from gnome 0.
pub open spec fn is_placeholder_reconfigure(p: Payload) -> bool {
    match p {
        Payload::Reconfigure(Signature::Regular(g, b), c) => g.0 == 0 && b@.len() == 0 && c
            == Configuration::StartBroadcast(GnomeId(0), CastID(0)),
        _ => false,
    }
}

impl Payload {
    /// A copy with the same content.
    pub fn duplicate(&self) -> (res: Self)
        ensures
            payload_same(res, *self),
    {
        match self {
            Payload::KeepAlive(b) => Payload::KeepAlive(*b),
            Payload::Bye => Payload::Bye,
            Payload::Reconfigure(s, c) => Payload::Reconfigure(s.duplicate(), c.duplicate()),
            Payload::Block(i, s, d) => Payload::Block(*i, s.duplicate(), d.duplicate()),
        }
    }

    pub fn has_signature(&self) -> (res: bool)
        ensures
            res == (self is Block || self is Reconfigure),
    {
        self.has_data() || self.has_config()
    }

    pub fn is_signature_extended(&self) -> (res: bool)
        ensures
            res == payload_signature_extended(*self),
    {
        match self {
            Payload::Reconfigure(sign, _config) => matches!(sign, Signature::Extended(_g, _p, _s)),
            Payload::Block(_bid, sign, _data) => matches!(sign, Signature::Extended(_g, _p, _s)),
            _ => false,
        }
    }

    pub fn signature_and_bytes(self) -> (res: Option<(Signature, Vec<u8>)>)
        ensures
            self matches Payload::Reconfigure(s, c) ==> res matches Some((rs, b)) && rs == s && b@
                == config_encode(c),
            self matches Payload::Block(_id, s, d) ==> res matches Some((rs, b)) && rs == s && b@
                == d.view_bytes(),
            !(self is Reconfigure || self is Block) ==> res is None,
    {
        match self {
            Payload::Reconfigure(sign, config) => Some((sign, config.bytes())),
            Payload::Block(_bid, sign, data) => Some((sign, data.ref_bytes().clone())),
            _ => None,
        }
    }

    pub fn bytes(&mut self) -> (res: Option<Vec<u8>>)
        ensures
            *final(self) == *old(self),
            *old(self) matches Payload::Reconfigure(_s, c) ==> res matches Some(b) && b@ == config_encode(c),
            *old(self) matches Payload::Block(_id, _s, d) ==> res matches Some(b) && b@ == d.view_bytes(),
            !(*old(self) is Reconfigure || *old(self) is Block) ==> res is None,
    {
        match self {
            Payload::Reconfigure(_sign, config) => Some(config.bytes()),
            Payload::Block(_bid, _sign, data) => Some(data.ref_bytes().clone()),
            _ => None,
        }
    }

    pub fn has_data(&self) -> (res: bool)
        ensures
            res == (self is Block),
    {
        matches!(self, Payload::Block(_b, _sign, _d))
    }

    pub fn id_and_data(self) -> (res: Option<(BlockID, SyncData)>)
        ensures
            self matches Payload::Block(id, _s, d) ==> res == Some((id, d)),
            !(self is Block) ==> res is None,
    {
        match self {
            Payload::Block(id, _sign, data) => Some((id, data)),
            _ => None,
        }
    }

    pub fn has_config(&self) -> (res: bool)
        ensures
            res == (self is Reconfigure),
    {
        matches!(self, Payload::Reconfigure(_sign, _c))
    }

    pub fn config(self) -> (res: Option<Configuration>)
        ensures
            self matches Payload::Reconfigure(_s, c) ==> res == Some(c),
            !(self is Reconfigure) ==> res is None,
    {
        match self {
            Payload::Reconfigure(_signature, config) => Some(config),
            _ => None,
        }
    }
}

/// What `Message::pack` needs to rebuild a payload from its pieces: a
/// signature with bytes, which decode to a configuration or fit in a block.
pub open spec fn packable(is_config: bool, sign_bytes_opt: Option<(Signature, Vec<u8>)>) -> bool {
    sign_bytes_opt matches Some((_s, b)) && if is_config {
        config_decodable(b@)
    } else {
        b@.len() <= MAX_SYNC_DATA
    }
}

impl Message {
    pub fn new(swarm_time: SwarmTime, header: Header, payload: Payload, neighborhood: Neighborhood) -> (res: Message)
        ensures
            res == (Message { swarm_time, neighborhood, header, payload }),
    {
        Message { swarm_time, neighborhood, header, payload }
    }

    pub fn unpack(self) -> (res: (SwarmTime, Neighborhood, Header, bool, Option<(Signature, Vec<u8>)>))
        ensures
            res.0 == self.swarm_time,
            res.1 == self.neighborhood,
            res.2 == self.header,
            res.3 == (self.payload is Reconfigure),
            self.payload matches Payload::Reconfigure(s, c) ==> res.4 matches Some((rs, b)) && rs
                == s && b@ == config_encode(c),
            self.payload matches Payload::Block(_id, s, d) ==> res.4 matches Some((rs, b)) && rs
                == s && b@ == d.view_bytes(),
            !(self.payload is Reconfigure || self.payload is Block) ==> res.4 is None,
    {
        let is_config = self.payload.has_config();
        let sign_opt = self.payload.signature_and_bytes();
        (self.swarm_time, self.neighborhood, self.header, is_config, sign_opt)
    }

    pub fn pack(
        &mut self,
        swarm_time: SwarmTime,
        neighborhood: Neighborhood,
        header: Header,
        is_config: bool,
        sign_bytes_opt: Option<(Signature, Vec<u8>)>,
    )
        requires
            packable(is_config, sign_bytes_opt),
        ensures
            final(self).swarm_time == swarm_time,
            final(self).neighborhood == neighborhood,
            final(self).header == header,
            is_config ==> packed_config(final(self).payload, sign_bytes_opt),
            !is_config ==> packed_block(final(self).payload, sign_bytes_opt),
    {
        self.swarm_time = swarm_time;
        self.neighborhood = neighborhood;
        self.header = header;
        if is_config {
            let (signature, bytes) = sign_bytes_opt.unwrap();
            let conf = Configuration::from_bytes(bytes);
            self.payload = Payload::Reconfigure(signature, conf);
        } else {
            let (signature, bytes) = sign_bytes_opt.unwrap();
            let data = match SyncData::new(bytes) {
                Ok(d) => d,
                Err(_b) => SyncData::empty(),
            };
            let block_id = data.get_block_id();
            self.payload = Payload::Block(block_id, signature, data);
        }
    }

    pub fn set_payload(&self, payload: Payload) -> (res: Message)
        ensures
            res == (Message { payload, ..*self }),
    {
        Message { payload, ..*self }
    }

    pub fn bye() -> (res: Message)
        ensures
            res.swarm_time.0 == u32::MAX,
            res.neighborhood.0 == 0,
            res.header == Header::Sync,
            res.payload == Payload::Bye,
    {
        Message {
            swarm_time: SwarmTime(u32::MAX),
            neighborhood: Neighborhood(0),
            header: Header::Sync,
            payload: Payload::Bye,
        }
    }

    pub fn block() -> (res: Message)
        ensures
            res.swarm_time.0 == 0,
            res.neighborhood.0 == 0,
            res.header == Header::Block(BlockID(0)),
            is_empty_block(res.payload),
    {
        Message {
            swarm_time: SwarmTime(0),
            neighborhood: Neighborhood(0),
            header: Header::Block(BlockID(0)),
            payload: Payload::Block(BlockID(0), Signature::Regular(GnomeId(0), Vec::new()), SyncData::empty()),
        }
    }

    pub fn reconfigure() -> (res: Message)
        ensures
            res.swarm_time.0 == 0,
            res.neighborhood.0 == 0,
            res.header == Header::Reconfigure(255, GnomeId(0)),
            is_placeholder_reconfigure(res.payload),
    {
        Message {
            swarm_time: SwarmTime(0),
            neighborhood: Neighborhood(0),
            header: Header::Reconfigure(255, GnomeId(0)),
            payload: Payload::Reconfigure(
                Signature::Regular(GnomeId(0), Vec::new()),
                Configuration::StartBroadcast(GnomeId(0), CastID(0)),
            ),
        }
    }

    pub fn is_bye(&self) -> (res: bool)
        ensures
            res == (self.payload is Bye),
    {
        matches!(self.payload, Payload::Bye)
    }
}

/// Unpacking a reconfiguration message and packing its pieces again gives the
/// same time, neighborhood, header, signature and configuration back, for
/// every configuration that survives serialization.
pub proof fn lemma_pack_unpack_config(
    st: SwarmTime,
    nh: Neighborhood,
    h: Header,
    s: Signature,
    c: Configuration,
    b: Seq<u8>,
    c2: Configuration,
)
    requires
        config_encodable(c),
        b == config_encode(c),
        config_decode_matches(b, c2),
    ensures
        config_decodable(b),
        config_same(c2, c),
{
    lemma_config_roundtrip(c);
    let v = config_encode(c);
    assert(v[0] == config_header_byte(c));
}

} // verus!
