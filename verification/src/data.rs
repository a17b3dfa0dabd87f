use vstd::prelude::*;

use crate::message::BlockID;
use std::collections::hash_map::DefaultHasher;
use std::hash::Hash;
use std::hash::Hasher;
use vstd::std_specs::hash::DefaultHasherAdditionalSpecFns;

verus! {

/// Whether `x` is something std's `DefaultHasher` gives from `finish` after
/// some sequence of writes. Which writes `<Vec<u8> as Hash>::hash` makes
/// is not stated (it includes a platform-dependent length prefix), but a
/// block id is always such an output, never a value picked otherwise.
pub open spec fn hasher_output(x: u64) -> bool {
    exists|w: Seq<Seq<u8>>| x == #[trigger] DefaultHasher::spec_finish(w)
}

/// The largest `CastData` content, in bytes.
pub const MAX_CAST_DATA: usize = 1364;

/// The largest `SyncData` content, in bytes.
pub const MAX_SYNC_DATA: usize = 1168;

/// Content of a unicast, multicast or broadcast message.
#[derive(Clone, PartialEq, Eq, Debug)]
pub struct CastData(Vec<u8>);

impl CastData {
    /// The bytes held.
    pub closed spec fn view_bytes(&self) -> Seq<u8> {
        self.0@
    }

    pub fn new(contents: Vec<u8>) -> (res: Result<Self, Vec<u8>>)
        ensures
            contents@.len() > MAX_CAST_DATA <==> res is Err,
            res matches Err(v) ==> v@ == contents@,
            res matches Ok(d) ==> d.view_bytes() == contents@,
    {
        if contents.len() > MAX_CAST_DATA {
            return Err(contents);
        }
        Ok(CastData(contents))
    }

    pub fn empty() -> (res: Self)
        ensures
            res.view_bytes() == Seq::<u8>::empty(),
    {
        CastData(Vec::new())
    }

    pub fn bytes(self) -> (res: Vec<u8>)
        ensures
            res@ == self.view_bytes(),
    {
        self.0
    }

    pub fn len(&self) -> (res: usize)
        ensures
            res == self.view_bytes().len(),
    {
        self.0.len()
    }
}

/// Content of a block that a swarm agrees on.
#[derive(Clone, PartialEq, Eq, Debug)]
pub struct SyncData(Vec<u8>);

/// Feeds `bytes` into `state` the way `<Vec<u8> as Hash>::hash` does. The
/// bytes written include a platform-dependent length prefix, so nothing is
/// stated of the hasher's state afterwards.
#[verifier::external_body]
pub(crate) fn hash_bytes_into(bytes: &Vec<u8>, state: &mut DefaultHasher) {
    bytes.hash(state)
}

impl SyncData {
    /// The bytes held.
    pub closed spec fn view_bytes(&self) -> Seq<u8> {
        self.0@
    }

    /// A copy holding the same bytes.
    pub fn duplicate(&self) -> (res: Self)
        ensures
            res.view_bytes() == self.view_bytes(),
    {
        SyncData(self.0.clone())
    }

    pub fn new(contents: Vec<u8>) -> (res: Result<Self, Vec<u8>>)
        ensures
            contents@.len() > MAX_SYNC_DATA <==> res is Err,
            res matches Err(v) ==> v@ == contents@,
            res matches Ok(d) ==> d.view_bytes() == contents@,
    {
        if contents.len() > MAX_SYNC_DATA {
            return Err(contents);
        }
        Ok(SyncData(contents))
    }

    pub fn empty() -> (res: Self)
        ensures
            res.view_bytes() == Seq::<u8>::empty(),
    {
        SyncData(Vec::new())
    }

    pub fn bytes(self) -> (res: Vec<u8>)
        ensures
            res@ == self.view_bytes(),
    {
        self.0
    }

    pub fn ref_bytes(&self) -> (res: &Vec<u8>)
        ensures
            res@ == self.view_bytes(),
    {
        &self.0
    }

    pub fn first_byte(&self) -> (res: u8)
        requires
            self.view_bytes().len() >= 1,
        ensures
            res == self.view_bytes()[0],
    {
        self.0[0]
    }

    pub fn second_byte(&self) -> (res: u8)
        requires
            self.view_bytes().len() >= 2,
        ensures
            res == self.view_bytes()[1],
    {
        self.0[1]
    }

    pub fn third_byte(&self) -> (res: u8)
        requires
            self.view_bytes().len() >= 3,
        ensures
            res == self.view_bytes()[2],
    {
        self.0[2]
    }

    pub fn len(&self) -> (res: usize)
        ensures
            res == self.view_bytes().len(),
    {
        self.0.len()
    }

    /// The hash of the content under std's `DefaultHasher`. Nothing is
    /// stated of the value: it is what std's unspecified hasher makes of the
    /// bytes that `<Vec<u8> as Hash>::hash` writes, among them a length prefix
    /// whose width and byte order depend on the platform.
    pub fn hash(&self) -> (res: u64)
        ensures
            hasher_output(res),
    {
        let mut hasher = DefaultHasher::new();
        hash_bytes_into(&self.0, &mut hasher);
        let res = hasher.finish();
        proof {
            assert(res == DefaultHasher::spec_finish(hasher@));
        }
        res
    }

    /// The identifier of a block with this content: its hash, of which
    /// only that it is a hasher output is stated.
    pub fn get_block_id(&self) -> (res: BlockID)
        ensures
            hasher_output(res.0),
    {
        BlockID(self.hash())
    }
}

} // verus!
