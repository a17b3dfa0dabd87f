use vstd::prelude::*;

use crate::data::{hash_bytes_into, hasher_output};
use crate::message::BlockID;
use std::collections::hash_map::DefaultHasher;
use std::hash::Hasher;
use vstd::std_specs::hash::DefaultHasherAdditionalSpecFns;

verus! {

/// The largest `Data` content, in bytes.
pub const MAX_DATA: usize = 1024;

/// Content of a proposal.
#[derive(Clone, PartialEq, Eq, Debug)]
pub struct Data(Vec<u8>);

impl Data {
    /// The bytes held.
    pub closed spec fn view_bytes(&self) -> Seq<u8> {
        self.0@
    }

    pub fn new(contents: Vec<u8>) -> (res: Result<Self, Vec<u8>>)
        ensures
            contents@.len() > MAX_DATA <==> res is Err,
            res matches Err(v) ==> v@ == contents@,
            res matches Ok(d) ==> d.view_bytes() == contents@,
    {
        if contents.len() > MAX_DATA {
            return Err(contents);
        }
        Ok(Data(contents))
    }

    pub fn empty() -> (res: Self)
        ensures
            res.view_bytes() == Seq::<u8>::empty(),
    {
        Data(Vec::new())
    }

    pub fn bytes(self) -> (res: Vec<u8>)
        ensures
            res@ == self.view_bytes(),
    {
        self.0
    }

    pub fn first_byte(&self) -> (res: u8)
        requires
            self.view_bytes().len() >= 1,
        ensures
            res == self.view_bytes()[0],
    {
        self.0[0]
    }

    pub fn len(&self) -> (res: usize)
        ensures
            res == self.view_bytes().len(),
    {
        self.0.len()
    }

    /// The hash of the content under std's `DefaultHasher`. Nothing is
    /// stated of the value: it is what std's unspecified hasher makes of the
    /// bytes that `<Vec<u8> as Hash>::hash` writes, among them a length prefix
    /// whose width and byte order depend on the platform.
    pub fn hash(&self) -> (res: u64)
        ensures
            hasher_output(res),
    {
        let mut hasher = DefaultHasher::new();
        hash_bytes_into(&self.0, &mut hasher);
        let res = hasher.finish();
        proof {
            assert(res == DefaultHasher::spec_finish(hasher@));
        }
        res
    }

    /// The identifier of a block with this content: its hash, of which
    /// only that it is a hasher output is stated.
    pub fn get_block_id(&self) -> (res: BlockID)
        ensures
            hasher_output(res.0),
    {
        BlockID(self.hash())
    }
}

} // verus!
