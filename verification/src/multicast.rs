use vstd::prelude::*;

use crate::data::CastData;
use crate::gnome::GnomeId;
use crate::neighbor::{NeighborRequest, NeighborResponse};
use crate::CastID;

verus! {

/// To whom a cast goes: one neighbor, a group, or the whole swarm.
#[derive(Clone, Copy, Debug, PartialEq, Eq, Hash, Structural)]
pub enum CastType {
    Unicast,
    Multicast,
    Broadcast,
}

/// What a cast carries: data, or a request or response between neighbors.
#[derive(Clone, Debug)]
pub enum CastContent {
    Data(CastData),
    Request(NeighborRequest),
    Response(NeighborResponse),
}

/// A message of a cast. Between two neighbors, unicast `255` carries
/// requests and unicast `254` carries responses.
#[derive(Clone, Debug)]
pub struct CastMessage {
    pub c_type: CastType,
    pub id: CastID,
    pub content: CastContent,
}

impl CastMessage {
    pub fn id(&self) -> (res: CastID)
        ensures
            res == self.id,
    {
        self.id
    }

    pub fn get_data(self) -> (res: Option<CastData>)
        ensures
            res == (match self.content {
                CastContent::Data(d) => Some(d),
                _ => None,
            }),
    {
        if let CastContent::Data(dat) = self.content {
            Some(dat)
        } else {
            None
        }
    }

    /// The request carried, taken out of the message.
    pub fn get_request(self) -> (res: Option<NeighborRequest>)
        ensures
            res == (match self.content {
                CastContent::Request(r) => Some(r),
                _ => None,
            }),
    {
        if let CastContent::Request(req) = self.content {
            Some(req)
        } else {
            None
        }
    }

    /// The response carried, taken out of the message.
    pub fn get_response(self) -> (res: Option<NeighborResponse>)
        ensures
            res == (match self.content {
                CastContent::Response(r) => Some(r),
                _ => None,
            }),
    {
        if let CastContent::Response(resp) = self.content {
            Some(resp)
        } else {
            None
        }
    }

    pub fn new_unicast(id: CastID, data: CastData) -> (res: Self)
        ensures
            res == (CastMessage { c_type: CastType::Unicast, id, content: CastContent::Data(data) }),
    {
        CastMessage { c_type: CastType::Unicast, id, content: CastContent::Data(data) }
    }

    pub fn new_request(neighbor_request: NeighborRequest) -> (res: Self)
        ensures
            res == (CastMessage {
                c_type: CastType::Unicast,
                id: CastID(255),
                content: CastContent::Request(neighbor_request),
            }),
    {
        CastMessage {
            c_type: CastType::Unicast,
            id: CastID(255),
            content: CastContent::Request(neighbor_request),
        }
    }

    pub fn new_response(neighbor_response: NeighborResponse) -> (res: Self)
        ensures
            res == (CastMessage {
                c_type: CastType::Unicast,
                id: CastID(254),
                content: CastContent::Response(neighbor_response),
            }),
    {
        CastMessage {
            c_type: CastType::Unicast,
            id: CastID(254),
            content: CastContent::Response(neighbor_response),
        }
    }

    pub fn new_multicast(id: CastID, data: CastData) -> (res: Self)
        ensures
            res == (CastMessage { c_type: CastType::Multicast, id, content: CastContent::Data(data) }),
    {
        CastMessage { c_type: CastType::Multicast, id, content: CastContent::Data(data) }
    }

    pub fn new_broadcast(id: CastID, data: CastData) -> (res: Self)
        ensures
            res == (CastMessage { c_type: CastType::Broadcast, id, content: CastContent::Data(data) }),
    {
        CastMessage { c_type: CastType::Broadcast, id, content: CastContent::Data(data) }
    }

    pub fn is_unicast(&self) -> (res: bool)
        ensures
            res == (self.c_type == CastType::Unicast),
    {
        matches!(self.c_type, CastType::Unicast)
    }

    pub fn is_multicast(&self) -> (res: bool)
        ensures
            res == (self.c_type == CastType::Multicast),
    {
        matches!(self.c_type, CastType::Multicast)
    }

    pub fn is_broadcast(&self) -> (res: bool)
        ensures
            res == (self.c_type == CastType::Broadcast),
    {
        matches!(self.c_type, CastType::Broadcast)
    }
}

/// The test for being another gnome than `x`.
pub open spec fn other_than(x: GnomeId) -> spec_fn(GnomeId) -> bool {
    |g: GnomeId| g != x
}

/// `s` without any occurrence of `x`, in order.
pub open spec fn without(s: Seq<GnomeId>, x: GnomeId) -> Seq<GnomeId> {
    s.filter(other_than(x))
}

/// Whether no gnome occurs twice in `s`.
pub open spec fn distinct_ids(s: Seq<GnomeId>) -> bool {
    forall|i: int, j: int| 0 <= i < j < s.len() ==> s[i] != s[j]
}

/// A multicast or broadcast as one gnome takes part in it: who started it,
/// the neighbor it comes from, neighbors it could come from instead, the
/// neighbors it goes on to, and whether the gnome's application gets it.
pub struct Multicast {
    pub origin: GnomeId,
    pub source: GnomeId,
    pub alt_sources: Vec<GnomeId>,
    pub subscribers: Vec<GnomeId>,
    pub to_app: bool,
}

impl Multicast {
    /// A subscriber occurs at most once.
    pub open spec fn wf(&self) -> bool {
        distinct_ids(self.subscribers@)
    }

    pub fn new(
        origin: GnomeId,
        source: GnomeId,
        alt_sources: Vec<GnomeId>,
        subscribers: Vec<GnomeId>,
        to_app: bool,
    ) -> (res: Self)
        requires
            distinct_ids(subscribers@),
        ensures
            res == (Multicast { origin, source, alt_sources, subscribers, to_app }),
            res.wf(),
    {
        Multicast { origin, source, alt_sources, subscribers, to_app }
    }

    pub fn source(&self) -> (res: GnomeId)
        ensures
            res == self.source,
    {
        self.source
    }

    pub fn origin(&self) -> (res: GnomeId)
        ensures
            res == self.origin,
    {
        self.origin
    }

    pub fn subscribers(&self) -> (res: Vec<GnomeId>)
        ensures
            res@ == self.subscribers@,
    {
        let mut subs: Vec<GnomeId> = Vec::new();
        let mut i: usize = 0;
        while i < self.subscribers.len()
            invariant
                i <= self.subscribers@.len(),
                subs@ == self.subscribers@.take(i as int),
            decreases self.subscribers@.len() - i,
        {
            subs.push(self.subscribers[i]);
            i = i + 1;
            assert(subs@ =~= self.subscribers@.take(i as int));
        }
        assert(self.subscribers@.take(i as int) =~= self.subscribers@);
        subs
    }

    pub fn set_source(&mut self, source: GnomeId)
        ensures
            *final(self) == (Multicast { source, ..*old(self) }),
    {
        self.source = source;
    }

    /// Adds `subscriber`, unless it is one already.
    pub fn add_subscriber(&mut self, subscriber: GnomeId)
        requires
            old(self).wf(),
        ensures
            final(self).wf(),
            old(self).subscribers@.contains(subscriber) ==> final(self).subscribers@ == old(self).subscribers@,
            !old(self).subscribers@.contains(subscriber) ==> final(self).subscribers@ == old(self).subscribers@.push(subscriber),
            *final(self) == (Multicast { subscribers: final(self).subscribers, ..*old(self) }),
    {
        let mut i: usize = 0;
        while i < self.subscribers.len()
            invariant
                i <= self.subscribers@.len(),
                *self == *old(self),
                old(self).wf(),
                forall|k: int| 0 <= k < i ==> self.subscribers@[k] != subscriber,
            decreases self.subscribers@.len() - i,
        {
            if self.subscribers[i] == subscriber {
                return;
            }
            i = i + 1;
        }
        self.subscribers.push(subscriber);
    }

    /// Removes `subscriber` and says whether it was one.
    pub fn remove_subscriber(&mut self, subscriber: &GnomeId) -> (res: bool)
        requires
            old(self).wf(),
        ensures
            final(self).wf(),
            res == old(self).subscribers@.contains(*subscriber),
            final(self).subscribers@ == without(old(self).subscribers@, *subscriber),
            *final(self) == (Multicast { subscribers: final(self).subscribers, ..*old(self) }),
    {
        let mut i: usize = 0;
        while i < self.subscribers.len()
            invariant
                i <= self.subscribers@.len(),
                *self == *old(self),
                forall|k: int| 0 <= k < i ==> self.subscribers@[k] != *subscriber,
                distinct_ids(self.subscribers@),
            decreases self.subscribers@.len() - i,
        {
            if self.subscribers[i] == *subscriber {
                let ghost before = self.subscribers@;
                self.subscribers.remove(i);
                proof {
                    assert(self.subscribers@ =~= before.take(i as int) + before.skip(i as int + 1));
                    lemma_without_at(before, i as int, *subscriber);
                }
                return true;
            }
            i = i + 1;
        }
        proof {
            lemma_without_absent(self.subscribers@, *subscriber);
        }
        false
    }

    pub fn dont_send_to_app(&mut self)
        ensures
            *final(self) == (Multicast { to_app: false, ..*old(self) }),
    {
        self.to_app = false;
    }

    /// Forgets `old_source` as an alternative and gives the alternatives left.
    pub fn get_alt_sources(&mut self, old_source: GnomeId) -> (res: Vec<GnomeId>)
        ensures
            final(self).alt_sources@ == without(old(self).alt_sources@, old_source),
            res@ == final(self).alt_sources@,
            *final(self) == (Multicast { alt_sources: final(self).alt_sources, ..*old(self) }),
    {
        let mut kept: Vec<GnomeId> = Vec::new();
        let mut i: usize = 0;
        while i < self.alt_sources.len()
            invariant
                i <= self.alt_sources@.len(),
                *self == *old(self),
                kept@ == without(self.alt_sources@.take(i as int), old_source),
            decreases self.alt_sources@.len() - i,
        {
            let alt_s = self.alt_sources[i];
            proof {
                let s = self.alt_sources@;
                assert(s.take(i as int + 1) =~= s.take(i as int).push(alt_s));
                s.take(i as int).lemma_filter_push(alt_s, other_than(old_source));
            }
            if alt_s != old_source {
                kept.push(alt_s);
            }
            i = i + 1;
        }
        assert(self.alt_sources@.take(i as int) =~= self.alt_sources@);
        let mut res: Vec<GnomeId> = Vec::new();
        let mut j: usize = 0;
        while j < kept.len()
            invariant
                j <= kept@.len(),
                res@ == kept@.take(j as int),
            decreases kept@.len() - j,
        {
            res.push(kept[j]);
            j = j + 1;
            assert(res@ =~= kept@.take(j as int));
        }
        assert(kept@.take(j as int) =~= kept@);
        self.alt_sources = kept;
        res
    }
}

proof fn lemma_without_absent(s: Seq<GnomeId>, x: GnomeId)
    requires
        forall|k: int| 0 <= k < s.len() ==> s[k] != x,
    ensures
        without(s, x) == s,
        !s.contains(x),
    decreases s.len(),
{
    if s.len() > 0 {
        let init = s.drop_last();
        lemma_without_absent(init, x);
        assert(init.push(s.last()) =~= s);
        init.lemma_filter_push(s.last(), other_than(x));
    } else {
        reveal(Seq::filter);
    }
    assert(without(s, x) =~= s);
}

proof fn lemma_without_at(s: Seq<GnomeId>, i: int, x: GnomeId)
    requires
        0 <= i < s.len(),
        s[i] == x,
        distinct_ids(s),
    ensures
        without(s, x) == s.take(i) + s.skip(i + 1),
        s.contains(x),
        distinct_ids(s.take(i) + s.skip(i + 1)),
{
    let f = other_than(x);
    let a = s.take(i);
    let b = s.skip(i + 1);
    assert forall|k: int| 0 <= k < a.len() implies a[k] != x by {
        assert(a[k] == s[k]);
    }
    assert forall|k: int| 0 <= k < b.len() implies b[k] != x by {
        assert(b[k] == s[k + i + 1]);
    }
    lemma_without_absent(a, x);
    lemma_without_absent(b, x);
    assert(s =~= a + (seq![x] + b));
    Seq::filter_distributes_over_add(a, seq![x] + b, f);
    Seq::filter_distributes_over_add(seq![x], b, f);
    assert(seq![x].filter(f) =~= Seq::<GnomeId>::empty()) by {
        Seq::<GnomeId>::empty().lemma_filter_push(x, f);
        assert(Seq::<GnomeId>::empty().push(x) =~= seq![x]);
        reveal(Seq::filter);
    }
    assert(s.contains(x)) by {
        assert(s[i] == x);
    }
    let r = a + b;
    assert(distinct_ids(r)) by {
        assert forall|p: int, q: int| 0 <= p < q < r.len() implies r[p] != r[q] by {
            let sp = if p < i { p } else { p + 1 };
            let sq = if q < i { q } else { q + 1 };
            assert(r[p] == s[sp]);
            assert(r[q] == s[sq]);
        }
    }
}

} // verus!
