use vstd::prelude::*;

use crate::gnome::GnomeId;

verus! {

/// A capability that can be granted to gnomes of a swarm.
#[derive(PartialEq, Eq, Hash, Clone, Copy, Debug, Structural)]
pub enum Capabilities {
    Founder,
    Owner,
    Admin,
    Moderator,
    Superuser,
    Capability(u8),
}

/// The byte that encodes a capability.
pub open spec fn capability_byte(c: Capabilities) -> u8 {
    match c {
        Capabilities::Founder => 255,
        Capabilities::Owner => 254,
        Capabilities::Admin => 253,
        Capabilities::Moderator => 252,
        Capabilities::Superuser => 251,
        Capabilities::Capability(other) => other,
    }
}

/// The capability that a byte decodes to.
pub open spec fn capability_from_byte(b: u8) -> Capabilities {
    if b == 255 {
        Capabilities::Founder
    } else if b == 254 {
        Capabilities::Owner
    } else if b == 253 {
        Capabilities::Admin
    } else if b == 252 {
        Capabilities::Moderator
    } else if b == 251 {
        Capabilities::Superuser
    } else {
        Capabilities::Capability(b)
    }
}

impl Capabilities {
    pub fn from(byte: u8) -> (res: Self)
        ensures
            res == capability_from_byte(byte),
    {
        match byte {
            255 => Capabilities::Founder,
            254 => Capabilities::Owner,
            253 => Capabilities::Admin,
            252 => Capabilities::Moderator,
            251 => Capabilities::Superuser,
            other => Capabilities::Capability(other),
        }
    }

    pub fn byte(&self) -> (res: u8)
        ensures
            res == capability_byte(*self),
    {
        match self {
            Capabilities::Founder => 255,
            Capabilities::Owner => 254,
            Capabilities::Admin => 253,
            Capabilities::Moderator => 252,
            Capabilities::Superuser => 251,
            Capabilities::Capability(other) => *other,
        }
    }
}

/// Decoding a capability's byte gives the capability back, unless it is a
/// user capability whose number collides with one of the named ones.
pub proof fn lemma_capability_byte_roundtrip(c: Capabilities)
    requires
        !(c matches Capabilities::Capability(x) && x >= 251),
    ensures
        capability_from_byte(capability_byte(c)) == c,
{
}

/// Encoding the capability decoded from a byte gives that byte back.
pub proof fn lemma_capability_from_byte_roundtrip(b: u8)
    ensures
        capability_byte(capability_from_byte(b)) == b,
{
}

/// A binary tree of gnome identifiers. Every node splits the id space at its
/// midpoint: ids greater than the midpoint go right, the others go left.
#[derive(Debug)]
pub enum CapabiliTree {
    Empty(u8, u64),
    Filled(Box<CapabiLeaf>),
}

/// A filled node of a `CapabiliTree`.
#[derive(Debug)]
pub struct CapabiLeaf {
    level: u8,
    midpoint: u64,
    pub gnome_id: GnomeId,
    left: CapabiliTree,
    right: CapabiliTree,
}

/// Half of the id range covered by a node at `level`: `u64::MAX >> (level + 1)`.
pub open spec fn half_span(level: u8) -> u64 {
    u64::MAX >> ((level + 1) as u64)
}

proof fn lemma_half_span_step(level: u8)
    requires
        level <= 62,
    ensures
        half_span(level) == 2 * half_span((level + 1) as u8) + 1,
{
    let l = level as u64;
    assert((u64::MAX >> (l + 1)) == 2 * (u64::MAX >> (l + 2)) + 1) by (bit_vector)
        requires
            l <= 62,
    ;
}

impl CapabiliTree {
    /// How many times `id` occurs in the tree.
    pub closed spec fn count(self, id: u64) -> nat
        decreases self,
    {
        match self {
            CapabiliTree::Empty(_l, _m) => 0,
            CapabiliTree::Filled(node) => (if node.gnome_id.0 == id {
                1nat
            } else {
                0nat
            }) + node.left.count(id) + node.right.count(id),
        }
    }

    /// Whether `id` occurs in the tree.
    pub open spec fn has(self, id: u64) -> bool {
        self.count(id) > 0
    }

    /// Whether no id occurs more than once.
    pub open spec fn no_duplicates(self) -> bool {
        forall|id: u64| #[trigger] self.count(id) <= 1
    }

    /// The level of the root of this (sub)tree.
    pub closed spec fn level(self) -> u8 {
        match self {
            CapabiliTree::Empty(l, _m) => l,
            CapabiliTree::Filled(node) => node.level,
        }
    }

    /// The number of filled nodes on the longest path from the root.
    pub closed spec fn height(self) -> nat
        decreases self,
    {
        match self {
            CapabiliTree::Empty(_l, _m) => 0,
            CapabiliTree::Filled(node) => {
                let hl = node.left.height();
                let hr = node.right.height();
                1 + if hl > hr {
                    hl
                } else {
                    hr
                }
            },
        }
    }

    /// Identifiers in pre-order: a node, then its left subtree, then its right subtree.
    pub closed spec fn id_seq(self) -> Seq<GnomeId>
        decreases self,
    {
        match self {
            CapabiliTree::Empty(_l, _m) => Seq::empty(),
            CapabiliTree::Filled(node) => seq![node.gnome_id] + node.left.id_seq()
                + node.right.id_seq(),
        }
    }

    /// Structural invariant: levels grow by one from parent to child, the
    /// midpoints keep child midpoints inside `u64`, and each node routes ids
    /// by its midpoint.
    pub closed spec fn wf(self) -> bool
        decreases self,
    {
        match self {
            CapabiliTree::Empty(l, m) => l <= 62 && half_span(l) <= m && m <= u64::MAX
                - half_span(l),
            CapabiliTree::Filled(node) => {
                &&& node.level <= 61
                &&& half_span(node.level) <= node.midpoint
                &&& node.midpoint <= u64::MAX - half_span(node.level)
                &&& node.left.level() == node.level + 1
                &&& node.right.level() == node.level + 1
                &&& forall|id: u64| #[trigger] node.left.has(id) ==> id <= node.midpoint
                &&& forall|id: u64| #[trigger] node.right.has(id) ==> id > node.midpoint
                &&& node.left.wf()
                &&& node.right.wf()
            },
        }
    }

    /// Each node holds an id at least as close to its midpoint as every id
    /// below it. Insertions keep this; a removal, which moves a child's id up
    /// without looking further down, may break it.
    pub closed spec fn closest_first(self) -> bool
        decreases self,
    {
        match self {
            CapabiliTree::Empty(_l, _m) => true,
            CapabiliTree::Filled(node) => {
                &&& forall|id: u64| #[trigger] node.left.has(id) ==> abs_diff(node.gnome_id.0, node.midpoint)
                    <= abs_diff(id, node.midpoint)
                &&& forall|id: u64| #[trigger] node.right.has(id) ==> abs_diff(node.gnome_id.0, node.midpoint)
                    <= abs_diff(id, node.midpoint)
                &&& node.left.closest_first()
                &&& node.right.closest_first()
            },
        }
    }

    /// The id at the root, if the tree is filled.
    pub closed spec fn root_id(self) -> Option<GnomeId> {
        match self {
            CapabiliTree::Empty(_l, _m) => None,
            CapabiliTree::Filled(node) => Some(node.gnome_id),
        }
    }

    /// Whether one more identifier can be inserted without running out of levels.
    pub open spec fn can_grow(self) -> bool {
        self.level() + self.height() <= 61
    }

    /// The ids a tree lists are exactly the ids it holds.
    pub proof fn lemma_id_seq_has(self, id: u64)
        ensures
            self.id_seq().contains(GnomeId(id)) <==> self.has(id),
        decreases self,
    {
        match self {
            CapabiliTree::Empty(_l, _m) => {},
            CapabiliTree::Filled(node) => {
                node.left.lemma_id_seq_has(id);
                node.right.lemma_id_seq_has(id);
                let s = seq![node.gnome_id] + node.left.id_seq() + node.right.id_seq();
                assert(s == self.id_seq());
                if self.has(id) {
                    if node.gnome_id.0 == id {
                        assert(s[0] == GnomeId(id));
                    } else if node.left.has(id) {
                        let i = choose|i: int|
                            0 <= i < node.left.id_seq().len() && node.left.id_seq()[i] == GnomeId(
                                id,
                            );
                        assert(s[1 + i] == GnomeId(id));
                    } else {
                        let i = choose|i: int|
                            0 <= i < node.right.id_seq().len() && node.right.id_seq()[i]
                                == GnomeId(id);
                        assert(s[1 + node.left.id_seq().len() + i] == GnomeId(id));
                    }
                }
                if s.contains(GnomeId(id)) {
                    let i = choose|i: int| 0 <= i < s.len() && s[i] == GnomeId(id);
                    if i == 0 {
                    } else if i < 1 + node.left.id_seq().len() {
                        assert(node.left.id_seq()[i - 1] == GnomeId(id));
                    } else {
                        assert(node.right.id_seq()[i - 1 - node.left.id_seq().len()] == GnomeId(
                            id,
                        ));
                    }
                }
            },
        }
    }

    /// A tree that holds no id twice lists no id twice.
    pub proof fn lemma_id_seq_distinct(self)
        requires
            self.no_duplicates(),
        ensures
            self.id_seq().no_duplicates(),
        decreases self,
    {
        match self {
            CapabiliTree::Empty(_l, _m) => {},
            CapabiliTree::Filled(node) => {
                let l = node.left;
                let r = node.right;
                assert(l.no_duplicates()) by {
                    assert forall|id: u64| #[trigger] l.count(id) <= 1 by {
                        assert(self.count(id) <= 1);
                    }
                }
                assert(r.no_duplicates()) by {
                    assert forall|id: u64| #[trigger] r.count(id) <= 1 by {
                        assert(self.count(id) <= 1);
                    }
                }
                l.lemma_id_seq_distinct();
                r.lemma_id_seq_distinct();
                let ls = l.id_seq();
                let rs = r.id_seq();
                let s = seq![node.gnome_id] + ls + rs;
                assert(s == self.id_seq());
                assert forall|i: int, j: int| 0 <= i < j < s.len() implies s[i] != s[j] by {
                    let x = s[j];
                    if s[i] == x {
                        l.lemma_id_seq_has(x.0);
                        r.lemma_id_seq_has(x.0);
                        assert(self.count(x.0) <= 1);
                        if i == 0 {
                            if j < 1 + ls.len() {
                                assert(ls[j - 1] == x);
                                assert(ls.contains(x));
                            } else {
                                assert(rs[j - 1 - ls.len()] == x);
                                assert(rs.contains(x));
                            }
                        } else if i < 1 + ls.len() {
                            assert(ls[i - 1] == x);
                            assert(ls.contains(x));
                            if j >= 1 + ls.len() {
                                assert(rs[j - 1 - ls.len()] == x);
                                assert(rs.contains(x));
                            }
                        } else {
                            assert(rs[i - 1 - ls.len()] == x);
                            assert(rs[j - 1 - ls.len()] == x);
                        }
                    }
                }
            },
        }
    }

    pub fn create() -> (res: Self)
        ensures
            res.wf(),
            res.level() == 0,
            res.height() == 0,
            forall|id: u64| #[trigger] res.count(id) == 0,
            res.closest_first(),
            res.no_duplicates(),
    {
        assert((u64::MAX >> 1u64) <= u64::MAX - (u64::MAX >> 1u64)) by (bit_vector);
        CapabiliTree::Empty(0, u64::MAX >> 1u64)
    }

    pub fn contains(&self, gnome_id: &GnomeId) -> (res: bool)
        requires
            self.wf(),
        ensures
            res == self.has(gnome_id.0),
        decreases self,
    {
        match self {
            CapabiliTree::Empty(_l, _m) => false,
            CapabiliTree::Filled(node) => node.contains(gnome_id),
        }
    }

    pub fn insert(&mut self, gnome_id: GnomeId)
        requires
            old(self).wf(),
            old(self).can_grow(),
        ensures
            final(self).wf(),
            final(self).level() == old(self).level(),
            final(self).height() <= old(self).height() + 1,
            forall|id: u64| #[trigger] final(self).has(id) == (old(self).has(id) || id == gnome_id.0),
            forall|id: u64|
                id != gnome_id.0 ==> #[trigger] final(self).count(id) <= old(self).count(id),
            final(self).count(gnome_id.0) <= old(self).count(gnome_id.0) + 1,
            old(self).no_duplicates() && !old(self).has(gnome_id.0) ==> forall|id: u64|
                #[trigger] final(self).count(id) == old(self).count(id) + if id == gnome_id.0 {
                    1nat
                } else {
                    0nat
                },
            old(self).closest_first() ==> final(self).closest_first(),
            old(self).closest_first() && old(self).has(gnome_id.0) ==> *final(self) == *old(self),
            old(self).closest_first() && old(self).no_duplicates() ==> final(self).no_duplicates(),
        decreases *old(self),
    {
        let mut tree = CapabiliTree::Empty(0, 0);
        std::mem::swap(self, &mut tree);
        match tree {
            CapabiliTree::Empty(level, midpoint) => {
                let new_level = level + 1;
                proof {
                    lemma_half_span_step(level);
                }
                let shift = u64::MAX >> ((new_level + 1) as u64);
                let midpoint_left = midpoint - shift;
                let midpoint_right = midpoint + shift;
                let leaf = CapabiLeaf {
                    level: level,
                    midpoint: midpoint,
                    gnome_id,
                    left: CapabiliTree::Empty(new_level, midpoint_left),
                    right: CapabiliTree::Empty(new_level, midpoint_right),
                };
                proof {
                    leaf.lemma_unfold();
                }
                *self = CapabiliTree::Filled(Box::new(leaf));
            },
            CapabiliTree::Filled(mut node) => {
                (&mut *node).insert(gnome_id);
                *self = CapabiliTree::Filled(node);
            },
        }
    }

    pub fn remove(&mut self, gnome_id: GnomeId) -> (res: bool)
        requires
            old(self).wf(),
        ensures
            !res,
            final(self).wf(),
            final(self).level() == old(self).level(),
            final(self).height() <= old(self).height(),
            forall|id: u64| #[trigger]
                final(self).count(id) == if id == gnome_id.0 && old(self).count(id) > 0 {
                    (old(self).count(id) - 1) as nat
                } else {
                    old(self).count(id)
                },
            old(self).no_duplicates() ==> final(self).no_duplicates() && !final(self).has(gnome_id.0),
        decreases *old(self),
    {
        let mut tree = CapabiliTree::Empty(0, 0);
        std::mem::swap(self, &mut tree);
        match tree {
            CapabiliTree::Filled(mut node) => {
                let collapse = (&mut *node).remove(gnome_id);
                if collapse {
                    *self = CapabiliTree::Empty(node.level, node.midpoint);
                    proof {
                        lemma_half_span_step(node.level);
                    }
                } else {
                    *self = CapabiliTree::Filled(node);
                }
            },
            CapabiliTree::Empty(l, m) => {
                *self = CapabiliTree::Empty(l, m);
            },
        }
        false
    }

    pub fn empty(&self) -> (res: bool)
        ensures
            res == (self is Empty),
    {
        matches!(self, CapabiliTree::Empty(_l, _m))
    }

    pub fn id_vec(&self) -> (res: Vec<GnomeId>)
        ensures
            res@ == self.id_seq(),
            forall|id: u64| #[trigger] res@.contains(GnomeId(id)) == self.has(id),
            self.no_duplicates() ==> res@.no_duplicates(),
        decreases self,
    {
        proof {
            if self.no_duplicates() {
                self.lemma_id_seq_distinct();
            }
            assert forall|id: u64| #[trigger] self.id_seq().contains(GnomeId(id)) == self.has(id) by {
                self.lemma_id_seq_has(id);
            }
        }
        match self {
            CapabiliTree::Empty(_l, _m) => Vec::new(),
            CapabiliTree::Filled(node) => node.id_vec(),
        }
    }

    /// Listing all members is not provided by this structure: the result is
    /// always empty.
    pub fn get_all_members(&self) -> (res: Vec<GnomeId>)
        ensures
            res@.len() == 0,
    {
        Vec::new()
    }

    fn gnome_id(&self) -> (res: Option<GnomeId>)
        ensures
            self is Empty ==> res is None,
            self matches CapabiliTree::Filled(node) ==> res == Some(node.gnome_id),
    {
        match self {
            CapabiliTree::Empty(_l, _i) => None,
            CapabiliTree::Filled(node) => Some(node.gnome_id),
        }
    }
}

pub open spec fn abs_diff(a: u64, b: u64) -> u64 {
    if a > b {
        (a - b) as u64
    } else {
        (b - a) as u64
    }
}

fn exec_abs_diff(a: u64, b: u64) -> (res: u64)
    ensures
        res == abs_diff(a, b),
{
    if a > b {
        a - b
    } else {
        b - a
    }
}

impl CapabiLeaf {
    /// The id this node holds.
    pub closed spec fn node_id(self) -> GnomeId {
        self.gnome_id
    }

    /// The middle of the id range this node covers.
    pub closed spec fn mid(self) -> u64 {
        self.midpoint
    }

    /// The subtree of ids up to the midpoint.
    pub closed spec fn left_tree(self) -> CapabiliTree {
        self.left
    }

    /// The subtree of ids above the midpoint.
    pub closed spec fn right_tree(self) -> CapabiliTree {
        self.right
    }

    /// The id that moves up into this node when its own id is removed: the
    /// root of the only filled child, or, of two, the root closer to the
    /// midpoint, the right one on a tie.
    pub open spec fn promoted(self) -> GnomeId {
        let l = self.left_tree().root_id();
        let r = self.right_tree().root_id();
        if r is None {
            l.unwrap()
        } else if l is None {
            r.unwrap()
        } else if abs_diff(l.unwrap().0, self.mid()) < abs_diff(r.unwrap().0, self.mid()) {
            l.unwrap()
        } else {
            r.unwrap()
        }
    }

    /// The tree whose root is this node.
    pub closed spec fn as_tree(self) -> CapabiliTree {
        CapabiliTree::Filled(Box::new(self))
    }

    proof fn lemma_unfold(self)
        ensures
            forall|id: u64| #[trigger]
                self.as_tree().count(id) == (if self.gnome_id.0 == id {
                    1nat
                } else {
                    0nat
                }) + self.left.count(id) + self.right.count(id),
            self.as_tree().height() == 1 + if self.left.height() > self.right.height() {
                self.left.height()
            } else {
                self.right.height()
            },
            self.as_tree().level() == self.level,
            self.as_tree().wf() == ({
                &&& self.level <= 61
                &&& half_span(self.level) <= self.midpoint
                &&& self.midpoint <= u64::MAX - half_span(self.level)
                &&& self.left.level() == self.level + 1
                &&& self.right.level() == self.level + 1
                &&& forall|id: u64| #[trigger] self.left.has(id) ==> id <= self.midpoint
                &&& forall|id: u64| #[trigger] self.right.has(id) ==> id > self.midpoint
                &&& self.left.wf()
                &&& self.right.wf()
            }),
            self.as_tree().closest_first() == ({
                &&& forall|id: u64| #[trigger] self.left.has(id) ==> abs_diff(self.gnome_id.0, self.midpoint)
                    <= abs_diff(id, self.midpoint)
                &&& forall|id: u64| #[trigger] self.right.has(id) ==> abs_diff(self.gnome_id.0, self.midpoint)
                    <= abs_diff(id, self.midpoint)
                &&& self.left.closest_first()
                &&& self.right.closest_first()
            }),
    {
    }

    proof fn lemma_shrunk_children_wf(pre: Self, post: Self)
        requires
            pre.as_tree().wf(),
            post.level == pre.level,
            post.midpoint == pre.midpoint,
            post.left.wf(),
            post.right.wf(),
            post.left.level() == pre.left.level(),
            post.right.level() == pre.right.level(),
            forall|id: u64| #[trigger] post.left.count(id) <= pre.left.count(id),
            forall|id: u64| #[trigger] post.right.count(id) <= pre.right.count(id),
        ensures
            post.as_tree().wf(),
    {
        pre.lemma_unfold();
        post.lemma_unfold();
        assert forall|id: u64| #[trigger] post.left.has(id) implies id <= post.midpoint by {
            assert(pre.left.count(id) > 0);
            assert(pre.left.has(id));
        }
        assert forall|id: u64| #[trigger] post.right.has(id) implies id > post.midpoint by {
            assert(pre.right.count(id) > 0);
            assert(pre.right.has(id));
        }
    }

    pub fn insert(&mut self, gnome_id: GnomeId)
        requires
            old(self).as_tree().wf(),
            old(self).as_tree().can_grow(),
        ensures
            final(self).as_tree().wf(),
            final(self).as_tree().level() == old(self).as_tree().level(),
            final(self).as_tree().height() <= old(self).as_tree().height() + 1,
            forall|id: u64| #[trigger]
                final(self).as_tree().has(id) == (old(self).as_tree().has(id) || id
                    == gnome_id.0),
            forall|id: u64|
                id != gnome_id.0 ==> #[trigger] final(self).as_tree().count(id) <= old(
                    self,
                ).as_tree().count(id),
            final(self).as_tree().count(gnome_id.0) <= old(self).as_tree().count(gnome_id.0) + 1,
            old(self).as_tree().no_duplicates() && !old(self).as_tree().has(gnome_id.0)
                ==> forall|id: u64| #[trigger]
                final(self).as_tree().count(id) == old(self).as_tree().count(id) + if id
                    == gnome_id.0 {
                    1nat
                } else {
                    0nat
                },
            final(self).mid() == old(self).mid(),
            final(self).as_tree().root_id() == Some(
                if abs_diff(gnome_id.0, old(self).mid()) < abs_diff(old(self).node_id().0, old(self).mid()) {
                    gnome_id
                } else {
                    old(self).node_id()
                },
            ),
            old(self).as_tree().closest_first() ==> final(self).as_tree().closest_first(),
            old(self).as_tree().closest_first() && old(self).as_tree().has(gnome_id.0) ==> *final(self)
                == *old(self),
        decreases *old(self),
    {
        let ghost pre = *self;
        proof {
            pre.lemma_unfold();
        }
        let old_diff = exec_abs_diff(self.gnome_id.0, self.midpoint);
        let new_diff = exec_abs_diff(gnome_id.0, self.midpoint);
        if old_diff > new_diff {
            let old_id = self.gnome_id;
            self.gnome_id = gnome_id;
            if old_id.0 > self.midpoint {
                self.right.insert(old_id);
            } else {
                self.left.insert(old_id);
            }
            proof {
                let post = *self;
                post.lemma_unfold();
                assert(old_id.0 != gnome_id.0);
                if pre.as_tree().closest_first() {
                    if pre.as_tree().has(gnome_id.0) {
                        assert(pre.left.has(gnome_id.0) || pre.right.has(gnome_id.0));
                    }
                    assert forall|id: u64| #[trigger] post.left.has(id) implies abs_diff(post.gnome_id.0, post.midpoint)
                        <= abs_diff(id, post.midpoint) by {
                        assert(pre.left.has(id) || id == old_id.0);
                    }
                    assert forall|id: u64| #[trigger] post.right.has(id) implies abs_diff(post.gnome_id.0, post.midpoint)
                        <= abs_diff(id, post.midpoint) by {
                        assert(pre.right.has(id) || id == old_id.0);
                    }
                }
                assert forall|id: u64| #[trigger] post.left.has(id) implies id
                    <= post.midpoint by {
                    assert(pre.left.has(id) || id == old_id.0);
                }
                assert forall|id: u64| #[trigger] post.right.has(id) implies id
                    > post.midpoint by {
                    assert(pre.right.has(id) || id == old_id.0);
                }
                assert forall|id: u64| #[trigger]
                    post.as_tree().has(id) == (pre.as_tree().has(id) || id == gnome_id.0) by {
                    assert(post.left.has(id) == (pre.left.has(id) || (id == old_id.0
                        && old_id.0 <= pre.midpoint)));
                    assert(post.right.has(id) == (pre.right.has(id) || (id == old_id.0
                        && old_id.0 > pre.midpoint)));
                }
                assert forall|id: u64|
                    id != gnome_id.0 implies #[trigger] post.as_tree().count(id)
                    <= pre.as_tree().count(id) by {
                    assert(post.left.count(id) <= pre.left.count(id) + if id == old_id.0 {
                        1nat
                    } else {
                        0nat
                    });
                    assert(post.right.count(id) <= pre.right.count(id) + if id == old_id.0 {
                        1nat
                    } else {
                        0nat
                    });
                }
                if pre.as_tree().no_duplicates() && !pre.as_tree().has(gnome_id.0) {
                    assert(pre.as_tree().count(old_id.0) <= 1);
                    assert(!pre.left.has(old_id.0) && !pre.right.has(old_id.0));
                    assert(pre.left.no_duplicates()) by {
                        assert forall|id: u64| #[trigger] pre.left.count(id) <= 1 by {
                            assert(pre.as_tree().count(id) <= 1);
                        }
                    }
                    assert(pre.right.no_duplicates()) by {
                        assert forall|id: u64| #[trigger] pre.right.count(id) <= 1 by {
                            assert(pre.as_tree().count(id) <= 1);
                        }
                    }
                }
            }
        } else if gnome_id.0 > self.midpoint {
            if gnome_id != self.gnome_id {
                self.right.insert(gnome_id);
                proof {
                    let post = *self;
                    post.lemma_unfold();
                    assert forall|id: u64| #[trigger] post.right.has(id) implies id
                        > post.midpoint by {
                        assert(pre.right.has(id) || id == gnome_id.0);
                    }
                    if pre.as_tree().closest_first() {
                        assert forall|id: u64| #[trigger] post.right.has(id) implies abs_diff(post.gnome_id.0, post.midpoint)
                            <= abs_diff(id, post.midpoint) by {
                            assert(pre.right.has(id) || id == gnome_id.0);
                        }
                        if pre.as_tree().has(gnome_id.0) {
                            assert(!pre.left.has(gnome_id.0));
                            assert(pre.right.has(gnome_id.0));
                            assert(post == pre);
                        }
                    }
                    assert forall|id: u64| #[trigger]
                        post.as_tree().has(id) == (pre.as_tree().has(id) || id
                            == gnome_id.0) by {
                        assert(post.right.has(id) == (pre.right.has(id) || id == gnome_id.0));
                    }
                    if pre.as_tree().no_duplicates() && !pre.as_tree().has(gnome_id.0) {
                        assert(pre.right.no_duplicates()) by {
                            assert forall|id: u64| #[trigger] pre.right.count(id) <= 1 by {
                                assert(pre.as_tree().count(id) <= 1);
                            }
                        }
                    }
                }
            }
        } else if gnome_id != self.gnome_id {
            self.left.insert(gnome_id);
            proof {
                let post = *self;
                post.lemma_unfold();
                assert forall|id: u64| #[trigger] post.left.has(id) implies id
                    <= post.midpoint by {
                    assert(pre.left.has(id) || id == gnome_id.0);
                }
                if pre.as_tree().closest_first() {
                    assert forall|id: u64| #[trigger] post.left.has(id) implies abs_diff(post.gnome_id.0, post.midpoint)
                        <= abs_diff(id, post.midpoint) by {
                        assert(pre.left.has(id) || id == gnome_id.0);
                    }
                    if pre.as_tree().has(gnome_id.0) {
                        assert(!pre.right.has(gnome_id.0));
                        assert(pre.left.has(gnome_id.0));
                        assert(post == pre);
                    }
                }
                assert forall|id: u64| #[trigger]
                    post.as_tree().has(id) == (pre.as_tree().has(id) || id == gnome_id.0) by {
                    assert(post.left.has(id) == (pre.left.has(id) || id == gnome_id.0));
                }
                if pre.as_tree().no_duplicates() && !pre.as_tree().has(gnome_id.0) {
                    assert(pre.left.no_duplicates()) by {
                        assert forall|id: u64| #[trigger] pre.left.count(id) <= 1 by {
                            assert(pre.as_tree().count(id) <= 1);
                        }
                    }
                }
            }
        }
        proof {
            let post = *self;
            post.lemma_unfold();
        }
    }

    pub fn remove(&mut self, gnome_id: GnomeId) -> (res: bool)
        requires
            old(self).as_tree().wf(),
        ensures
            final(self).as_tree().wf(),
            final(self).as_tree().level() == old(self).as_tree().level(),
            final(self).as_tree().height() <= old(self).as_tree().height(),
            res ==> *final(self) == *old(self) && forall|id: u64| #[trigger]
                old(self).as_tree().count(id) == if id == gnome_id.0 {
                    1nat
                } else {
                    0nat
                },
            !res ==> forall|id: u64| #[trigger]
                final(self).as_tree().count(id) == if id == gnome_id.0 && old(
                    self,
                ).as_tree().count(id) > 0 {
                    (old(self).as_tree().count(id) - 1) as nat
                } else {
                    old(self).as_tree().count(id)
                },
            res == (old(self).node_id() == gnome_id && old(self).left_tree() is Empty && old(
                self,
            ).right_tree() is Empty),
            final(self).mid() == old(self).mid(),
            !res ==> final(self).node_id() == if old(self).node_id() == gnome_id {
                old(self).promoted()
            } else {
                old(self).node_id()
            },
        decreases *old(self),
    {
        let ghost pre = *self;
        proof {
            pre.lemma_unfold();
            if pre.left.has(gnome_id.0) {
                assert(gnome_id.0 <= pre.midpoint);
            }
            if pre.right.has(gnome_id.0) {
                assert(gnome_id.0 > pre.midpoint);
            }
        }
        let res = if self.gnome_id == gnome_id {
            let left_empty = self.left.empty();
            let right_empty = self.right.empty();
            if left_empty && right_empty {
                true
            } else if right_empty {
                let new_id = self.left.gnome_id().unwrap();
                self.gnome_id = new_id;
                self.left.remove(new_id);
                false
            } else if left_empty {
                let new_id = self.right.gnome_id().unwrap();
                self.gnome_id = new_id;
                self.right.remove(new_id);
                false
            } else {
                let right_id = self.right.gnome_id().unwrap();
                let left_id = self.left.gnome_id().unwrap();
                let right_diff = exec_abs_diff(right_id.0, self.midpoint);
                let left_diff = exec_abs_diff(left_id.0, self.midpoint);
                if left_diff < right_diff {
                    self.gnome_id = left_id;
                    self.left.remove(left_id);
                } else {
                    self.gnome_id = right_id;
                    self.right.remove(right_id);
                }
                false
            }
        } else if gnome_id.0 > self.midpoint {
            self.right.remove(gnome_id)
        } else {
            self.left.remove(gnome_id)
        };
        proof {
            let post = *self;
            post.lemma_unfold();
            Self::lemma_shrunk_children_wf(pre, post);
        }
        res
    }

    pub fn contains(&self, gnome_id: &GnomeId) -> (res: bool)
        requires
            self.as_tree().wf(),
        ensures
            res == self.as_tree().has(gnome_id.0),
        decreases *self,
    {
        proof {
            self.lemma_unfold();
            if self.left.has(gnome_id.0) {
                assert(gnome_id.0 <= self.midpoint);
            }
            if self.right.has(gnome_id.0) {
                assert(gnome_id.0 > self.midpoint);
            }
        }
        if self.gnome_id == *gnome_id {
            true
        } else if gnome_id.0 > self.midpoint {
            self.right.contains(gnome_id)
        } else {
            self.left.contains(gnome_id)
        }
    }

    pub fn id_vec(&self) -> (res: Vec<GnomeId>)
        ensures
            res@ == self.as_tree().id_seq(),
        decreases *self,
    {
        let mut vector = vec![self.gnome_id];
        let mut l_ver = self.left.id_vec();
        let mut r_ver = self.right.id_vec();
        vector.append(&mut l_ver);
        vector.append(&mut r_ver);
        vector
    }
}

} // verus!

verus! {

/// The tree registered for capability `c`: the first entry with that key.
pub open spec fn capability_tree(caps: Seq<(Capabilities, CapabiliTree)>, c: Capabilities) -> Option<
    CapabiliTree,
>
    decreases caps.len(),
{
    if caps.len() == 0 {
        None
    } else if caps[0].0 == c {
        Some(caps[0].1)
    } else {
        capability_tree(caps.drop_first(), c)
    }
}

/// The index of the first entry registered for capability `c`.
pub open spec fn capability_index(caps: Seq<(Capabilities, CapabiliTree)>, c: Capabilities) -> int
    decreases caps.len(),
{
    if caps.len() == 0 {
        -1
    } else if caps[0].0 == c {
        0
    } else {
        let i = capability_index(caps.drop_first(), c);
        if i < 0 {
            -1
        } else {
            i + 1
        }
    }
}

/// `capability_index` is the first position of a capability in a registry,
/// and `capability_tree` gives the tree found there.
pub proof fn lemma_capability_index(caps: Seq<(Capabilities, CapabiliTree)>, c: Capabilities)
    ensures
        capability_index(caps, c) < caps.len(),
        capability_index(caps, c) >= 0 ==> capability_tree(caps, c) == Some(
            caps[capability_index(caps, c)].1,
        ) && caps[capability_index(caps, c)].0 == c,
        capability_index(caps, c) < 0 <==> capability_tree(caps, c) is None,
        capability_index(caps, c) < 0 <==> forall|i: int| 0 <= i < caps.len() ==> caps[i].0 != c,
        forall|i: int| 0 <= i < capability_index(caps, c) ==> caps[i].0 != c,
    decreases caps.len(),
{
    if caps.len() > 0 && caps[0].0 != c {
        lemma_capability_index(caps.drop_first(), c);
        assert forall|i: int| 1 <= i < caps.len() implies caps[i].0 == caps.drop_first()[i - 1].0 by {}
    }
}

/// Position of the entry for `c` in a capability registry, if there is one.
pub fn find_capability(caps: &Vec<(Capabilities, CapabiliTree)>, c: &Capabilities) -> (res: Option<usize>)
    ensures
        res matches Some(i) ==> i == capability_index(caps@, *c) && i < caps@.len(),
        res is None ==> capability_index(caps@, *c) < 0,
{
    proof {
        lemma_capability_index(caps@, *c);
    }
    let mut i: usize = 0;
    while i < caps.len()
        invariant
            i <= caps@.len(),
            forall|k: int| 0 <= k < i ==> caps@[k].0 != *c,
            capability_index(caps@, *c) < caps@.len(),
            forall|k: int| 0 <= k < capability_index(caps@, *c) ==> caps@[k].0 != *c,
            capability_index(caps@, *c) >= 0 ==> caps@[capability_index(caps@, *c)].0 == *c,
            capability_index(caps@, *c) < 0 <==> forall|k: int| 0 <= k < caps@.len() ==> caps@[k].0 != *c,
        decreases caps@.len() - i,
    {
        if caps[i].0 == *c {
            return Some(i);
        }
        i = i + 1;
    }
    None
}

} // verus!
