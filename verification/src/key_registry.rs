use vstd::prelude::*;

use crate::gnome::{u64_from_be, GnomeId};

verus! {

/// A fixed-size registry of public keys, most recently inserted first. Slots
/// that were never filled hold the id `0` and an empty key.
#[derive(Clone, Debug, PartialEq, Eq)]
pub enum KeyRegistry {
    Reg8(Vec<(GnomeId, Vec<u8>)>),
    Reg32(Vec<(GnomeId, Vec<u8>)>),
    Reg64(Vec<(GnomeId, Vec<u8>)>),
    Reg128(Vec<(GnomeId, Vec<u8>)>),
    Reg256(Vec<(GnomeId, Vec<u8>)>),
    Reg512(Vec<(GnomeId, Vec<u8>)>),
    Reg1024(Vec<(GnomeId, Vec<u8>)>),
}

/// A registry slot as plain values: the gnome id and its key bytes.
pub type Slot = (u64, Seq<u8>);

pub open spec fn slot_view(e: (GnomeId, Vec<u8>)) -> Slot {
    (e.0.0, e.1@)
}

pub open spec fn slots_view(v: Seq<(GnomeId, Vec<u8>)>) -> Seq<Slot> {
    v.map_values(|e: (GnomeId, Vec<u8>)| slot_view(e))
}

/// Where an insertion ends the shift: the first slot before the last one that
/// holds the inserted id or is unused; the last slot when there is none.
pub open spec fn insert_position_from(s: Seq<Slot>, id: u64, k: int) -> int
    decreases s.len() - k,
{
    if k >= s.len() - 1 {
        s.len() - 1
    } else if s[k].0 == id || s[k].0 == 0 {
        k
    } else {
        insert_position_from(s, id, k + 1)
    }
}

pub open spec fn insert_position(s: Seq<Slot>, id: u64) -> int {
    insert_position_from(s, id, 0)
}

/// The slots after inserting `(id, key)`: it goes first, every slot before the
/// insert position moves one place back, and the slot at that position is
/// dropped.
pub open spec fn registry_insert(s: Seq<Slot>, id: u64, key: Seq<u8>) -> Seq<Slot> {
    let j = insert_position(s, id);
    seq![(id, key)] + s.take(j) + s.skip(j + 1)
}

/// Index of the first slot holding `id`, or `-1`.
pub open spec fn first_slot_from(s: Seq<Slot>, id: u64, k: int) -> int
    decreases s.len() - k,
{
    if k >= s.len() {
        -1
    } else if s[k].0 == id {
        k
    } else {
        first_slot_from(s, id, k + 1)
    }
}

pub open spec fn first_slot(s: Seq<Slot>, id: u64) -> int {
    first_slot_from(s, id, 0)
}

/// The key registered for `id`: the key of its first slot.
pub open spec fn registry_get(s: Seq<Slot>, id: u64) -> Option<Seq<u8>> {
    let i = first_slot(s, id);
    if i < 0 {
        None
    } else {
        Some(s[i].1)
    }
}

pub open spec fn used_prefix_len(s: Seq<Slot>) -> int {
    if first_slot(s, 0) < 0 {
        s.len() as int
    } else {
        first_slot(s, 0)
    }
}

/// The number of slots of the registry with the given size byte.
pub open spec fn capacity_of_size(size: u8) -> nat {
    if size == 2 {
        32
    } else if size == 3 {
        64
    } else if size == 4 {
        128
    } else if size == 5 {
        256
    } else if size == 6 {
        512
    } else if size == 7 {
        1024
    } else {
        8
    }
}

/// The insert position is the first slot from `k` on that holds `id` or is
/// unused, or else the last slot.
pub proof fn lemma_insert_position(s: Seq<Slot>, id: u64, k: int)
    requires
        s.len() >= 1,
        0 <= k <= s.len() - 1,
    ensures
        k <= insert_position_from(s, id, k) <= s.len() - 1,
        forall|i: int|
            k <= i < insert_position_from(s, id, k) ==> s[i].0 != id && s[i].0 != 0,
        insert_position_from(s, id, k) < s.len() - 1 ==> (s[insert_position_from(s, id, k)].0
            == id || s[insert_position_from(s, id, k)].0 == 0),
    decreases s.len() - k,
{
    if k < s.len() - 1 && !(s[k].0 == id || s[k].0 == 0) {
        lemma_insert_position(s, id, k + 1);
    }
}

/// `first_slot_from` is the first slot from `k` on that holds `id`, or `-1`.
pub proof fn lemma_first_slot(s: Seq<Slot>, id: u64, k: int)
    requires
        0 <= k <= s.len(),
    ensures
        first_slot_from(s, id, k) == -1 || k <= first_slot_from(s, id, k) < s.len(),
        first_slot_from(s, id, k) >= 0 ==> s[first_slot_from(s, id, k)].0 == id,
        forall|i: int|
            k <= i < (if first_slot_from(s, id, k) < 0 {
                s.len() as int
            } else {
                first_slot_from(s, id, k)
            }) ==> s[i].0 != id,
    decreases s.len() - k,
{
    if k < s.len() && s[k].0 != id {
        lemma_first_slot(s, id, k + 1);
    }
}

/// Insert `(gnome_id, key)` into a full registry array of at least one slot.
fn insert_into(gnome_id: GnomeId, key: Vec<u8>, array: &mut Vec<(GnomeId, Vec<u8>)>)
    requires
        old(array)@.len() >= 1,
    ensures
        slots_view(final(array)@) == registry_insert(slots_view(old(array)@), gnome_id.0, key@),
        final(array)@.len() == old(array)@.len(),
{
    let ghost s = slots_view(array@);
    proof {
        lemma_insert_position(s, gnome_id.0, 0);
    }
    let n = array.len();
    let mut j: usize = 0;
    while j < n - 1 && !(array[j].0.0 == gnome_id.0 || array[j].0.0 == 0)
        invariant
            n == array@.len(),
            n >= 1,
            s == slots_view(array@),
            0 <= j <= n - 1,
            insert_position_from(s, gnome_id.0, 0) == insert_position_from(s, gnome_id.0, j as int),
        decreases n - 1 - j,
    {
        proof {
            assert(s[j as int].0 == array@[j as int].0.0);
        }
        j = j + 1;
    }
    proof {
        if j < n - 1 {
            assert(s[j as int].0 == array@[j as int].0.0);
            assert(insert_position_from(s, gnome_id.0, j as int) == j);
        }
        assert(insert_position(s, gnome_id.0) == j);
    }
    array.remove(j);
    array.insert(0, (gnome_id, key));
    proof {
        assert(slots_view(array@) =~= registry_insert(s, gnome_id.0, key@));
    }
}

/// The key of the first slot holding `gnome_id`.
fn get_from(gnome_id: GnomeId, array: &Vec<(GnomeId, Vec<u8>)>) -> (res: Option<Vec<u8>>)
    ensures
        res matches Some(k) ==> registry_get(slots_view(array@), gnome_id.0) == Some(k@),
        res is None ==> registry_get(slots_view(array@), gnome_id.0) is None,
{
    let ghost s = slots_view(array@);
    proof {
        lemma_first_slot(s, gnome_id.0, 0);
    }
    let mut i: usize = 0;
    while i < array.len()
        invariant
            s == slots_view(array@),
            i <= array@.len(),
            first_slot_from(s, gnome_id.0, 0) == first_slot_from(s, gnome_id.0, i as int),
        decreases array@.len() - i,
    {
        if array[i].0.0 == gnome_id.0 {
            assert(first_slot_from(s, gnome_id.0, i as int) == i);
            return Some(array[i].1.clone());
        }
        i = i + 1;
    }
    None
}

fn has_in(gnome_id: GnomeId, array: &Vec<(GnomeId, Vec<u8>)>) -> (res: bool)
    ensures
        res == (first_slot(slots_view(array@), gnome_id.0) >= 0),
{
    let ghost s = slots_view(array@);
    let mut i: usize = 0;
    while i < array.len()
        invariant
            s == slots_view(array@),
            i <= array@.len(),
            first_slot_from(s, gnome_id.0, 0) == first_slot_from(s, gnome_id.0, i as int),
        decreases array@.len() - i,
    {
        if array[i].0.0 == gnome_id.0 {
            return true;
        }
        i = i + 1;
    }
    false
}

/// The used slots, four to a chunk, in order; only the last chunk may be
/// shorter.
fn chunks_of(array: &Vec<(GnomeId, Vec<u8>)>) -> (res: Vec<Vec<(GnomeId, Vec<u8>)>>)
    ensures
        chunks_match(res@.map_values(|c: Vec<(GnomeId, Vec<u8>)>| slots_view(c@)), used_prefix_len(slots_view(array@)), slots_view(array@)),
{
    let ghost s = slots_view(array@);
    proof {
        lemma_first_slot(s, 0, 0);
    }
    let mut total: Vec<Vec<(GnomeId, Vec<u8>)>> = Vec::new();
    let mut bytes: Vec<(GnomeId, Vec<u8>)> = Vec::new();
    let mut i: usize = 0;
    while i < array.len() && array[i].0.0 != 0
        invariant
            s == slots_view(array@),
            i <= used_prefix_len(s),
            used_prefix_len(s) <= s.len(),
            forall|k: int| 0 <= k < used_prefix_len(s) ==> s[k].0 != 0,
            used_prefix_len(s) < s.len() ==> s[used_prefix_len(s)].0 == 0,
            bytes@.len() <= 4,
            total@.len() * 4 + bytes@.len() == i,
            i > 0 ==> bytes@.len() > 0,
            slots_view(bytes@) == s.subrange(total@.len() as int * 4, i as int),
            forall|c: int| 0 <= c < total@.len() ==> #[trigger] slots_view(total@[c]@) == s.subrange(c * 4, c * 4 + 4),
        decreases array@.len() - i,
    {
        if bytes.len() == 4 {
            total.push(bytes);
            bytes = Vec::new();
            proof {
                assert(slots_view(bytes@) =~= s.subrange(total@.len() as int * 4, i as int));
            }
        }
        bytes.push((array[i].0, array[i].1.clone()));
        proof {
            assert(s[i as int].0 == array@[i as int].0.0);
            assert(slots_view(bytes@) =~= s.subrange(total@.len() as int * 4, i + 1));
        }
        i = i + 1;
    }
    let ghost t = total@.len();
    if bytes.len() > 0 {
        total.push(bytes);
    }
    proof {
        let n = used_prefix_len(s);
        if i < array@.len() {
            assert(s[i as int].0 == array@[i as int].0.0);
        }
        assert(i == n);
        let cs = total@.map_values(|c: Vec<(GnomeId, Vec<u8>)>| slots_view(c@));
        assert forall|c: int| 0 <= c < cs.len() implies #[trigger] cs[c] == s.subrange(
            c * 4,
            if c * 4 + 4 < n {
                c * 4 + 4
            } else {
                n
            },
        ) by {
            assert(cs[c] == slots_view(total@[c]@));
        }
    }
    total
}

/// `cs` is the first `n` slots of `s`, cut into chunks of four.
pub open spec fn chunks_match(cs: Seq<Seq<Slot>>, n: int, s: Seq<Slot>) -> bool {
    &&& cs.len() == (n + 3) / 4
    &&& forall|c: int|
        0 <= c < cs.len() ==> #[trigger] cs[c] == s.subrange(
            c * 4,
            if c * 4 + 4 < n {
                c * 4 + 4
            } else {
                n
            },
        )
}

} // verus!

verus! {

/// The number of entries announced by a serialized registry header.
pub open spec fn header_count(bytes: Seq<u8>) -> nat {
    (bytes[1] as nat) * 256 + bytes[2] as nat
}

/// The size byte of the registry a serialized header asks for.
pub open spec fn header_size(bytes: Seq<u8>) -> u8 {
    if 1 <= bytes[0] <= 7 {
        bytes[0]
    } else {
        1
    }
}

/// Entry `i` of a serialized registry body: 8 bytes of id, then 74 bytes of key.
pub open spec fn body_entry(body: Seq<u8>, i: int) -> Slot {
    (u64_from_be(body.subrange(82 * i, 82 * i + 8)), body.subrange(82 * i + 8, 82 * i + 82))
}

/// The slots after inserting the first `k` entries of a serialized body into `s`.
pub open spec fn insert_entries(s: Seq<Slot>, body: Seq<u8>, k: nat) -> Seq<Slot>
    decreases k,
{
    if k == 0 {
        s
    } else {
        let prev = insert_entries(s, body, (k - 1) as nat);
        let e = body_entry(body, k - 1);
        registry_insert(prev, e.0, e.1)
    }
}

/// The slots of a registry of `n` unused slots.
pub open spec fn unused_slots(n: nat) -> Seq<Slot> {
    Seq::new(n, |i: int| (0u64, Seq::<u8>::empty()))
}

impl View for KeyRegistry {
    type V = Seq<Slot>;

    open spec fn view(&self) -> Seq<Slot> {
        slots_view(self.slots())
    }
}

fn unused_array(n: usize) -> (res: Vec<(GnomeId, Vec<u8>)>)
    ensures
        res@.len() == n,
        slots_view(res@) == unused_slots(n as nat),
{
    let mut v: Vec<(GnomeId, Vec<u8>)> = Vec::with_capacity(n);
    let mut i: usize = 0;
    while i < n
        invariant
            i <= n,
            v@.len() == i,
            slots_view(v@) == unused_slots(i as nat),
        decreases n - i,
    {
        let e: Vec<u8> = Vec::new();
        assert(e@ == Seq::<u8>::empty());
        let ghost before = v@;
        v.push((GnomeId(0), e));
        proof {
            assert forall|k: int| 0 <= k < i + 1 implies #[trigger] slots_view(v@)[k] == unused_slots((i + 1) as nat)[k] by {
                if k < i {
                    assert(v@[k] == before[k]);
                    assert(slots_view(before)[k] == unused_slots(i as nat)[k]);
                }
            }
            assert(slots_view(v@) =~= unused_slots((i + 1) as nat));
        }
        i = i + 1;
    }
    v
}

impl KeyRegistry {
    /// The slots of the registry.
    pub open spec fn slots(self) -> Seq<(GnomeId, Vec<u8>)> {
        match self {
            KeyRegistry::Reg8(v) => v@,
            KeyRegistry::Reg32(v) => v@,
            KeyRegistry::Reg64(v) => v@,
            KeyRegistry::Reg128(v) => v@,
            KeyRegistry::Reg256(v) => v@,
            KeyRegistry::Reg512(v) => v@,
            KeyRegistry::Reg1024(v) => v@,
        }
    }

    /// The byte that names the registry's size.
    pub open spec fn size_spec(self) -> u8 {
        match self {
            KeyRegistry::Reg8(_v) => 1,
            KeyRegistry::Reg32(_v) => 2,
            KeyRegistry::Reg64(_v) => 3,
            KeyRegistry::Reg128(_v) => 4,
            KeyRegistry::Reg256(_v) => 5,
            KeyRegistry::Reg512(_v) => 6,
            KeyRegistry::Reg1024(_v) => 7,
        }
    }

    /// The registry holds as many slots as its size names.
    pub open spec fn wf(self) -> bool {
        self.slots().len() == capacity_of_size(self.size_spec())
    }

    pub fn new8() -> (res: Self)
        ensures
            res.wf(),
            res.size_spec() == 1,
            res@ == unused_slots(8),
    {
        KeyRegistry::Reg8(unused_array(8))
    }

    pub fn new32() -> (res: Self)
        ensures
            res.wf(),
            res.size_spec() == 2,
            res@ == unused_slots(32),
    {
        KeyRegistry::Reg32(unused_array(32))
    }

    pub fn new64() -> (res: Self)
        ensures
            res.wf(),
            res.size_spec() == 3,
            res@ == unused_slots(64),
    {
        KeyRegistry::Reg64(unused_array(64))
    }

    pub fn new128() -> (res: Self)
        ensures
            res.wf(),
            res.size_spec() == 4,
            res@ == unused_slots(128),
    {
        KeyRegistry::Reg128(unused_array(128))
    }

    pub fn new256() -> (res: Self)
        ensures
            res.wf(),
            res.size_spec() == 5,
            res@ == unused_slots(256),
    {
        KeyRegistry::Reg256(unused_array(256))
    }

    pub fn new512() -> (res: Self)
        ensures
            res.wf(),
            res.size_spec() == 6,
            res@ == unused_slots(512),
    {
        KeyRegistry::Reg512(unused_array(512))
    }

    pub fn new1024() -> (res: Self)
        ensures
            res.wf(),
            res.size_spec() == 7,
            res@ == unused_slots(1024),
    {
        KeyRegistry::Reg1024(unused_array(1024))
    }

    pub fn byte(&self) -> (res: u8)
        ensures
            res == self.size_spec(),
    {
        match self {
            KeyRegistry::Reg8(_arr) => 1,
            KeyRegistry::Reg32(_arr) => 2,
            KeyRegistry::Reg64(_arr) => 3,
            KeyRegistry::Reg128(_arr) => 4,
            KeyRegistry::Reg256(_arr) => 5,
            KeyRegistry::Reg512(_arr) => 6,
            KeyRegistry::Reg1024(_arr) => 7,
        }
    }

    pub fn size_byte(&self) -> (res: u8)
        ensures
            res == self.size_spec(),
    {
        match self {
            KeyRegistry::Reg8(_arr) => 1,
            KeyRegistry::Reg32(_arr) => 2,
            KeyRegistry::Reg64(_arr) => 3,
            KeyRegistry::Reg128(_arr) => 4,
            KeyRegistry::Reg256(_arr) => 5,
            KeyRegistry::Reg512(_arr) => 6,
            KeyRegistry::Reg1024(_arr) => 7,
        }
    }

    fn with_size(size: u8) -> (res: Self)
        ensures
            res.wf(),
            res.size_spec() == (if 1 <= size <= 7 {
                size
            } else {
                1
            }),
            res@ == unused_slots(capacity_of_size(res.size_spec())),
    {
        match size {
            1 => KeyRegistry::new8(),
            2 => KeyRegistry::new32(),
            3 => KeyRegistry::new64(),
            4 => KeyRegistry::new128(),
            5 => KeyRegistry::new256(),
            6 => KeyRegistry::new512(),
            7 => KeyRegistry::new1024(),
            _ => KeyRegistry::new8(),
        }
    }

    pub fn from(bytes: &mut Vec<u8>) -> (res: Self)
        requires
            old(bytes)@.len() >= 3,
            old(bytes)@.len() >= 3 + 82 * header_count(old(bytes)@),
        ensures
            res.wf(),
            res.size_spec() == header_size(old(bytes)@),
            res@ == insert_entries(
                unused_slots(capacity_of_size(header_size(old(bytes)@))),
                old(bytes)@.skip(3),
                header_count(old(bytes)@),
            ),
            final(bytes)@ == old(bytes)@.skip(3 + 82 * header_count(old(bytes)@) as int),
    {
        let ghost start = bytes@;
        let header = bytes[0];
        let count: u16 = (bytes[1] as u16) * 256 + (bytes[2] as u16);
        let mut registry = KeyRegistry::with_size(header);
        let ghost body = start.skip(3);
        let mut pos: usize = 3;
        let mut k: u16 = 0;
        while k < count
            invariant
                bytes@ == start,
                count == header_count(start),
                start.len() >= 3 + 82 * header_count(start),
                k <= count,
                pos == 3 + 82 * k,
                body == start.skip(3),
                registry.wf(),
                registry.size_spec() == header_size(start),
                registry@ == insert_entries(
                    unused_slots(capacity_of_size(header_size(start))),
                    body,
                    k as nat,
                ),
            decreases count - k,
        {
            let id_bytes: [u8; 8] = [
                bytes[pos],
                bytes[pos + 1],
                bytes[pos + 2],
                bytes[pos + 3],
                bytes[pos + 4],
                bytes[pos + 5],
                bytes[pos + 6],
                bytes[pos + 7],
            ];
            let g_id = GnomeId::from(id_bytes);
            let pub_key = vstd::slice::slice_to_vec(&bytes.as_slice()[pos + 8..pos + 82]);
            proof {
                assert(id_bytes@ =~= body.subrange(82 * k, 82 * k + 8));
                assert(pub_key@ =~= body.subrange(82 * k + 8, 82 * k + 82));
            }
            registry.insert(g_id, pub_key);
            pos = pos + 82;
            k = k + 1;
        }
        let rest = vstd::slice::slice_to_vec(&bytes.as_slice()[pos..bytes.len()]);
        proof {
            assert(rest@ =~= start.skip(3 + 82 * header_count(start) as int));
        }
        *bytes = rest;
        registry
    }

    pub fn chunks(&self) -> (res: Vec<Vec<(GnomeId, Vec<u8>)>>)
        ensures
            chunks_match(
                res@.map_values(|c: Vec<(GnomeId, Vec<u8>)>| slots_view(c@)),
                used_prefix_len(self@),
                self@,
            ),
            res@.map_values(|c: Vec<(GnomeId, Vec<u8>)>| slots_view(c@)).flatten() == self@.take(
                used_prefix_len(self@),
            ),
    {
        let res = match self {
            KeyRegistry::Reg8(arr) => chunks_of(arr),
            KeyRegistry::Reg32(arr) => chunks_of(arr),
            KeyRegistry::Reg64(arr) => chunks_of(arr),
            KeyRegistry::Reg128(arr) => chunks_of(arr),
            KeyRegistry::Reg256(arr) => chunks_of(arr),
            KeyRegistry::Reg512(arr) => chunks_of(arr),
            KeyRegistry::Reg1024(arr) => chunks_of(arr),
        };
        proof {
            lemma_chunks_list_used_slots(res@.map_values(|c: Vec<(GnomeId, Vec<u8>)>| slots_view(c@)), self@);
        }
        res
    }

    pub fn insert(&mut self, gnome_id: GnomeId, key: Vec<u8>)
        requires
            old(self).wf(),
        ensures
            final(self).wf(),
            final(self).size_spec() == old(self).size_spec(),
            final(self)@ == registry_insert(old(self)@, gnome_id.0, key@),
    {
        match self {
            KeyRegistry::Reg8(arr) => insert_into(gnome_id, key, arr),
            KeyRegistry::Reg32(arr) => insert_into(gnome_id, key, arr),
            KeyRegistry::Reg64(arr) => insert_into(gnome_id, key, arr),
            KeyRegistry::Reg128(arr) => insert_into(gnome_id, key, arr),
            KeyRegistry::Reg256(arr) => insert_into(gnome_id, key, arr),
            KeyRegistry::Reg512(arr) => insert_into(gnome_id, key, arr),
            KeyRegistry::Reg1024(arr) => insert_into(gnome_id, key, arr),
        }
    }

    pub fn get(&self, gnome_id: GnomeId) -> (res: Option<Vec<u8>>)
        ensures
            res matches Some(k) ==> registry_get(self@, gnome_id.0) == Some(k@),
            res is None ==> registry_get(self@, gnome_id.0) is None,
    {
        match self {
            KeyRegistry::Reg8(arr) => get_from(gnome_id, arr),
            KeyRegistry::Reg32(arr) => get_from(gnome_id, arr),
            KeyRegistry::Reg64(arr) => get_from(gnome_id, arr),
            KeyRegistry::Reg128(arr) => get_from(gnome_id, arr),
            KeyRegistry::Reg256(arr) => get_from(gnome_id, arr),
            KeyRegistry::Reg512(arr) => get_from(gnome_id, arr),
            KeyRegistry::Reg1024(arr) => get_from(gnome_id, arr),
        }
    }

    pub fn has_key(&self, gnome_id: GnomeId) -> (res: bool)
        ensures
            res == (first_slot(self@, gnome_id.0) >= 0),
    {
        match self {
            KeyRegistry::Reg8(arr) => has_in(gnome_id, arr),
            KeyRegistry::Reg32(arr) => has_in(gnome_id, arr),
            KeyRegistry::Reg64(arr) => has_in(gnome_id, arr),
            KeyRegistry::Reg128(arr) => has_in(gnome_id, arr),
            KeyRegistry::Reg256(arr) => has_in(gnome_id, arr),
            KeyRegistry::Reg512(arr) => has_in(gnome_id, arr),
            KeyRegistry::Reg1024(arr) => has_in(gnome_id, arr),
        }
    }
}

/// A registry as its constructors and insertions of non-zero ids leave it:
/// the used slots come first, and no id is used twice.
pub open spec fn registry_reachable(s: Seq<Slot>) -> bool {
    &&& forall|i: int, j: int| #![trigger s[i], s[j]] 0 <= i < j < s.len() && s[i].0 == 0 ==> s[j].0 == 0
    &&& forall|i: int, j: int| #![trigger s[i], s[j]] 0 <= i < j < s.len() && s[i].0 != 0 ==> s[i].0 != s[j].0
}

/// A new registry, all of whose slots are unused, is reachable.
pub proof fn lemma_unused_reachable(n: nat)
    ensures
        registry_reachable(unused_slots(n)),
{
}

/// Inserting a non-zero id keeps a registry reachable: its ids stay
/// distinct, the used slots stay first, and the newest comes first.
pub proof fn lemma_insert_reachable(s: Seq<Slot>, id: u64, key: Seq<u8>)
    requires
        s.len() >= 1,
        id != 0,
        registry_reachable(s),
    ensures
        registry_reachable(registry_insert(s, id, key)),
        registry_insert(s, id, key)[0] == (id, key),
{
    lemma_insert_position(s, id, 0);
    let j = insert_position(s, id);
    let t = registry_insert(s, id, key);
    assert(t.len() == s.len());
    assert forall|k: int| 1 <= k <= j implies #[trigger] t[k] == s[k - 1] by {}
    assert forall|k: int| j < k < t.len() implies #[trigger] t[k] == s[k] by {}
    assert forall|a: int, b: int| #![trigger t[a], t[b]] 0 <= a < b < t.len() && t[a].0 == 0 implies t[b].0 == 0 by {
        assert(a != 0);
        if a <= j {
            assert(t[a] == s[a - 1]);
        } else {
            assert(t[a] == s[a]);
            assert(t[b] == s[b]);
        }
    }
    assert forall|a: int, b: int| #![trigger t[a], t[b]] 0 <= a < b < t.len() && t[a].0 != 0 implies t[a].0 != t[b].0 by {
        if a == 0 {
            if b <= j {
                assert(t[b] == s[b - 1]);
            } else {
                assert(t[b] == s[b]);
                if s[j].0 == 0 {
                    assert(s[b].0 == 0);
                } else if j < s.len() - 1 {
                    assert(s[j].0 == id);
                }
            }
        } else if a <= j {
            assert(t[a] == s[a - 1]);
            if b <= j {
                assert(t[b] == s[b - 1]);
            } else {
                assert(t[b] == s[b]);
            }
        } else {
            assert(t[a] == s[a]);
            assert(t[b] == s[b]);
        }
    }
}

/// In a reachable registry a non-zero id has key `k` exactly where the used
/// slots, the ones that `chunks` lists, hold the pair: lookups and the
/// listing agree.
pub proof fn lemma_get_matches_used(s: Seq<Slot>, id: u64, k: Seq<u8>)
    requires
        id != 0,
        registry_reachable(s),
    ensures
        0 <= used_prefix_len(s) <= s.len(),
        registry_get(s, id) == Some(k) <==> s.take(used_prefix_len(s)).contains((id, k)),
        registry_get(s, id) is Some <==> first_slot(s, id) >= 0,
{
    lemma_first_slot(s, 0, 0);
    lemma_first_slot(s, id, 0);
    let u = used_prefix_len(s);
    let f = first_slot(s, id);
    assert forall|i: int| 0 <= i < s.len() && s[i].0 != 0 implies i < u by {
        if first_slot(s, 0) >= 0 && first_slot(s, 0) <= i {
            let z = first_slot(s, 0);
            if z < i {
                assert(s[i].0 == 0);
            }
        }
    }
    if registry_get(s, id) == Some(k) {
        assert(s.take(u)[f] == (id, k));
    }
    if s.take(u).contains((id, k)) {
        let i = choose|i: int| 0 <= i < s.take(u).len() && s.take(u)[i] == (id, k);
        assert(s[i] == (id, k));
        if f != i {
            assert(f < i);
            assert(s[f].0 == id);
        }
    }
}

/// A key just inserted is what a lookup of its gnome gives back, and the
/// registry keeps its number of slots.
pub proof fn lemma_get_after_insert(s: Seq<Slot>, id: u64, key: Seq<u8>)
    requires
        s.len() >= 1,
    ensures
        registry_get(registry_insert(s, id, key), id) == Some(key),
        registry_insert(s, id, key).len() == s.len(),
        first_slot(registry_insert(s, id, key), id) >= 0,
{
    lemma_insert_position(s, id, 0);
    let t = registry_insert(s, id, key);
    assert(t[0] == (id, key));
}

/// After an insertion the gnome occurs in exactly one slot: the first. Every
/// other gnome keeps its key unless its slot was the one dropped.
pub proof fn lemma_insert_keeps_others(s: Seq<Slot>, id: u64, key: Seq<u8>, other: u64)
    requires
        s.len() >= 1,
        other != id,
        other != 0,
        first_slot(s, other) >= 0,
        first_slot(s, other) != insert_position(s, id),
    ensures
        registry_get(registry_insert(s, id, key), other) == registry_get(s, other),
{
    lemma_insert_position(s, id, 0);
    lemma_first_slot(s, other, 0);
    let t = registry_insert(s, id, key);
    let j = insert_position(s, id);
    let i = first_slot(s, other);
    lemma_first_slot(t, other, 0);
    let ti = if i < j {
        i + 1
    } else {
        i
    };
    assert(t[ti] == s[i]);
    assert forall|m: int| 0 <= m < ti implies t[m].0 != other by {
        if m == 0 {
        } else if m <= j && m - 1 < i {
            assert(t[m] == s[m - 1]);
        } else if m > j {
            assert(t[m] == s[m]);
        }
    }
    if first_slot(t, other) < ti {
        let f = first_slot(t, other);
        assert(t[f].0 == other);
    } else if first_slot(t, other) > ti {
    }
}


/// The chunks from chunk `c0` on, joined, are the slots from `4 * c0` up to
/// the `n`-th.
proof fn lemma_chunks_suffix(cs: Seq<Seq<Slot>>, n: int, s: Seq<Slot>, c0: int)
    requires
        0 <= n <= s.len(),
        chunks_match(cs, n, s),
        0 <= c0 <= cs.len(),
    ensures
        cs.skip(c0).flatten() == s.subrange(if 4 * c0 < n { 4 * c0 } else { n }, n),
    decreases cs.len() - c0,
{
    assert(4 * cs.len() >= n && 4 * (cs.len() - 1) < n) by (nonlinear_arith)
        requires
            cs.len() == (n + 3) / 4,
            n >= 0,
    ;
    if c0 == cs.len() {
        assert(cs.skip(c0) =~= Seq::<Seq<Slot>>::empty());
        assert(s.subrange(n, n) =~= Seq::<Slot>::empty());
    } else {
        lemma_chunks_suffix(cs, n, s, c0 + 1);
        let t = cs.skip(c0);
        assert(t.first() == cs[c0]);
        assert(t.drop_first() =~= cs.skip(c0 + 1));
        assert(4 * c0 < n) by (nonlinear_arith)
            requires
                c0 < cs.len(),
                4 * (cs.len() - 1) < n,
        ;
        let hi = if c0 * 4 + 4 < n { c0 * 4 + 4 } else { n };
        assert(cs[c0] == s.subrange(c0 * 4, hi));
        assert(s.subrange(4 * c0, hi) + s.subrange(hi, n) =~= s.subrange(4 * c0, n));
    }
}

/// What `chunks` gives, joined, is the used slots in order: the registered
/// pairs, the most recently inserted first. Every chunk holds one to four
/// pairs, all but the last exactly four, and there is no chunk exactly where
/// no slot is used.
pub proof fn lemma_chunks_list_used_slots(cs: Seq<Seq<Slot>>, s: Seq<Slot>)
    requires
        chunks_match(cs, used_prefix_len(s), s),
    ensures
        cs.flatten() == s.take(used_prefix_len(s)),
        forall|c: int| 0 <= c < cs.len() ==> 1 <= #[trigger] cs[c].len() <= 4,
        forall|c: int| 0 <= c < cs.len() - 1 ==> #[trigger] cs[c].len() == 4,
        cs.len() == 0 <==> used_prefix_len(s) == 0,
{
    lemma_first_slot(s, 0, 0);
    let n = used_prefix_len(s);
    assert(0 <= n <= s.len());
    lemma_chunks_suffix(cs, n, s, 0);
    assert(cs.skip(0) =~= cs);
    assert(s.subrange(0, n) =~= s.take(n));
    assert(4 * cs.len() >= n && 4 * (cs.len() - 1) < n || n == 0) by (nonlinear_arith)
        requires
            cs.len() == (n + 3) / 4,
            n >= 0,
    ;
    assert forall|c: int| 0 <= c < cs.len() implies 1 <= #[trigger] cs[c].len() <= 4 by {
        assert(4 * c < n) by (nonlinear_arith)
            requires
                0 <= c < cs.len(),
                cs.len() == (n + 3) / 4,
        ;
    }
    assert forall|c: int| 0 <= c < cs.len() - 1 implies #[trigger] cs[c].len() == 4 by {
        assert(4 * c + 4 < n) by (nonlinear_arith)
            requires
                0 <= c < cs.len() - 1,
                cs.len() == (n + 3) / 4,
        ;
    }
}

/// In a reachable registry, a lookup of a non-zero id gives `k` exactly where
/// the pair is among what `chunks` lists.
pub proof fn lemma_get_matches_chunks(cs: Seq<Seq<Slot>>, s: Seq<Slot>, id: u64, k: Seq<u8>)
    requires
        id != 0,
        registry_reachable(s),
        chunks_match(cs, used_prefix_len(s), s),
    ensures
        registry_get(s, id) == Some(k) <==> cs.flatten().contains((id, k)),
{
    lemma_chunks_list_used_slots(cs, s);
    lemma_get_matches_used(s, id, k);
}

/// Inserting a non-zero id into a reachable registry: the id's key is the
/// new one, and every other gnome keeps its key, but for the last gnome of
/// a full registry that did not hold the id, which drops out.
pub proof fn lemma_insert_keeps_the_rest(s: Seq<Slot>, id: u64, key: Seq<u8>, other: u64)
    requires
        s.len() >= 1,
        id != 0,
        registry_reachable(s),
        other != id,
        other != 0,
    ensures
        registry_get(registry_insert(s, id, key), id) == Some(key),
        registry_get(registry_insert(s, id, key), other) == if first_slot(s, id) < 0
            && used_prefix_len(s) == s.len() && s[s.len() - 1].0 == other {
            None
        } else {
            registry_get(s, other)
        },
{
    lemma_get_after_insert(s, id, key);
    lemma_insert_position(s, id, 0);
    lemma_first_slot(s, other, 0);
    lemma_first_slot(s, id, 0);
    lemma_first_slot(s, 0, 0);
    let t = registry_insert(s, id, key);
    let j = insert_position(s, id);
    let i = first_slot(s, other);
    let n = s.len() as int;
    lemma_first_slot(t, other, 0);
    if i >= 0 && i != j {
        lemma_insert_keeps_others(s, id, key, other);
        if first_slot(s, id) < 0 && used_prefix_len(s) == n && s[n - 1].0 == other {
            assert(i == n - 1 || s[i].0 == s[n - 1].0);
            if j < n - 1 {
                assert(s[j].0 == id || s[j].0 == 0);
                if s[j].0 == 0 {
                    assert(first_slot(s, 0) >= 0);
                }
            }
        }
    } else {
        // `other` is nowhere in the new slots.
        assert forall|m: int| 0 <= m < t.len() implies t[m].0 != other by {
            if m == 0 {
            } else if m <= j {
                assert(t[m] == s[m - 1]);
                if i >= 0 {
                    assert(m - 1 < i);
                }
            } else {
                assert(t[m] == s[m]);
                if i >= 0 {
                    assert(s[m].0 != s[i].0);
                }
            }
        }
        assert(registry_get(t, other) is None);
        if i >= 0 {
            assert(i == j);
            assert(j == n - 1);
            assert forall|m: int| 0 <= m < n implies s[m].0 != 0 by {
                if m < j {
                } else {
                    assert(m == n - 1);
                }
            }
            assert(first_slot(s, 0) < 0);
            assert forall|m: int| 0 <= m < n implies s[m].0 != id by {}
            assert(first_slot(s, id) < 0);
        }
    }
}

} // verus!
