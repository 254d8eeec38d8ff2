//! Formation identifiers, the integer part of slot layout, and slot assignment.

use vstd::prelude::*;

use crate::collections::IdMap;
use crate::map::tilemap::u32_as_i32;

verus! {

/// A formation's number.
#[derive(Clone, Copy, Debug, PartialEq, Eq, Hash, Structural)]
pub struct FormationId(pub u32);

/// Column and row of slot `index` in a square formation with `cols` columns.
pub fn square_slot_cell(index: usize, cols: u32) -> (r: (u32, u32))
    requires
        cols > 0,
    ensures
        r == ((index as u32) % cols, (index as u32) / cols),
{
    let i = index as u32;
    (i % cols, i / cols)
}

/// Row and column offset of slot `index` in a wedge formation of `depth`:
/// the row is `index % (depth + 1)` and the column offset is `index` minus
/// the triangular number of the row (computed on `i32`, as the layout does).
pub fn wedge_slot_cell(index: usize, depth: u32) -> (r: (u32, i32))
    requires
        depth < u32::MAX,
        ((index as u32) % (depth + 1) as u32) * ((index as u32) % (depth + 1) as u32 + 1) <= u32::MAX,
        u32_as_i32(index as u32) - ((index as u32) % (depth + 1) as u32) * ((index as u32) % (depth
            + 1) as u32 + 1) / 2 >= -0x8000_0000,
    ensures
        r.0 == (index as u32) % (depth + 1) as u32,
        r.1 == u32_as_i32(index as u32) - (r.0 * (r.0 + 1)) / 2,
{
    let i = index as u32;
    let row = i % (depth + 1);
    let tri = row * (row + 1) / 2;
    proof {
        crate::map::tilemap::lemma_u32_as_i32(i);
        assert(tri <= 0x7fff_ffff);
    }
    let col = (i as i32) - (tri as i32);
    (row, col)
}

/// Number of slots of a square formation with `rows` rows and `cols` columns.
pub fn square_capacity(rows: u32, cols: u32) -> (n: usize)
    requires
        rows * cols <= u32::MAX,
    ensures
        n == rows * cols,
{
    (rows * cols) as usize
}

/// How members are given slots.
#[derive(Clone, Copy, Debug, PartialEq, Eq, Structural)]
pub enum SlotAssignment {
    /// In joining order: the `i`-th member takes slot `i`.
    Sequential,
    /// Each member in turn takes the nearest free slot.
    ByDistance,
}

/// Whether `s` is the slot a member with slot distances `d` picks when the
/// slots marked in `taken` are gone: a free slot with no free slot strictly
/// nearer and no earlier free slot equally near.
pub open spec fn is_best_slot(d: Seq<u32>, taken: Seq<bool>, s: int) -> bool {
    &&& 0 <= s < d.len()
    &&& s < taken.len()
    &&& !taken[s]
    &&& forall|t: int|
        0 <= t < d.len() && t < taken.len() && !taken[t] ==> d[s] < d[t] || (d[s] == d[t] && s <= t)
}

/// The slot picked for distances `d`, or `None` when every slot is taken.
pub open spec fn best_slot(d: Seq<u32>, taken: Seq<bool>) -> Option<int> {
    if exists|s: int| is_best_slot(d, taken, s) {
        Some(choose|s: int| is_best_slot(d, taken, s))
    } else {
        None
    }
}

proof fn lemma_best_unique(d: Seq<u32>, taken: Seq<bool>, s: int)
    requires
        is_best_slot(d, taken, s),
    ensures
        best_slot(d, taken) == Some(s),
{
    let c = choose|x: int| is_best_slot(d, taken, x);
    assert(is_best_slot(d, taken, c));
}

/// The assignment after the first `k` members have chosen: the pairs
/// (member, slot) given so far and the slots taken, among `n` slots.
/// `dists[i]` holds member `i`'s distance to each slot.
pub open spec fn greedy_assignment(entities: Seq<u64>, dists: Seq<Vec<u32>>, n: nat, k: nat) -> (
    Seq<(u64, usize)>,
    Seq<bool>,
)
    decreases k,
{
    if k == 0 {
        (Seq::empty(), Seq::new(n, |i: int| false))
    } else {
        let prev = greedy_assignment(entities, dists, n, (k - 1) as nat);
        match best_slot(dists[k - 1]@, prev.1) {
            Some(s) => (prev.0.push((entities[k - 1], s as usize)), prev.1.update(s, true)),
            None => prev,
        }
    }
}

/// The pairs of the sequential assignment: member `i` takes slot `i`.
pub open spec fn sequential_assignment(entities: Seq<u64>) -> Seq<(u64, usize)> {
    Seq::new(entities.len(), |i: int| (entities[i], i as usize))
}

proof fn lemma_greedy_shape(entities: Seq<u64>, dists: Seq<Vec<u32>>, n: nat, k: nat)
    ensures
        greedy_assignment(entities, dists, n, k).1.len() == n,
        greedy_assignment(entities, dists, n, k).0.len() <= k,
    decreases k,
{
    if k > 0 {
        lemma_greedy_shape(entities, dists, n, (k - 1) as nat);
        let prev = greedy_assignment(entities, dists, n, (k - 1) as nat);
        match best_slot(dists[k - 1]@, prev.1) {
            Some(s) => {
                let dk = dists[k - 1]@;
                let c = choose|x: int| is_best_slot(dk, prev.1, x);
                assert(is_best_slot(dk, prev.1, c));
            },
            None => {},
        }
    }
}

impl SlotAssignment {
    /// Gives slots to `entities`. `Sequential` pairs member `i` with slot
    /// `i`. `ByDistance` lets each member in order take, among the
    /// `slot_count` slots not yet taken, the one with the smallest distance
    /// in `distance_bits[i]` (earliest on ties); a member finds no slot once
    /// all are taken. Distances are compared by value, so they are given as
    /// non-negative numbers, such as the bit patterns of non-negative `f32`
    /// squared distances.
    pub fn assign(&self, entities: &[u64], distance_bits: &[Vec<u32>], slot_count: usize) -> (r: Vec<
        (u64, usize),
    >)
        requires
            *self is ByDistance ==> distance_bits@.len() == entities@.len(),
            *self is ByDistance ==> forall|k: int|
                0 <= k < distance_bits@.len() ==> (#[trigger] distance_bits@[k])@.len() == slot_count,
        ensures
            *self is Sequential ==> r@ == sequential_assignment(entities@),
            *self is ByDistance ==> r@ == greedy_assignment(
                entities@,
                distance_bits@,
                slot_count as nat,
                entities@.len(),
            ).0,
    {
        match self {
            SlotAssignment::Sequential => {
                let mut result: Vec<(u64, usize)> = Vec::new();
                let mut i: usize = 0;
                while i < entities.len()
                    invariant
                        i <= entities@.len(),
                        result@ == sequential_assignment(entities@).take(i as int),
                    decreases entities@.len() - i,
                {
                    result.push((entities[i], i));
                    assert(sequential_assignment(entities@).take(i + 1) =~= sequential_assignment(
                        entities@,
                    ).take(i as int).push((entities@[i as int], i)));
                    i = i + 1;
                }
                assert(sequential_assignment(entities@).take(entities@.len() as int) =~= sequential_assignment(entities@));
                result
            },
            SlotAssignment::ByDistance => assign_by_distance(entities, distance_bits, slot_count),
        }
    }
}

fn assign_by_distance(entities: &[u64], distance_bits: &[Vec<u32>], slot_count: usize) -> (r: Vec<
    (u64, usize),
>)
    requires
        distance_bits@.len() == entities@.len(),
        forall|k: int| 0 <= k < distance_bits@.len() ==> (#[trigger] distance_bits@[k])@.len() == slot_count,
    ensures
        r@ == greedy_assignment(entities@, distance_bits@, slot_count as nat, entities@.len()).0,
{
    let ghost n = slot_count as nat;
    let mut taken: Vec<bool> = Vec::new();
    let mut s: usize = 0;
    while s < slot_count
        invariant
            s <= slot_count,
            taken@ == Seq::new(s as nat, |i: int| false),
        decreases slot_count - s,
    {
        taken.push(false);
        s = s + 1;
    }
    let mut result: Vec<(u64, usize)> = Vec::new();
    let mut k: usize = 0;
    while k < entities.len()
        invariant
            k <= entities@.len(),
            n == slot_count as nat,
            distance_bits@.len() == entities@.len(),
            forall|j: int| 0 <= j < distance_bits@.len() ==> (#[trigger] distance_bits@[j])@.len() == slot_count,
            (result@, taken@) == greedy_assignment(entities@, distance_bits@, n, k as nat),
        decreases entities@.len() - k,
    {
        proof {
            lemma_greedy_shape(entities@, distance_bits@, n, k as nat);
        }
        let d = &distance_bits[k];
        let mut best: Option<usize> = None;
        let mut t: usize = 0;
        while t < slot_count
            invariant
                t <= slot_count,
                d@.len() == slot_count,
                taken@.len() == slot_count,
                match best {
                    None => forall|u: int| 0 <= u < t ==> #[trigger] taken@[u],
                    Some(b) => {
                        &&& b < t
                        &&& !taken@[b as int]
                        &&& forall|u: int|
                            0 <= u < t && !(#[trigger] taken@[u]) ==> d@[b as int] < d@[u] || (d@[b as int]
                                == d@[u] && b <= u)
                    },
                },
            decreases slot_count - t,
        {
            if !taken[t] {
                match best {
                    None => {
                        best = Some(t);
                    },
                    Some(b) => {
                        if d[t] < d[b] {
                            best = Some(t);
                        }
                    },
                }
            }
            t = t + 1;
        }
        let ghost prev_taken = taken@;
        match best {
            Some(b) => {
                proof {
                    assert(is_best_slot(d@, prev_taken, b as int));
                    lemma_best_unique(d@, prev_taken, b as int);
                }
                taken.set(b, true);
                result.push((entities[k], b));
            },
            None => {
                proof {
                    assert(!exists|x: int| is_best_slot(d@, prev_taken, x));
                }
            },
        }
        k = k + 1;
    }
    result
}

/// No two members are given the same slot, every slot given is one of the
/// `slot_count` slots, and the taken marks are exactly the slots given.
pub proof fn law_greedy_slots_distinct(entities: Seq<u64>, dists: Seq<Vec<u32>>, n: nat, k: nat)
    requires
        n <= usize::MAX,
    ensures
        forall|i: int, j: int|
            0 <= i < j < greedy_assignment(entities, dists, n, k).0.len() ==> (#[trigger] greedy_assignment(
                entities,
                dists,
                n,
                k,
            ).0[i]).1 != (#[trigger] greedy_assignment(entities, dists, n, k).0[j]).1,
        forall|i: int|
            0 <= i < greedy_assignment(entities, dists, n, k).0.len() ==> (#[trigger] greedy_assignment(
                entities,
                dists,
                n,
                k,
            ).0[i]).1 < n,
        forall|s: int|
            0 <= s < n ==> (#[trigger] greedy_assignment(entities, dists, n, k).1[s] <==> exists|i: int|
                0 <= i < greedy_assignment(entities, dists, n, k).0.len() && greedy_assignment(
                    entities,
                    dists,
                    n,
                    k,
                ).0[i].1 == s),
    decreases k,
{
    lemma_greedy_shape(entities, dists, n, k);
    if k > 0 {
        law_greedy_slots_distinct(entities, dists, n, (k - 1) as nat);
        lemma_greedy_shape(entities, dists, n, (k - 1) as nat);
        let prev = greedy_assignment(entities, dists, n, (k - 1) as nat);
        let cur = greedy_assignment(entities, dists, n, k);
        match best_slot(dists[k - 1]@, prev.1) {
            Some(s) => {
                let dk = dists[k - 1]@;
                let c = choose|x: int| is_best_slot(dk, prev.1, x);
                assert(is_best_slot(dk, prev.1, c));
                assert(c == s);
                assert(cur.0 == prev.0.push((entities[k - 1], s as usize)));
                assert(cur.1 == prev.1.update(s, true));
                assert forall|i: int, j: int| 0 <= i < j < cur.0.len() implies (#[trigger] cur.0[i]).1
                    != (#[trigger] cur.0[j]).1 by {
                    if j == cur.0.len() - 1 {
                        assert(cur.0[i] == prev.0[i]);
                        if prev.0[i].1 == s {
                            assert(prev.1[s]);
                        }
                    } else {
                        assert(cur.0[i] == prev.0[i]);
                        assert(cur.0[j] == prev.0[j]);
                    }
                }
                assert forall|i: int| 0 <= i < cur.0.len() implies (#[trigger] cur.0[i]).1 < n by {
                    if i < prev.0.len() {
                        assert(cur.0[i] == prev.0[i]);
                    }
                }
                assert forall|t: int| 0 <= t < n implies (#[trigger] cur.1[t] <==> exists|i: int|
                    0 <= i < cur.0.len() && cur.0[i].1 == t) by {
                    if t == s {
                        assert(cur.0[cur.0.len() - 1].1 == t);
                    } else {
                        if exists|i: int| 0 <= i < cur.0.len() && cur.0[i].1 == t {
                            let i = choose|i: int| 0 <= i < cur.0.len() && cur.0[i].1 == t;
                            assert(i < prev.0.len());
                            assert(prev.0[i].1 == t);
                        }
                        if exists|i: int| 0 <= i < prev.0.len() && prev.0[i].1 == t {
                            let i = choose|i: int| 0 <= i < prev.0.len() && prev.0[i].1 == t;
                            assert(cur.0[i].1 == t);
                        }
                    }
                }
            },
            None => {},
        }
    }
}


/// A 3-vector given by the bit patterns of its `f32` coordinates.
#[derive(Clone, Copy, Debug, PartialEq, Eq, Structural)]
pub struct Vec3Bits {
    pub x: u32,
    pub y: u32,
    pub z: u32,
}

/// A formation's shape. Sizes that are `f32` values in the engine are given
/// by their bit patterns.
#[derive(Clone, Debug)]
pub enum FormationPattern {
    /// A grid of `rows` by `cols` slots.
    Square { rows: u32, cols: u32 },
    /// A wedge `depth` rows deep.
    Wedge { depth: u32 },
    /// A single line.
    Line,
    /// A ring of the given radius.
    Circle { radius_bits: u32 },
    /// Explicit slot offsets.
    Custom { slots: Vec<Vec3Bits> },
}

impl FormationPattern {
    /// The number of slots the pattern holds: `rows * cols` for a square,
    /// the number of listed slots for a custom pattern, and no limit
    /// (`None`) for the others.
    pub fn capacity(&self) -> (r: Option<usize>)
        requires
            *self is Square ==> self->rows * self->cols <= u32::MAX,
        ensures
            r == (match *self {
                FormationPattern::Square { rows, cols } => Some((rows * cols) as usize),
                FormationPattern::Custom { slots } => Some(slots@.len() as usize),
                _ => None,
            }),
    {
        match self {
            FormationPattern::Square { rows, cols } => Some(square_capacity(*rows, *cols)),
            FormationPattern::Custom { slots } => Some(slots.len()),
            _ => None,
        }
    }
}

/// Units keeping a shape around a leader. Entities are given by their
/// `Entity::to_bits` numbers; `spacing_bits` and `facing_bits` are bit
/// patterns of `f32` values.
#[derive(Clone, Debug)]
pub struct Formation {
    pub id: FormationId,
    pub leader: u64,
    /// Members in joining order.
    pub members: Vec<u64>,
    pub pattern: FormationPattern,
    pub spacing_bits: u32,
    /// The direction the formation faces.
    pub facing_bits: Vec3Bits,
}

/// Bit patterns of the unit vector `(0, 0, -1)`, the facing of a new formation.
pub open spec fn neg_z_bits() -> Vec3Bits {
    Vec3Bits { x: 0, y: 0, z: 0xBF80_0000 }
}

/// Whether `f` is a formation just created with these settings: no
/// members yet, facing `-z`.
pub open spec fn is_new_formation(
    f: Formation,
    id: FormationId,
    leader: u64,
    pattern: FormationPattern,
    spacing_bits: u32,
) -> bool {
    &&& f.id == id
    &&& f.leader == leader
    &&& f.members@.len() == 0
    &&& f.pattern == pattern
    &&& f.spacing_bits == spacing_bits
    &&& f.facing_bits == neg_z_bits()
}

/// The members that stay when `entity` leaves: all others, in order.
pub open spec fn without_member(members: Seq<u64>, entity: u64) -> Seq<u64>
    decreases members.len(),
{
    if members.len() == 0 {
        Seq::empty()
    } else {
        let rest = without_member(members.drop_last(), entity);
        if members.last() == entity {
            rest
        } else {
            rest.push(members.last())
        }
    }
}

impl Formation {
    /// A formation with no members, facing `-z`.
    pub fn new(id: FormationId, leader: u64, pattern: FormationPattern, spacing_bits: u32) -> (f: Self)
        ensures
            is_new_formation(f, id, leader, pattern, spacing_bits),
    {
        Formation {
            id,
            leader,
            members: Vec::new(),
            pattern,
            spacing_bits,
            facing_bits: Vec3Bits { x: 0, y: 0, z: 0xBF80_0000 },
        }
    }

    /// Adds `entity` at the end of the members.
    pub fn add_member(&mut self, entity: u64)
        ensures
            final(self).members@ == old(self).members@.push(entity),
            final(self).id == old(self).id,
            final(self).leader == old(self).leader,
            final(self).pattern == old(self).pattern,
            final(self).spacing_bits == old(self).spacing_bits,
            final(self).facing_bits == old(self).facing_bits,
    {
        self.members.push(entity);
    }

    /// Removes every occurrence of `entity` from the members, keeping the
    /// order of the others.
    pub fn remove_member(&mut self, entity: u64)
        ensures
            final(self).members@ == without_member(old(self).members@, entity),
            !final(self).members@.contains(entity),
            final(self).id == old(self).id,
            final(self).leader == old(self).leader,
            final(self).pattern == old(self).pattern,
            final(self).spacing_bits == old(self).spacing_bits,
            final(self).facing_bits == old(self).facing_bits,
    {
        let mut kept: Vec<u64> = Vec::new();
        let mut i: usize = 0;
        while i < self.members.len()
            invariant
                i <= self.members@.len(),
                kept@ == without_member(self.members@.take(i as int), entity),
            decreases self.members@.len() - i,
        {
            let e = self.members[i];
            assert(self.members@.take(i + 1).drop_last() =~= self.members@.take(i as int));
            assert(self.members@.take(i + 1).last() == e);
            if e != entity {
                kept.push(e);
            }
            i = i + 1;
        }
        assert(self.members@.take(self.members@.len() as int) =~= self.members@);
        proof {
            lemma_filter_excludes(old(self).members@, entity);
        }
        self.members = kept;
    }
}

proof fn lemma_filter_excludes(members: Seq<u64>, entity: u64)
    ensures
        !without_member(members, entity).contains(entity),
    decreases members.len(),
{
    if members.len() > 0 {
        lemma_filter_excludes(members.drop_last(), entity);
        let rest = without_member(members.drop_last(), entity);
        if members.last() != entity {
            assert(without_member(members, entity) == rest.push(members.last()));
            if rest.push(members.last()).contains(entity) {
                let j = choose|j: int| 0 <= j < rest.len() + 1 && rest.push(members.last())[j] == entity;
                assert(rest[j] == entity);
            }
        } else {
            assert(without_member(members, entity) == rest);
        }
    }
}

/// Adding a unit that was not a member and removing it again leaves the
/// members as they were.
pub proof fn law_add_then_remove_member(members: Seq<u64>, entity: u64)
    requires
        !members.contains(entity),
    ensures
        without_member(members.push(entity), entity) == members,
    decreases members.len(),
{
    assert(members.push(entity).drop_last() =~= members);
    lemma_filter_keeps_absent(members, entity);
}

proof fn lemma_filter_keeps_absent(members: Seq<u64>, entity: u64)
    requires
        !members.contains(entity),
    ensures
        without_member(members, entity) == members,
    decreases members.len(),
{
    if members.len() > 0 {
        assert(!members.drop_last().contains(entity)) by {
            if members.drop_last().contains(entity) {
                let j = choose|j: int| 0 <= j < members.len() - 1 && members.drop_last()[j] == entity;
                assert(members[j] == entity);
            }
        }
        lemma_filter_keeps_absent(members.drop_last(), entity);
        assert(members.last() != entity) by {
            assert(members[members.len() - 1] == members.last());
        }
        assert(members.drop_last().push(members.last()) =~= members);
    }
}

/// Mathematical model of a [`FormationManager`]: the formations by number
/// and the number the next one will get.
pub struct FormationManagerView {
    pub formations: Map<u32, Formation>,
    pub next_id: u32,
}

/// All formations, each under the number it was created with.
#[derive(Clone, Debug)]
pub struct FormationManager {
    formations: IdMap<Formation>,
    next_id: u32,
}

impl View for FormationManager {
    type V = FormationManagerView;

    closed spec fn view(&self) -> FormationManagerView {
        FormationManagerView { formations: self.formations@, next_id: self.next_id }
    }
}

impl Default for FormationManager {
    /// No formations; the first one gets number 0.
    fn default() -> (m: Self)
        ensures
            m.wf(),
            m@.formations == Map::<u32, Formation>::empty(),
            m@.next_id == 0,
    {
        FormationManager { formations: IdMap::new(), next_id: 0 }
    }
}

impl FormationManager {
    /// The storage is consistent and every number in use was handed out
    /// before `next_id`.
    pub closed spec fn wf(&self) -> bool {
        &&& self.formations.wf()
        &&& forall|k: u32| #[trigger] self.formations@.contains_key(k) ==> k < self.next_id
    }

    /// Creates a formation under the next unused number and returns that number.
    pub fn create(&mut self, leader: u64, pattern: FormationPattern, spacing_bits: u32) -> (id: FormationId)
        requires
            old(self).wf(),
            old(self)@.next_id < u32::MAX,
        ensures
            final(self).wf(),
            id == FormationId(old(self)@.next_id),
            !old(self)@.formations.contains_key(id.0),
            final(self)@.next_id == old(self)@.next_id + 1,
            final(self)@.formations.dom() == old(self)@.formations.dom().insert(id.0),
            forall|k: u32| k != id.0 && #[trigger] old(self)@.formations.contains_key(k)
                ==> final(self)@.formations[k] == old(self)@.formations[k],
            is_new_formation(final(self)@.formations[id.0], id, leader, pattern, spacing_bits),
    {
        let id = FormationId(self.next_id);
        self.next_id = self.next_id + 1;
        let f = Formation::new(id, leader, pattern, spacing_bits);
        self.formations.insert(id.0, f);
        id
    }

    /// The number the next formation will get.
    pub fn next_id(&self) -> (n: u32)
        ensures
            n == self@.next_id,
    {
        self.next_id
    }

    /// The formation numbered `id`, if any.
    pub fn get(&self, id: FormationId) -> (r: Option<&Formation>)
        requires
            self.wf(),
        ensures
            r == (if self@.formations.contains_key(id.0) {
                Some(&self@.formations[id.0])
            } else {
                None
            }),
    {
        self.formations.get(id.0)
    }

    /// Mutable access to the formation numbered `id`, if any.
    pub fn get_mut(&mut self, id: FormationId) -> (r: Option<&mut Formation>)
        requires
            old(self).wf(),
        ensures
            final(self).wf(),
            final(self)@.next_id == old(self)@.next_id,
            match r {
                Some(f) => {
                    &&& old(self)@.formations.contains_key(id.0)
                    &&& *f == old(self)@.formations[id.0]
                    &&& final(self)@.formations == old(self)@.formations.insert(id.0, *final(f))
                },
                None => {
                    &&& !old(self)@.formations.contains_key(id.0)
                    &&& final(self)@.formations == old(self)@.formations
                },
            },
    {
        self.formations.get_mut(id.0)
    }

    /// Removes the formation numbered `id` (no effect if there is none).
    pub fn dissolve(&mut self, id: FormationId)
        requires
            old(self).wf(),
        ensures
            final(self).wf(),
            final(self)@.formations == old(self)@.formations.remove(id.0),
            final(self)@.next_id == old(self)@.next_id,
    {
        self.formations.remove(id.0);
    }

    /// Every formation once, in an unspecified order.
    pub fn formations(&self) -> (r: &Vec<Formation>)
        requires
            self.wf(),
        ensures
            r@.len() == self@.formations.len(),
            r@.to_set() == self@.formations.values(),
    {
        let r = self.formations.values();
        proof {
            let ks = self.formations.keys_seq();
            let m = self.formations@;
            assert forall|v: Formation| r@.to_set().contains(v) <==> m.values().contains(v) by {
                if r@.to_set().contains(v) {
                    let i = choose|i: int| 0 <= i < r@.len() && r@[i] == v;
                    assert(m.contains_key(ks[i]));
                    assert(m[ks[i]] == v);
                }
                if m.values().contains(v) {
                    let k = choose|k: u32| m.contains_key(k) && m[k] == v;
                    assert(m.contains_key(k));
                    let i = choose|i: int| 0 <= i < r@.len() && r@[i] == m[k];
                    assert(r@[i] == v);
                }
            }
            assert(r@.to_set() =~= m.values());
        }
        r
    }
}

/// Dissolving a formation frees no number for reuse: the number the next
/// formation gets differs from the dissolved one and is still unused.
pub proof fn law_ids_not_reused(m: FormationManagerView, dissolved: u32)
    requires
        forall|k: u32| #[trigger] m.formations.contains_key(k) ==> k < m.next_id,
    ensures
        m.formations.contains_key(dissolved) ==> dissolved != m.next_id,
        !m.formations.remove(dissolved).contains_key(m.next_id),
{
}

} // verus!
