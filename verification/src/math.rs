//! Data model: identifiers, vertices, bindings and their pools.

use vstd::prelude::*;

verus! {

/// A 2D position. Each coordinate is an IEEE-754 `f64` bit pattern; the
/// library moves these values around without interpreting them numerically.
#[derive(Copy, Clone, PartialEq, Eq, Structural, Debug)]
pub struct Pt {
    pub x: u64,
    pub y: u64,
}

/// Identifier of a vertex: unique per allocation counter, never reused.
#[derive(Copy, Clone, PartialEq, Eq, Structural, Hash, Debug)]
pub struct VertexId(pub usize);

/// Identifier of a binding: unique per allocation counter, never reused.
#[derive(Copy, Clone, PartialEq, Eq, Structural, Hash, Debug)]
pub struct BindingId(pub usize);

impl VertexId {
    /// Draws the next vertex identifier from a monotonically increasing
    /// counter owned by the caller.
    pub fn new_id(counter: &mut usize) -> (r: VertexId)
        requires
            *old(counter) < usize::MAX,
        ensures
            r == (VertexId(*old(counter))),
            *final(counter) == *old(counter) + 1,
    {
        let id = VertexId(*counter);
        *counter = *counter + 1;
        id
    }
}

impl BindingId {
    /// Draws the next binding identifier from a monotonically increasing
    /// counter owned by the caller.
    pub fn new_id(counter: &mut usize) -> (r: BindingId)
        requires
            *old(counter) < usize::MAX,
        ensures
            r == (BindingId(*old(counter))),
            *final(counter) == *old(counter) + 1,
    {
        let id = BindingId(*counter);
        *counter = *counter + 1;
        id
    }
}

/// A point with its identity and editing flags. Only `id` and `pt` matter to
/// the solver core; the remaining fields belong to interactive editing and
/// are preserved untouched across a solve.
#[derive(Copy, Clone, PartialEq, Eq, Structural, Debug)]
pub struct Vertex {
    pub id: VertexId,
    pub pt: Pt,
    pub saved_pt: Pt,
    pub magnetic: bool,
    pub draggable: bool,
    pub selected: bool,
}

/// Pins a vertex to the position captured at binding creation. Two equations.
#[derive(Copy, Clone, PartialEq, Eq, Structural, Debug)]
pub struct BindFixed {
    pub id: BindingId,
    pub fixed_value: Pt,
    pub v_id: VertexId,
}

/// Pins a vertex's X coordinate. One equation.
#[derive(Copy, Clone, PartialEq, Eq, Structural, Debug)]
pub struct BindFixedX {
    pub id: BindingId,
    pub fixed_value: u64,
    pub v_id: VertexId,
}

/// Pins a vertex's Y coordinate. One equation.
#[derive(Copy, Clone, PartialEq, Eq, Structural, Debug)]
pub struct BindFixedY {
    pub id: BindingId,
    pub fixed_value: u64,
    pub v_id: VertexId,
}

/// Requires two vertices to share their X coordinate. One equation.
#[derive(Copy, Clone, PartialEq, Eq, Structural, Debug)]
pub struct BindVertical {
    pub id: BindingId,
    pub va_id: VertexId,
    pub vb_id: VertexId,
}

/// Requires two vertices to share their Y coordinate. One equation.
#[derive(Copy, Clone, PartialEq, Eq, Structural, Debug)]
pub struct BindHorizontal {
    pub id: BindingId,
    pub va_id: VertexId,
    pub vb_id: VertexId,
}

/// Requires the segment from `l1va` to `l1vb` to be parallel to the segment
/// from `l2va` to `l2vb` (zero cross product of the directions). One equation.
#[derive(Copy, Clone, PartialEq, Eq, Structural, Debug)]
pub struct BindParallel {
    pub id: BindingId,
    pub l1va_id: VertexId,
    pub l1vb_id: VertexId,
    pub l2va_id: VertexId,
    pub l2vb_id: VertexId,
}

/// Requires two vertices to keep the squared distance captured at binding
/// creation. One equation.
#[derive(Copy, Clone, PartialEq, Eq, Structural, Debug)]
pub struct BindDistance {
    pub id: BindingId,
    pub sq_distance_value: u64,
    pub va_id: VertexId,
    pub vb_id: VertexId,
}

/// Placeholder variant with no geometric meaning; skipped during assembly.
#[derive(Copy, Clone, PartialEq, Eq, Structural, Debug)]
pub struct BindError {
    pub id: BindingId,
}

impl BindError {
    /// Creates a placeholder binding with a fresh identifier.
    pub fn new(counter: &mut usize) -> (r: Binding)
        requires
            *old(counter) < usize::MAX,
        ensures
            r == (Binding::Error(BindError { id: BindingId(*old(counter)) })),
            *final(counter) == *old(counter) + 1,
    {
        Binding::Error(BindError { id: BindingId::new_id(counter) })
    }
}

/// A geometric constraint between one or more vertices, as a closed variant
/// type. Each variant fixes its own equation count and referenced vertex set.
#[derive(Copy, Clone, PartialEq, Eq, Structural, Debug)]
pub enum Binding {
    Fixed(BindFixed),
    FixedX(BindFixedX),
    FixedY(BindFixedY),
    Vertical(BindVertical),
    Horizontal(BindHorizontal),
    Parallel(BindParallel),
    Distance(BindDistance),
    Error(BindError),
}

impl Binding {
    /// The identifier this binding was created with.
    pub open spec fn spec_id(self) -> BindingId {
        match self {
            Binding::Fixed(b) => b.id,
            Binding::FixedX(b) => b.id,
            Binding::FixedY(b) => b.id,
            Binding::Vertical(b) => b.id,
            Binding::Horizontal(b) => b.id,
            Binding::Parallel(b) => b.id,
            Binding::Distance(b) => b.id,
            Binding::Error(b) => b.id,
        }
    }

    pub fn get_id(&self) -> (r: BindingId)
        ensures
            r == self.spec_id(),
    {
        match self {
            Binding::Fixed(b) => b.id,
            Binding::FixedX(b) => b.id,
            Binding::FixedY(b) => b.id,
            Binding::Vertical(b) => b.id,
            Binding::Horizontal(b) => b.id,
            Binding::Parallel(b) => b.id,
            Binding::Distance(b) => b.id,
            Binding::Error(b) => b.id,
        }
    }

    /// The vertex identifiers this binding references, in field order.
    /// `Error` references none.
    pub open spec fn spec_v_ids(self) -> Seq<VertexId> {
        match self {
            Binding::Fixed(b) => seq![b.v_id],
            Binding::FixedX(b) => seq![b.v_id],
            Binding::FixedY(b) => seq![b.v_id],
            Binding::Vertical(b) => seq![b.va_id, b.vb_id],
            Binding::Horizontal(b) => seq![b.va_id, b.vb_id],
            Binding::Parallel(b) => seq![b.l1va_id, b.l1vb_id, b.l2va_id, b.l2vb_id],
            Binding::Distance(b) => seq![b.va_id, b.vb_id],
            Binding::Error(_) => seq![],
        }
    }

    /// The number of residual equations this binding contributes.
    pub open spec fn eq_count(self) -> nat {
        match self {
            Binding::Fixed(_) => 2,
            Binding::Error(_) => 0,
            _ => 1,
        }
    }

    /// Adds every vertex id this binding references to `v_ids`, without
    /// introducing duplicates.
    pub fn get_v_ids(&self, v_ids: &mut Vec<VertexId>)
        ensures
            final(v_ids)@ == insert_all(old(v_ids)@, self.spec_v_ids()),
    {
        match self {
            Binding::Fixed(b) => {
                insert_v_id(v_ids, b.v_id);
                proof {
                    lemma_insert_all_one(old(v_ids)@, b.v_id);
                }
            },
            Binding::FixedX(b) => {
                insert_v_id(v_ids, b.v_id);
                proof {
                    lemma_insert_all_one(old(v_ids)@, b.v_id);
                }
            },
            Binding::FixedY(b) => {
                insert_v_id(v_ids, b.v_id);
                proof {
                    lemma_insert_all_one(old(v_ids)@, b.v_id);
                }
            },
            Binding::Vertical(b) => {
                insert_v_id(v_ids, b.va_id);
                insert_v_id(v_ids, b.vb_id);
                proof {
                    lemma_insert_all_two(old(v_ids)@, b.va_id, b.vb_id);
                }
            },
            Binding::Horizontal(b) => {
                insert_v_id(v_ids, b.va_id);
                insert_v_id(v_ids, b.vb_id);
                proof {
                    lemma_insert_all_two(old(v_ids)@, b.va_id, b.vb_id);
                }
            },
            Binding::Parallel(b) => {
                insert_v_id(v_ids, b.l1va_id);
                insert_v_id(v_ids, b.l1vb_id);
                insert_v_id(v_ids, b.l2va_id);
                insert_v_id(v_ids, b.l2vb_id);
                proof {
                    lemma_insert_all_four(old(v_ids)@, b.l1va_id, b.l1vb_id, b.l2va_id, b.l2vb_id);
                }
            },
            Binding::Distance(b) => {
                insert_v_id(v_ids, b.va_id);
                insert_v_id(v_ids, b.vb_id);
                proof {
                    lemma_insert_all_two(old(v_ids)@, b.va_id, b.vb_id);
                }
            },
            Binding::Error(_) => {
                proof {
                    assert(insert_all(old(v_ids)@, self.spec_v_ids()) == old(v_ids)@);
                }
            },
        }
    }
}

/// `acc` with `id` appended unless already present.
pub open spec fn insert_unique(acc: Seq<VertexId>, id: VertexId) -> Seq<VertexId> {
    if acc.contains(id) {
        acc
    } else {
        acc.push(id)
    }
}

/// `acc` extended with every id of `ids`, left to right, without duplicates
/// of ids already present.
pub open spec fn insert_all(acc: Seq<VertexId>, ids: Seq<VertexId>) -> Seq<VertexId>
    decreases ids.len(),
{
    if ids.len() == 0 {
        acc
    } else {
        insert_all(insert_unique(acc, ids[0]), ids.drop_first())
    }
}

proof fn lemma_insert_all_one(acc: Seq<VertexId>, a: VertexId)
    ensures
        insert_all(acc, seq![a]) == insert_unique(acc, a),
{
    let s = seq![a];
    assert(s.len() == 1);
    assert(s[0] == a);
    assert(s.drop_first() =~= Seq::<VertexId>::empty());
    assert(insert_all(acc, s) == insert_all(insert_unique(acc, a), s.drop_first()));
    assert(insert_all(insert_unique(acc, a), s.drop_first()) == insert_unique(acc, a));
}

proof fn lemma_insert_all_two(acc: Seq<VertexId>, a: VertexId, b: VertexId)
    ensures
        insert_all(acc, seq![a, b]) == insert_unique(insert_unique(acc, a), b),
{
    let s = seq![a, b];
    assert(s.len() == 2);
    assert(s[0] == a);
    assert(s.drop_first() =~= seq![b]);
    assert(insert_all(acc, s) == insert_all(insert_unique(acc, a), seq![b]));
    lemma_insert_all_one(insert_unique(acc, a), b);
}

proof fn lemma_insert_all_four(acc: Seq<VertexId>, a: VertexId, b: VertexId, c: VertexId, d: VertexId)
    ensures
        insert_all(acc, seq![a, b, c, d]) == insert_unique(
            insert_unique(insert_unique(insert_unique(acc, a), b), c),
            d,
        ),
{
    let s = seq![a, b, c, d];
    assert(s.len() == 4);
    assert(s[0] == a);
    assert(s.drop_first() =~= seq![b, c, d]);
    assert(insert_all(acc, s) == insert_all(insert_unique(acc, a), seq![b, c, d]));
    let s3 = seq![b, c, d];
    assert(s3[0] == b);
    assert(s3.drop_first() =~= seq![c, d]);
    assert(insert_all(insert_unique(acc, a), s3) == insert_all(
        insert_unique(insert_unique(acc, a), b),
        seq![c, d],
    ));
    lemma_insert_all_two(insert_unique(insert_unique(acc, a), b), c, d);
}

/// Whether `v` holds `id`.
fn contains_v_id(v: &Vec<VertexId>, id: VertexId) -> (r: bool)
    ensures
        r == v@.contains(id),
{
    let mut k: usize = 0;
    while k < v.len()
        invariant
            0 <= k <= v@.len(),
            forall|j: int| 0 <= j < k ==> v@[j] != id,
        decreases v@.len() - k,
    {
        if v[k] == id {
            return true;
        }
        k = k + 1;
    }
    false
}

/// Appends `id` to `v_ids` unless already present.
fn insert_v_id(v_ids: &mut Vec<VertexId>, id: VertexId)
    ensures
        final(v_ids)@ == insert_unique(old(v_ids)@, id),
{
    if !contains_v_id(v_ids, id) {
        v_ids.push(id);
    }
}

/// First vertex of `s` carrying `id`, if any.
pub open spec fn find_vertex(s: Seq<Vertex>, id: VertexId) -> Option<Vertex>
    decreases s.len(),
{
    if s.len() == 0 {
        None
    } else if s[0].id == id {
        Some(s[0])
    } else {
        find_vertex(s.drop_first(), id)
    }
}

/// If a prefix of `s` holds no vertex with `id` and position `i` does,
/// the first match is `s[i]`.
proof fn lemma_find_vertex_at(s: Seq<Vertex>, id: VertexId, i: int)
    requires
        0 <= i < s.len(),
        s[i].id == id,
        forall|j: int| 0 <= j < i ==> s[j].id != id,
    ensures
        find_vertex(s, id) == Some(s[i]),
    decreases i,
{
    if i == 0 {
    } else {
        lemma_find_vertex_at(s.drop_first(), id, i - 1);
    }
}

/// If no vertex of `s` carries `id`, there is no first match.
proof fn lemma_find_vertex_none(s: Seq<Vertex>, id: VertexId)
    requires
        forall|j: int| 0 <= j < s.len() ==> s[j].id != id,
    ensures
        find_vertex(s, id) is None,
    decreases s.len(),
{
    if s.len() > 0 {
        lemma_find_vertex_none(s.drop_first(), id);
    }
}

/// Owns the authoritative position of every vertex, together with the
/// counter that issues vertex identifiers.
pub struct VerticesPool {
    pub vertices: Vec<Vertex>,
    pub next_id: usize,
}

impl VerticesPool {
    /// Identifiers are pairwise distinct and below the allocation counter.
    pub open spec fn wf(self) -> bool {
        &&& forall|i: int| 0 <= i < self.vertices@.len() ==> (#[trigger] self.vertices@[i]).id.0
            < self.next_id
        &&& forall|i: int, j: int|
            0 <= i < j < self.vertices@.len() ==> (#[trigger] self.vertices@[i]).id != (
            #[trigger] self.vertices@[j]).id
    }

    pub open spec fn spec_get(self, id: VertexId) -> Option<Vertex> {
        find_vertex(self.vertices@, id)
    }

    pub open spec fn spec_contains(self, id: VertexId) -> bool {
        self.spec_get(id) is Some
    }

    /// Every id of `ids` names a vertex of this pool.
    pub open spec fn contains_all(self, ids: Seq<VertexId>) -> bool {
        forall|k: int| 0 <= k < ids.len() ==> self.spec_contains(#[trigger] ids[k])
    }

    pub fn new() -> (r: VerticesPool)
        ensures
            r.vertices@ =~= Seq::<Vertex>::empty(),
            r.next_id == 0,
            r.wf(),
    {
        VerticesPool { vertices: Vec::new(), next_id: 0 }
    }

    /// Creates a vertex at `pt` with a fresh identifier, stores it, and
    /// returns a copy. `saved_pt` starts equal to `pt`.
    pub fn add(&mut self, pt: Pt) -> (v: Vertex)
        requires
            old(self).wf(),
            old(self).next_id < usize::MAX,
        ensures
            v == (Vertex {
                id: VertexId(old(self).next_id),
                pt,
                saved_pt: pt,
                magnetic: true,
                draggable: true,
                selected: false,
            }),
            final(self).vertices@ == old(self).vertices@.push(v),
            final(self).next_id == old(self).next_id + 1,
            final(self).wf(),
            final(self).spec_get(v.id) == Some(v),
    {
        let id = VertexId::new_id(&mut self.next_id);
        let v = Vertex { id, pt, saved_pt: pt, magnetic: true, draggable: true, selected: false };
        self.vertices.push(v);
        proof {
            let s = self.vertices@;
            assert(forall|j: int| 0 <= j < s.len() - 1 ==> (#[trigger] s[j]).id != v.id);
            lemma_find_vertex_at(s, v.id, s.len() - 1);
        }
        v
    }

    /// Looks a vertex up by identifier; returns a copy.
    pub fn get(&self, id: VertexId) -> (r: Option<Vertex>)
        ensures
            r == self.spec_get(id),
    {
        let mut k: usize = 0;
        while k < self.vertices.len()
            invariant
                0 <= k <= self.vertices@.len(),
                forall|j: int| 0 <= j < k ==> (#[trigger] self.vertices@[j]).id != id,
            decreases self.vertices@.len() - k,
        {
            let v = self.vertices[k];
            if v.id == id {
                proof {
                    lemma_find_vertex_at(self.vertices@, id, k as int);
                }
                return Some(v);
            }
            k = k + 1;
        }
        proof {
            lemma_find_vertex_none(self.vertices@, id);
        }
        None
    }

    /// Moves the vertex carrying `id` to `pt`, leaving its identity, saved
    /// position and editing flags untouched; reports whether it was found.
    /// Every other vertex is left exactly as it was.
    pub fn set_pt(&mut self, id: VertexId, pt: Pt) -> (found: bool)
        requires
            old(self).wf(),
        ensures
            found == old(self).spec_contains(id),
            final(self).wf(),
            final(self).next_id == old(self).next_id,
            final(self).vertices@.len() == old(self).vertices@.len(),
            forall|t: int|
                0 <= t < old(self).vertices@.len() ==> (#[trigger] final(self).vertices@[t]) == (
                if old(self).vertices@[t].id == id {
                    (Vertex { pt, ..old(self).vertices@[t] })
                } else {
                    old(self).vertices@[t]
                }),
    {
        let ghost orig = old(self).vertices@;
        let n = self.vertices.len();
        let mut k: usize = 0;
        while k < n
            invariant
                0 <= k <= n,
                n == self.vertices@.len(),
                self.vertices@ == orig,
                self.next_id == old(self).next_id,
                orig == old(self).vertices@,
                old(self).wf(),
                forall|j: int| 0 <= j < k ==> (#[trigger] orig[j]).id != id,
            decreases n - k,
        {
            let v = self.vertices[k];
            if v.id == id {
                let updated = Vertex { pt, ..v };
                self.vertices[k] = updated;
                proof {
                    lemma_find_vertex_at(orig, id, k as int);
                    assert(forall|t: int|
                        0 <= t < orig.len() && t != k ==> (#[trigger] orig[t]).id != id);
                }
                return true;
            }
            k = k + 1;
        }
        proof {
            lemma_find_vertex_none(orig, id);
        }
        false
    }

    /// Number of vertices stored.
    pub fn len(&self) -> (r: usize)
        ensures
            r == self.vertices@.len(),
    {
        self.vertices.len()
    }
}

/// Owns every constraint instance, together with the counter that issues
/// binding identifiers. Constructing a binding never validates geometric
/// feasibility: degeneracy surfaces only at solve time.
pub struct BindingsPool {
    pub bindings: Vec<Binding>,
    pub next_id: usize,
}

impl BindingsPool {
    /// Identifiers are pairwise distinct and below the allocation counter.
    pub open spec fn wf(self) -> bool {
        &&& forall|i: int| 0 <= i < self.bindings@.len() ==> (#[trigger] self.bindings@[i]).spec_id().0
            < self.next_id
        &&& forall|i: int, j: int|
            0 <= i < j < self.bindings@.len() ==> (#[trigger] self.bindings@[i]).spec_id() != (
            #[trigger] self.bindings@[j]).spec_id()
    }

    pub fn new() -> (r: BindingsPool)
        ensures
            r.bindings@ =~= Seq::<Binding>::empty(),
            r.next_id == 0,
            r.wf(),
    {
        BindingsPool { bindings: Vec::new(), next_id: 0 }
    }

    /// Number of bindings stored.
    pub fn len(&self) -> (r: usize)
        ensures
            r == self.bindings@.len(),
    {
        self.bindings.len()
    }

    /// Pins `v` to its position at creation time.
    pub fn add_bind_fixed(&mut self, v: &Vertex) -> (bind: BindFixed)
        requires
            old(self).wf(),
            old(self).next_id < usize::MAX,
        ensures
            bind == (BindFixed {
                id: BindingId(old(self).next_id),
                fixed_value: v.pt,
                v_id: v.id,
            }),
            final(self).bindings@ == old(self).bindings@.push(Binding::Fixed(bind)),
            final(self).next_id == old(self).next_id + 1,
            final(self).wf(),
    {
        let id = BindingId::new_id(&mut self.next_id);
        let bind = BindFixed { id, fixed_value: v.pt, v_id: v.id };
        self.bindings.push(Binding::Fixed(bind));
        bind
    }

    /// Pins `v`'s X coordinate to its value at creation time.
    pub fn add_bind_fixed_x(&mut self, v: &Vertex) -> (bind: BindFixedX)
        requires
            old(self).wf(),
            old(self).next_id < usize::MAX,
        ensures
            bind == (BindFixedX {
                id: BindingId(old(self).next_id),
                fixed_value: v.pt.x,
                v_id: v.id,
            }),
            final(self).bindings@ == old(self).bindings@.push(Binding::FixedX(bind)),
            final(self).next_id == old(self).next_id + 1,
            final(self).wf(),
    {
        let id = BindingId::new_id(&mut self.next_id);
        let bind = BindFixedX { id, fixed_value: v.pt.x, v_id: v.id };
        self.bindings.push(Binding::FixedX(bind));
        bind
    }

    /// Pins `v`'s Y coordinate to its value at creation time.
    pub fn add_bind_fixed_y(&mut self, v: &Vertex) -> (bind: BindFixedY)
        requires
            old(self).wf(),
            old(self).next_id < usize::MAX,
        ensures
            bind == (BindFixedY {
                id: BindingId(old(self).next_id),
                fixed_value: v.pt.y,
                v_id: v.id,
            }),
            final(self).bindings@ == old(self).bindings@.push(Binding::FixedY(bind)),
            final(self).next_id == old(self).next_id + 1,
            final(self).wf(),
    {
        let id = BindingId::new_id(&mut self.next_id);
        let bind = BindFixedY { id, fixed_value: v.pt.y, v_id: v.id };
        self.bindings.push(Binding::FixedY(bind));
        bind
    }

    /// Requires the two endpoints of `seg` to share their X coordinate.
    pub fn add_bind_vertical(&mut self, seg: (&Vertex, &Vertex)) -> (bind: BindVertical)
        requires
            old(self).wf(),
            old(self).next_id < usize::MAX,
        ensures
            bind == (BindVertical {
                id: BindingId(old(self).next_id),
                va_id: seg.0.id,
                vb_id: seg.1.id,
            }),
            final(self).bindings@ == old(self).bindings@.push(Binding::Vertical(bind)),
            final(self).next_id == old(self).next_id + 1,
            final(self).wf(),
    {
        let id = BindingId::new_id(&mut self.next_id);
        let bind = BindVertical { id, va_id: seg.0.id, vb_id: seg.1.id };
        self.bindings.push(Binding::Vertical(bind));
        bind
    }

    /// Requires the two endpoints of `seg` to share their Y coordinate.
    pub fn add_bind_horizontal(&mut self, seg: (&Vertex, &Vertex)) -> (bind: BindHorizontal)
        requires
            old(self).wf(),
            old(self).next_id < usize::MAX,
        ensures
            bind == (BindHorizontal {
                id: BindingId(old(self).next_id),
                va_id: seg.0.id,
                vb_id: seg.1.id,
            }),
            final(self).bindings@ == old(self).bindings@.push(Binding::Horizontal(bind)),
            final(self).next_id == old(self).next_id + 1,
            final(self).wf(),
    {
        let id = BindingId::new_id(&mut self.next_id);
        let bind = BindHorizontal { id, va_id: seg.0.id, vb_id: seg.1.id };
        self.bindings.push(Binding::Horizontal(bind));
        bind
    }

    /// Requires segment `seg1` to be parallel to segment `seg2`.
    pub fn add_bind_parallel(&mut self, seg1: (&Vertex, &Vertex), seg2: (&Vertex, &Vertex)) -> (bind:
        BindParallel)
        requires
            old(self).wf(),
            old(self).next_id < usize::MAX,
        ensures
            bind == (BindParallel {
                id: BindingId(old(self).next_id),
                l1va_id: seg1.0.id,
                l1vb_id: seg1.1.id,
                l2va_id: seg2.0.id,
                l2vb_id: seg2.1.id,
            }),
            final(self).bindings@ == old(self).bindings@.push(Binding::Parallel(bind)),
            final(self).next_id == old(self).next_id + 1,
            final(self).wf(),
    {
        let id = BindingId::new_id(&mut self.next_id);
        let bind = BindParallel {
            id,
            l1va_id: seg1.0.id,
            l1vb_id: seg1.1.id,
            l2va_id: seg2.0.id,
            l2vb_id: seg2.1.id,
        };
        self.bindings.push(Binding::Parallel(bind));
        bind
    }

    /// Requires the endpoints of `seg` to keep the squared distance
    /// `sq_distance_value`, frozen by the caller from the segment's current
    /// geometry at creation time (a deliberate "freeze now" semantics, not a
    /// later-specified target). The host computes the squared distance,
    /// since it is floating-point work.
    pub fn add_bind_distance(&mut self, seg: (&Vertex, &Vertex), sq_distance_value: u64) -> (bind:
        BindDistance)
        requires
            old(self).wf(),
            old(self).next_id < usize::MAX,
        ensures
            bind == (BindDistance {
                id: BindingId(old(self).next_id),
                sq_distance_value,
                va_id: seg.0.id,
                vb_id: seg.1.id,
            }),
            final(self).bindings@ == old(self).bindings@.push(Binding::Distance(bind)),
            final(self).next_id == old(self).next_id + 1,
            final(self).wf(),
    {
        let id = BindingId::new_id(&mut self.next_id);
        let bind = BindDistance { id, sq_distance_value, va_id: seg.0.id, vb_id: seg.1.id };
        self.bindings.push(Binding::Distance(bind));
        bind
    }
}

} // verus!
