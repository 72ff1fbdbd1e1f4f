//! The constraint-to-equation compiler and solve orchestration.
//!
//! `Eq2DConstraints` translates a binding store and a vertex store into a
//! flat unknown vector (the variable index `lut`, with its inverse map
//! `inv_lut`) and a residual-equation plan (`equations`). The numeric
//! residual formulas and the nonlinear iteration are floating-point work the
//! host performs over this plan; the compilation, the slot bookkeeping, the
//! stopping rule and the write-back of a solution are verified here.

use vstd::prelude::*;

use crate::math::BindFixed;
use crate::math::Binding;
use crate::math::BindingsPool;
use crate::math::Pt;
use crate::math::Vertex;
use crate::math::VertexId;
use crate::math::VerticesPool;
use crate::math::find_vertex;
use crate::math::insert_all;
use crate::math::insert_unique;

verus! {

/// One row of the residual vector, compiled down to unknown-vector slots and
/// captured constants. `slot`-like fields are always the even X slot of a
/// vertex; the Y value of the same vertex lives at the following slot.
///
/// Evaluated over an unknown vector `u` (writing `x(s)` for the `f64` at
/// slot `s`, `y(s)` for the one at `s + 1`, and `c(b)` for the `f64` with
/// bit pattern `b`), a row's residual is:
/// - `DiffX { slot, target }`: `x(slot) - c(target)`
/// - `DiffY { slot, target }`: `y(slot) - c(target)`
/// - `AlignX { a, b }`: `x(a) - x(b)`
/// - `AlignY { a, b }`: `y(a) - y(b)`
/// - `Cross { a1, b1, a2, b2 }`:
///   `(x(a2) - x(b2)) * (y(b1) - y(a1)) - (y(a2) - y(b2)) * (x(b1) - x(a1))`
/// - `DistDeficit { a, b, target_sq }`:
///   `|(y(b) - y(a))^2 + (x(b) - x(a))^2 - c(target_sq)|`
#[derive(Copy, Clone, PartialEq, Eq, Structural, Debug)]
pub enum Equation {
    DiffX { slot: usize, target: u64 },
    DiffY { slot: usize, target: u64 },
    AlignX { a: usize, b: usize },
    AlignY { a: usize, b: usize },
    Cross { a1: usize, b1: usize, a2: usize, b2: usize },
    DistDeficit { a: usize, b: usize, target_sq: u64 },
}

/// Every binding of `bp` references only vertices present in `vp`.
pub open spec fn pools_consistent(bp: BindingsPool, vp: VerticesPool) -> bool {
    forall|i: int|
        0 <= i < bp.bindings@.len() ==> vp.contains_all(
            (#[trigger] bp.bindings@[i]).spec_v_ids(),
        )
}

/// Left-to-right accumulation of the deduplicated vertex ids referenced by
/// `bs`, starting from `acc`.
pub open spec fn gather_from(acc: Seq<VertexId>, bs: Seq<Binding>) -> Seq<VertexId>
    decreases bs.len(),
{
    if bs.len() == 0 {
        acc
    } else {
        gather_from(insert_all(acc, bs[0].spec_v_ids()), bs.drop_first())
    }
}

/// The deduplicated vertex ids referenced by at least one binding of `bs`,
/// in first-reference order.
pub open spec fn gathered_ids(bs: Seq<Binding>) -> Seq<VertexId> {
    gather_from(Seq::<VertexId>::empty(), bs)
}

/// The vertex of `vp` carrying `id` (meaningful only when present).
pub open spec fn vertex_of(vp: VerticesPool, id: VertexId) -> Vertex {
    match find_vertex(vp.vertices@, id) {
        Some(v) => v,
        None => arbitrary(),
    }
}

/// The ordered unknown sequence for `ids`: per vertex its X bits then its Y
/// bits, read from `vp`.
pub open spec fn spec_lut(ids: Seq<VertexId>, vp: VerticesPool) -> Seq<(VertexId, u64)> {
    Seq::new(
        2 * ids.len(),
        |i: int|
            if i % 2 == 0 {
                (ids[i / 2], vertex_of(vp, ids[i / 2]).pt.x)
            } else {
                (ids[i / 2], vertex_of(vp, ids[i / 2]).pt.y)
            },
    )
}

/// The inverse map for `ids`: each id with the even slot of its X entry.
pub open spec fn spec_inv_lut(ids: Seq<VertexId>) -> Seq<(VertexId, usize)> {
    Seq::new(ids.len(), |j: int| (ids[j], (2 * j) as usize))
}

/// Whether the inverse map holds `id`.
pub open spec fn inv_contains(inv: Seq<(VertexId, usize)>, id: VertexId) -> bool {
    exists|j: int| 0 <= j < inv.len() && (#[trigger] inv[j]).0 == id
}

/// The slot the inverse map assigns to `id` (first match; meaningful only
/// when present).
pub open spec fn spec_slot(inv: Seq<(VertexId, usize)>, id: VertexId) -> usize
    decreases inv.len(),
{
    if inv.len() == 0 {
        0
    } else if inv[0].0 == id {
        inv[0].1
    } else {
        spec_slot(inv.drop_first(), id)
    }
}

/// The residual rows a single binding compiles to, under inverse map `inv`.
/// `Error` bindings compile to nothing.
pub open spec fn rows_of(b: Binding, inv: Seq<(VertexId, usize)>) -> Seq<Equation> {
    match b {
        Binding::Fixed(f) => seq![
            Equation::DiffX { slot: spec_slot(inv, f.v_id), target: f.fixed_value.x },
            Equation::DiffY { slot: spec_slot(inv, f.v_id), target: f.fixed_value.y },
        ],
        Binding::FixedX(f) => seq![
            Equation::DiffX { slot: spec_slot(inv, f.v_id), target: f.fixed_value },
        ],
        Binding::FixedY(f) => seq![
            Equation::DiffY { slot: spec_slot(inv, f.v_id), target: f.fixed_value },
        ],
        Binding::Vertical(v) => seq![
            Equation::AlignX { a: spec_slot(inv, v.va_id), b: spec_slot(inv, v.vb_id) },
        ],
        Binding::Horizontal(h) => seq![
            Equation::AlignY { a: spec_slot(inv, h.va_id), b: spec_slot(inv, h.vb_id) },
        ],
        Binding::Parallel(p) => seq![
            Equation::Cross {
                a1: spec_slot(inv, p.l1va_id),
                b1: spec_slot(inv, p.l1vb_id),
                a2: spec_slot(inv, p.l2va_id),
                b2: spec_slot(inv, p.l2vb_id),
            },
        ],
        Binding::Distance(d) => seq![
            Equation::DistDeficit {
                a: spec_slot(inv, d.va_id),
                b: spec_slot(inv, d.vb_id),
                target_sq: d.sq_distance_value,
            },
        ],
        Binding::Error(_) => seq![],
    }
}

/// The residual plan for `bs` in store order under inverse map `inv`.
pub open spec fn spec_equations(bs: Seq<Binding>, inv: Seq<(VertexId, usize)>) -> Seq<Equation>
    decreases bs.len(),
{
    if bs.len() == 0 {
        Seq::<Equation>::empty()
    } else {
        rows_of(bs[0], inv) + spec_equations(bs.drop_first(), inv)
    }
}

/// The total number of residual equations of `bs`: the sum of each
/// binding's equation count.
pub open spec fn total_eq_count(bs: Seq<Binding>) -> nat
    decreases bs.len(),
{
    if bs.len() == 0 {
        0
    } else {
        bs[0].eq_count() + total_eq_count(bs.drop_first())
    }
}

/// Every slot an equation reads is an even X slot whose Y companion is
/// still inside an unknown vector of length `len`.
pub open spec fn eq_slots_ok(e: Equation, len: int) -> bool {
    match e {
        Equation::DiffX { slot, .. } => slot % 2 == 0 && slot + 2 <= len,
        Equation::DiffY { slot, .. } => slot % 2 == 0 && slot + 2 <= len,
        Equation::AlignX { a, b } => a % 2 == 0 && a + 2 <= len && b % 2 == 0 && b + 2 <= len,
        Equation::AlignY { a, b } => a % 2 == 0 && a + 2 <= len && b % 2 == 0 && b + 2 <= len,
        Equation::Cross { a1, b1, a2, b2 } => a1 % 2 == 0 && a1 + 2 <= len && b1 % 2 == 0 && b1
            + 2 <= len && a2 % 2 == 0 && a2 + 2 <= len && b2 % 2 == 0 && b2 + 2 <= len,
        Equation::DistDeficit { a, b, .. } => a % 2 == 0 && a + 2 <= len && b % 2 == 0 && b + 2
            <= len,
    }
}

// ---------------------------------------------------------------------------
// Lemmas about the deduplicated gather.
// ---------------------------------------------------------------------------

proof fn lemma_insert_all_contains(acc: Seq<VertexId>, ids: Seq<VertexId>, x: VertexId)
    ensures
        insert_all(acc, ids).contains(x) <==> (acc.contains(x) || ids.contains(x)),
    decreases ids.len(),
{
    if ids.len() == 0 {
    } else {
        let acc1 = insert_unique(acc, ids[0]);
        assert(acc1.contains(x) <==> (acc.contains(x) || x == ids[0])) by {
            if !acc.contains(ids[0]) {
                assert(acc.push(ids[0])[acc.len() as int] == ids[0]);
                if acc.contains(x) {
                    let w = choose|w: int| 0 <= w < acc.len() && acc[w] == x;
                    assert(acc.push(ids[0])[w] == x);
                }
                if acc.push(ids[0]).contains(x) {
                    let w = choose|w: int|
                        0 <= w < acc.push(ids[0]).len() && acc.push(ids[0])[w] == x;
                    if w < acc.len() {
                        assert(acc[w] == x);
                    }
                }
            }
        }
        lemma_insert_all_contains(acc1, ids.drop_first(), x);
        assert(ids.contains(x) <==> (x == ids[0] || ids.drop_first().contains(x))) by {
            if ids.contains(x) {
                let w = choose|w: int| 0 <= w < ids.len() && ids[w] == x;
                if w > 0 {
                    assert(ids.drop_first()[w - 1] == x);
                }
            }
            if ids.drop_first().contains(x) {
                let w = choose|w: int|
                    0 <= w < ids.drop_first().len() && ids.drop_first()[w] == x;
                assert(ids[w + 1] == x);
            }
        }
    }
}

/// No id appears twice in `s`.
pub open spec fn no_dup_ids(s: Seq<VertexId>) -> bool {
    forall|i: int, j: int| 0 <= i < j < s.len() ==> s[i] != s[j]
}

proof fn lemma_insert_all_no_dup(acc: Seq<VertexId>, ids: Seq<VertexId>)
    requires
        no_dup_ids(acc),
    ensures
        no_dup_ids(insert_all(acc, ids)),
    decreases ids.len(),
{
    if ids.len() > 0 {
        let acc1 = insert_unique(acc, ids[0]);
        assert(no_dup_ids(acc1)) by {
            if !acc.contains(ids[0]) {
                assert forall|i: int, j: int| 0 <= i < j < acc1.len() implies acc1[i] != acc1[j] by {
                    if j == acc.len() {
                        assert(acc1[j] == ids[0]);
                        assert(acc1[i] == acc[i]);
                        if acc[i] == ids[0] {
                            assert(acc.contains(ids[0]));
                        }
                    }
                }
            }
        }
        lemma_insert_all_no_dup(acc1, ids.drop_first());
    }
}

proof fn lemma_gather_from_snoc(acc: Seq<VertexId>, bs: Seq<Binding>, b: Binding)
    ensures
        gather_from(acc, bs.push(b)) == insert_all(gather_from(acc, bs), b.spec_v_ids()),
    decreases bs.len(),
{
    if bs.len() == 0 {
        assert(bs.push(b)[0] == b);
        assert(bs.push(b).drop_first() =~= Seq::<Binding>::empty());
        assert(gather_from(insert_all(acc, b.spec_v_ids()), Seq::<Binding>::empty())
            == insert_all(acc, b.spec_v_ids()));
        assert(gather_from(acc, Seq::<Binding>::empty()) == acc);
    } else {
        assert(bs.push(b)[0] == bs[0]);
        assert(bs.push(b).drop_first() =~= bs.drop_first().push(b));
        lemma_gather_from_snoc(insert_all(acc, bs[0].spec_v_ids()), bs.drop_first(), b);
    }
}

proof fn lemma_gather_from_contains(acc: Seq<VertexId>, bs: Seq<Binding>, x: VertexId)
    ensures
        gather_from(acc, bs).contains(x) <==> (acc.contains(x) || exists|i: int|
            0 <= i < bs.len() && (#[trigger] bs[i]).spec_v_ids().contains(x)),
    decreases bs.len(),
{
    if bs.len() == 0 {
    } else {
        let acc1 = insert_all(acc, bs[0].spec_v_ids());
        lemma_insert_all_contains(acc, bs[0].spec_v_ids(), x);
        lemma_gather_from_contains(acc1, bs.drop_first(), x);
        assert((exists|i: int|
            0 <= i < bs.drop_first().len() && (#[trigger] bs.drop_first()[i]).spec_v_ids().contains(
                x,
            )) <==> (exists|i: int|
            1 <= i < bs.len() && (#[trigger] bs[i]).spec_v_ids().contains(x))) by {
            if exists|i: int|
                0 <= i < bs.drop_first().len()
                    && (#[trigger] bs.drop_first()[i]).spec_v_ids().contains(x) {
                let w = choose|i: int|
                    0 <= i < bs.drop_first().len()
                        && (#[trigger] bs.drop_first()[i]).spec_v_ids().contains(x);
                assert(bs[w + 1].spec_v_ids().contains(x));
            }
            if exists|i: int| 1 <= i < bs.len() && (#[trigger] bs[i]).spec_v_ids().contains(x) {
                let w = choose|i: int|
                    1 <= i < bs.len() && (#[trigger] bs[i]).spec_v_ids().contains(x);
                assert(bs.drop_first()[w - 1].spec_v_ids().contains(x));
            }
        }
    }
}

proof fn lemma_gather_from_no_dup(acc: Seq<VertexId>, bs: Seq<Binding>)
    requires
        no_dup_ids(acc),
    ensures
        no_dup_ids(gather_from(acc, bs)),
    decreases bs.len(),
{
    if bs.len() > 0 {
        lemma_insert_all_no_dup(acc, bs[0].spec_v_ids());
        lemma_gather_from_no_dup(insert_all(acc, bs[0].spec_v_ids()), bs.drop_first());
    }
}

// ---------------------------------------------------------------------------
// Lemmas about the slot lookup and the equation plan.
// ---------------------------------------------------------------------------

proof fn lemma_spec_slot_at(inv: Seq<(VertexId, usize)>, id: VertexId, i: int)
    requires
        0 <= i < inv.len(),
        inv[i].0 == id,
        forall|j: int| 0 <= j < i ==> (#[trigger] inv[j]).0 != id,
    ensures
        spec_slot(inv, id) == inv[i].1,
    decreases i,
{
    if i == 0 {
    } else {
        lemma_spec_slot_at(inv.drop_first(), id, i - 1);
    }
}

proof fn lemma_spec_slot_bound(inv: Seq<(VertexId, usize)>, id: VertexId, len: int)
    requires
        inv_contains(inv, id),
        forall|j: int|
            0 <= j < inv.len() ==> (#[trigger] inv[j]).1 % 2 == 0 && inv[j].1 + 2 <= len,
    ensures
        spec_slot(inv, id) % 2 == 0,
        spec_slot(inv, id) + 2 <= len,
    decreases inv.len(),
{
    if inv.len() == 0 {
    } else if inv[0].0 == id {
    } else {
        assert(inv_contains(inv.drop_first(), id)) by {
            let w = choose|j: int| 0 <= j < inv.len() && (#[trigger] inv[j]).0 == id;
            assert(inv.drop_first()[w - 1].0 == id);
        }
        lemma_spec_slot_bound(inv.drop_first(), id, len);
    }
}

proof fn lemma_spec_equations_snoc(bs: Seq<Binding>, b: Binding, inv: Seq<(VertexId, usize)>)
    ensures
        spec_equations(bs.push(b), inv) == spec_equations(bs, inv) + rows_of(b, inv),
    decreases bs.len(),
{
    if bs.len() == 0 {
        assert(bs.push(b)[0] == b);
        assert(bs.push(b).drop_first() =~= Seq::<Binding>::empty());
        assert(spec_equations(Seq::<Binding>::empty(), inv) == Seq::<Equation>::empty());
        assert(spec_equations(bs.push(b), inv) == rows_of(b, inv) + Seq::<Equation>::empty());
        assert(rows_of(b, inv) + Seq::<Equation>::empty() =~= Seq::<Equation>::empty() + rows_of(
            b,
            inv,
        ));
    } else {
        assert(bs.push(b)[0] == bs[0]);
        assert(bs.push(b).drop_first() =~= bs.drop_first().push(b));
        lemma_spec_equations_snoc(bs.drop_first(), b, inv);
        assert(rows_of(bs[0], inv) + (spec_equations(bs.drop_first(), inv) + rows_of(b, inv))
            =~= (rows_of(bs[0], inv) + spec_equations(bs.drop_first(), inv)) + rows_of(b, inv));
    }
}

// ---------------------------------------------------------------------------
// The compiled system.
// ---------------------------------------------------------------------------

/// The compiled form of one solve attempt: the ordered unknown sequence
/// (`lut`), the vertex-to-slot inverse map (`inv_lut`), and the residual
/// plan (`equations`), all built fresh from the two stores.
pub struct Eq2DConstraints {
    pub lut: Vec<(VertexId, u64)>,
    pub inv_lut: Vec<(VertexId, usize)>,
    pub equations: Vec<Equation>,
}

impl Eq2DConstraints {
    /// Structural soundness of the compiled system: each vertex owns two
    /// contiguous slots (X at the even offset recorded in the inverse map,
    /// Y just after), the inverse map is injective, and every equation
    /// reads only slots inside the unknown vector.
    pub open spec fn wf(self) -> bool {
        &&& self.lut@.len() == 2 * self.inv_lut@.len()
        &&& forall|j: int|
            0 <= j < self.inv_lut@.len() ==> (#[trigger] self.inv_lut@[j]).1 == (2 * j) as usize
        &&& forall|j: int, k: int|
            0 <= j < k < self.inv_lut@.len() ==> (#[trigger] self.inv_lut@[j]).0 != (
            #[trigger] self.inv_lut@[k]).0
        &&& forall|j: int|
            0 <= j < self.inv_lut@.len() ==> (#[trigger] self.lut@[2 * j]).0 == self.inv_lut@[j].0
                && self.lut@[2 * j + 1].0 == self.inv_lut@[j].0
        &&& forall|e: int|
            0 <= e < self.equations@.len() ==> eq_slots_ok(
                #[trigger] self.equations@[e],
                self.lut@.len() as int,
            )
    }

    /// Compiles the two stores into a solvable system.
    ///
    /// The unknown sequence holds exactly the vertices referenced by at
    /// least one binding, each as its X bits then its Y bits in
    /// first-reference order; the inverse map sends each such vertex id to
    /// its even X slot; and the residual plan lists every non-`Error`
    /// binding's rows in store order. All three are pure functions of the
    /// stores, so rebuilding from unchanged stores yields the same system.
    ///
    /// A binding referencing a vertex absent from `v_pool` is a caller
    /// contract violation, excluded here.
    pub fn new(bindings_pool: &BindingsPool, v_pool: &VerticesPool) -> (r: Eq2DConstraints)
        requires
            pools_consistent(*bindings_pool, *v_pool),
        ensures
            r.lut@ == spec_lut(gathered_ids(bindings_pool.bindings@), *v_pool),
            r.inv_lut@ == spec_inv_lut(gathered_ids(bindings_pool.bindings@)),
            r.equations@ == spec_equations(bindings_pool.bindings@, r.inv_lut@),
            r.equations@.len() == total_eq_count(bindings_pool.bindings@),
            r.wf(),
    {
        let ghost bs = bindings_pool.bindings@;

        // Gather the referenced vertex ids, deduplicated, in first-reference
        // order.
        let mut v_ids: Vec<VertexId> = Vec::new();
        let nb = bindings_pool.bindings.len();
        let mut i: usize = 0;
        while i < nb
            invariant
                0 <= i <= nb,
                nb == bs.len(),
                bs == bindings_pool.bindings@,
                v_ids@ == gather_from(Seq::<VertexId>::empty(), bs.take(i as int)),
            decreases nb - i,
        {
            let b = bindings_pool.bindings[i];
            b.get_v_ids(&mut v_ids);
            proof {
                assert(bs.take(i + 1) =~= bs.take(i as int).push(bs[i as int]));
                lemma_gather_from_snoc(Seq::<VertexId>::empty(), bs.take(i as int), bs[i as int]);
            }
            i = i + 1;
        }
        proof {
            assert(bs.take(nb as int) =~= bs);
        }
        let ghost ids = v_ids@;

        proof {
            assert forall|x: VertexId| ids.contains(x) implies v_pool.spec_contains(x) by {
                lemma_gather_from_contains(Seq::<VertexId>::empty(), bs, x);
                let w = choose|w: int|
                    0 <= w < bs.len() && (#[trigger] bs[w]).spec_v_ids().contains(x);
                assert(v_pool.contains_all(bs[w].spec_v_ids()));
                let k = choose|k: int|
                    0 <= k < bs[w].spec_v_ids().len() && bs[w].spec_v_ids()[k] == x;
            }
            lemma_gather_from_no_dup(Seq::<VertexId>::empty(), bs);
        }

        // Lay the unknown vector out: X bits then Y bits per vertex, and
        // record each vertex's even X slot in the inverse map.
        let mut lut: Vec<(VertexId, u64)> = Vec::new();
        let mut inv_lut: Vec<(VertexId, usize)> = Vec::new();
        let n = v_ids.len();
        let mut k: usize = 0;
        while k < n
            invariant
                0 <= k <= n,
                n == ids.len(),
                v_ids@ == ids,
                forall|x: VertexId| ids.contains(x) ==> v_pool.spec_contains(x),
                lut@.len() == 2 * k,
                inv_lut@.len() == k,
                forall|j: int|
                    0 <= j < k ==> (#[trigger] inv_lut@[j]) == (ids[j], (2 * j) as usize),
                forall|j: int|
                    0 <= j < k ==> (#[trigger] lut@[2 * j]) == (
                    ids[j],
                    vertex_of(*v_pool, ids[j]).pt.x,
                ) && lut@[2 * j + 1] == (ids[j], vertex_of(*v_pool, ids[j]).pt.y),
            decreases n - k,
        {
            let id = v_ids[k];
            proof {
                assert(ids[k as int] == id);
                assert(ids.contains(id));
            }
            let v = v_pool.get(id).unwrap();
            let slot = lut.len();
            lut.push((id, v.pt.x));
            lut.push((id, v.pt.y));
            inv_lut.push((id, slot));
            k = k + 1;
        }
        let lut_len: usize = lut.len();
        proof {
            assert forall|ii: int| 0 <= ii < lut@.len() implies lut@[ii] == spec_lut(
                ids,
                *v_pool,
            )[ii] by {
                let j = ii / 2;
                if ii % 2 == 0 {
                    assert(ii == 2 * j);
                    assert(lut@[2 * j] == (ids[j], vertex_of(*v_pool, ids[j]).pt.x));
                } else {
                    assert(ii == 2 * j + 1);
                    assert(lut@[2 * j] == (ids[j], vertex_of(*v_pool, ids[j]).pt.x));
                    assert(lut@[2 * j + 1] == (ids[j], vertex_of(*v_pool, ids[j]).pt.y));
                }
            }
            assert(lut@ =~= spec_lut(ids, *v_pool));
            assert(inv_lut@ =~= spec_inv_lut(ids));
            assert forall|j: int| 0 <= j < inv_lut@.len() implies (#[trigger] inv_lut@[j]).1 % 2
                == 0 && inv_lut@[j].1 + 2 <= lut@.len() by {
                assert(inv_lut@[j] == (ids[j], (2 * j) as usize));
                assert(2 * j + 2 <= lut_len);
            }
        }

        // Every id a binding references has a slot in the inverse map, and
        // every slot recorded there is an even offset with its Y companion
        // in range.
        proof {
            assert forall|bi: int, kk: int|
                0 <= bi < bs.len() && 0 <= kk < bs[bi].spec_v_ids().len() implies inv_contains(
                inv_lut@,
                #[trigger] bs[bi].spec_v_ids()[kk],
            ) by {
                let x = bs[bi].spec_v_ids()[kk];
                assert(bs[bi].spec_v_ids().contains(x));
                lemma_gather_from_contains(Seq::<VertexId>::empty(), bs, x);
                assert(ids.contains(x));
                let w = choose|w: int| 0 <= w < ids.len() && ids[w] == x;
                assert(inv_lut@[w].0 == x);
            }
            assert forall|x: VertexId| inv_contains(inv_lut@, x) implies spec_slot(inv_lut@, x) % 2
                == 0 && spec_slot(inv_lut@, x) + 2 <= lut@.len() by {
                lemma_spec_slot_bound(inv_lut@, x, lut@.len() as int);
            }
        }

        // Compile each binding, in store order, to its residual rows.
        let mut equations: Vec<Equation> = Vec::new();
        let mut bi: usize = 0;
        while bi < nb
            invariant
                0 <= bi <= nb,
                nb == bs.len(),
                bs == bindings_pool.bindings@,
                equations@ == spec_equations(bs.take(bi as int), inv_lut@),
                forall|w: int, kk: int|
                    0 <= w < bs.len() && 0 <= kk < bs[w].spec_v_ids().len() ==> inv_contains(
                        inv_lut@,
                        #[trigger] bs[w].spec_v_ids()[kk],
                    ),
                forall|x: VertexId|
                    inv_contains(inv_lut@, x) ==> spec_slot(inv_lut@, x) % 2 == 0 && spec_slot(
                        inv_lut@,
                        x,
                    ) + 2 <= lut@.len(),
                forall|e: int|
                    0 <= e < equations@.len() ==> eq_slots_ok(
                        #[trigger] equations@[e],
                        lut@.len() as int,
                    ),
            decreases nb - bi,
        {
            let b = bindings_pool.bindings[bi];
            proof {
                assert(bs[bi as int] == b);
            }
            match b {
                Binding::Fixed(f) => {
                    proof {
                        assert(b.spec_v_ids()[0] == f.v_id);
                    }
                    let s = slot_of(&inv_lut, f.v_id);
                    equations.push(Equation::DiffX { slot: s, target: f.fixed_value.x });
                    equations.push(Equation::DiffY { slot: s, target: f.fixed_value.y });
                },
                Binding::FixedX(f) => {
                    proof {
                        assert(b.spec_v_ids()[0] == f.v_id);
                    }
                    let s = slot_of(&inv_lut, f.v_id);
                    equations.push(Equation::DiffX { slot: s, target: f.fixed_value });
                },
                Binding::FixedY(f) => {
                    proof {
                        assert(b.spec_v_ids()[0] == f.v_id);
                    }
                    let s = slot_of(&inv_lut, f.v_id);
                    equations.push(Equation::DiffY { slot: s, target: f.fixed_value });
                },
                Binding::Vertical(vb) => {
                    proof {
                        assert(b.spec_v_ids()[0] == vb.va_id);
                        assert(b.spec_v_ids()[1] == vb.vb_id);
                    }
                    let sa = slot_of(&inv_lut, vb.va_id);
                    let sb = slot_of(&inv_lut, vb.vb_id);
                    equations.push(Equation::AlignX { a: sa, b: sb });
                },
                Binding::Horizontal(hb) => {
                    proof {
                        assert(b.spec_v_ids()[0] == hb.va_id);
                        assert(b.spec_v_ids()[1] == hb.vb_id);
                    }
                    let sa = slot_of(&inv_lut, hb.va_id);
                    let sb = slot_of(&inv_lut, hb.vb_id);
                    equations.push(Equation::AlignY { a: sa, b: sb });
                },
                Binding::Parallel(p) => {
                    proof {
                        assert(b.spec_v_ids()[0] == p.l1va_id);
                        assert(b.spec_v_ids()[1] == p.l1vb_id);
                        assert(b.spec_v_ids()[2] == p.l2va_id);
                        assert(b.spec_v_ids()[3] == p.l2vb_id);
                    }
                    let a1 = slot_of(&inv_lut, p.l1va_id);
                    let b1 = slot_of(&inv_lut, p.l1vb_id);
                    let a2 = slot_of(&inv_lut, p.l2va_id);
                    let b2 = slot_of(&inv_lut, p.l2vb_id);
                    equations.push(Equation::Cross { a1, b1, a2, b2 });
                },
                Binding::Distance(d) => {
                    proof {
                        assert(b.spec_v_ids()[0] == d.va_id);
                        assert(b.spec_v_ids()[1] == d.vb_id);
                    }
                    let sa = slot_of(&inv_lut, d.va_id);
                    let sb = slot_of(&inv_lut, d.vb_id);
                    equations.push(
                        Equation::DistDeficit { a: sa, b: sb, target_sq: d.sq_distance_value },
                    );
                },
                Binding::Error(_) => {},
            }
            proof {
                assert(bs.take(bi + 1) =~= bs.take(bi as int).push(b));
                lemma_spec_equations_snoc(bs.take(bi as int), b, inv_lut@);
                assert(equations@ =~= spec_equations(bs.take(bi as int), inv_lut@) + rows_of(
                    b,
                    inv_lut@,
                ));
            }
            bi = bi + 1;
        }
        proof {
            assert(bs.take(nb as int) =~= bs);
            lemma_equations_len(bs, inv_lut@);
        }

        Eq2DConstraints { lut, inv_lut, equations }
    }

    /// The initial unknown vector: each compiled vertex's coordinates as
    /// captured in the ordered sequence, X then Y.
    pub fn initial_guess(&self) -> (r: Vec<u64>)
        ensures
            r@.len() == self.lut@.len(),
            forall|i: int| 0 <= i < r@.len() ==> r@[i] == (#[trigger] self.lut@[i]).1,
    {
        let mut init: Vec<u64> = Vec::new();
        let n = self.lut.len();
        let mut i: usize = 0;
        while i < n
            invariant
                0 <= i <= n,
                n == self.lut@.len(),
                init@.len() == i,
                forall|j: int| 0 <= j < i ==> init@[j] == (#[trigger] self.lut@[j]).1,
            decreases n - i,
        {
            init.push(self.lut[i].1);
            i = i + 1;
        }
        init
    }

    /// The stopping rule supplied to the external solver, evaluated once
    /// per iteration: stop as soon as the residual norm is within tolerance
    /// or the iteration count reaches the cap of `100`, whichever first.
    /// The host evaluates the floating-point comparison of the norm against
    /// the tolerance and passes its outcome in.
    pub fn should_stop(iteration: usize, norm_within_tolerance: bool) -> (r: bool)
        ensures
            r == (norm_within_tolerance || iteration >= 100),
    {
        norm_within_tolerance || iteration >= 100
    }

    /// Writes a solution vector back into the vertex store: every vertex
    /// with a slot in the inverse map moves to the solved coordinates at
    /// its slot pair; every other vertex, and every non-position field, is
    /// left exactly as it was.
    ///
    /// A mapped vertex missing from `v_pool` is a caller contract
    /// violation, excluded here.
    pub fn apply_solution(&self, sol: &Vec<u64>, v_pool: &mut VerticesPool)
        requires
            self.wf(),
            sol@.len() == self.lut@.len(),
            old(v_pool).wf(),
            forall|j: int|
                0 <= j < self.inv_lut@.len() ==> old(v_pool).spec_contains(
                    (#[trigger] self.inv_lut@[j]).0,
                ),
        ensures
            final(v_pool).wf(),
            final(v_pool).next_id == old(v_pool).next_id,
            final(v_pool).vertices@.len() == old(v_pool).vertices@.len(),
            forall|t: int|
                0 <= t < old(v_pool).vertices@.len() ==> (#[trigger] final(v_pool).vertices@[t])
                    == (if inv_contains(self.inv_lut@, old(v_pool).vertices@[t].id) {
                    moved_vertex(old(v_pool).vertices@[t], self.inv_lut@, sol@)
                } else {
                    old(v_pool).vertices@[t]
                }),
    {
        let ghost orig = old(v_pool).vertices@;
        let ghost inv = self.inv_lut@;
        let sol_len: usize = sol.len();
        let m = self.inv_lut.len();
        let mut j: usize = 0;
        while j < m
            invariant
                0 <= j <= m,
                m == inv.len(),
                inv == self.inv_lut@,
                self.wf(),
                sol@.len() == self.lut@.len(),
                sol_len == sol@.len(),
                orig == old(v_pool).vertices@,
                forall|w: int|
                    0 <= w < inv.len() ==> old(v_pool).spec_contains((#[trigger] inv[w]).0),
                v_pool.wf(),
                v_pool.next_id == old(v_pool).next_id,
                v_pool.vertices@.len() == orig.len(),
                forall|t: int|
                    0 <= t < orig.len() ==> (#[trigger] v_pool.vertices@[t]) == (
                    if exists|w: int| 0 <= w < j && (#[trigger] inv[w]).0 == orig[t].id {
                        moved_vertex(orig[t], inv, sol@)
                    } else {
                        orig[t]
                    }),
                forall|t: int|
                    0 <= t < orig.len() ==> (#[trigger] v_pool.vertices@[t]).id == orig[t].id,
            decreases m - j,
        {
            let pair = self.inv_lut[j];
            let id = pair.0;
            let slot = pair.1;
            proof {
                assert(inv[j as int] == pair);
                assert(sol_len == 2 * m);
                assert(2 * (j as int) + 2 <= sol_len as int);
                assert(inv[j as int].1 == (2 * (j as int)) as usize);
                assert(inv[j as int].1 == 2 * (j as int));
                assert(slot + 2 <= sol@.len());
                assert forall|w: int| 0 <= w < j implies (#[trigger] inv[w]).0 != id by {
                    assert(inv[w].0 != inv[j as int].0);
                }
                lemma_spec_slot_at(inv, id, j as int);
            }
            let pt = Pt { x: sol[slot], y: sol[slot + 1] };
            let ghost before = v_pool.vertices@;
            let found = v_pool.set_pt(id, pt);
            proof {
                assert forall|t: int|
                    0 <= t < orig.len() implies (#[trigger] v_pool.vertices@[t]) == (
                    if exists|w: int| 0 <= w < j + 1 && (#[trigger] inv[w]).0 == orig[t].id {
                        moved_vertex(orig[t], inv, sol@)
                    } else {
                        orig[t]
                    }) by {
                    if before[t].id == id {
                        assert(orig[t].id == id);
                        assert(inv[j as int].0 == orig[t].id);
                        assert(before[t] == orig[t]) by {
                            if exists|w: int| 0 <= w < j && (#[trigger] inv[w]).0 == orig[t].id {
                                let w = choose|w: int|
                                    0 <= w < j && (#[trigger] inv[w]).0 == orig[t].id;
                                assert(inv[w].0 != inv[j as int].0);
                            }
                        }
                        assert(v_pool.vertices@[t] == moved_vertex(orig[t], inv, sol@));
                    } else {
                        assert(v_pool.vertices@[t] == before[t]);
                        assert(orig[t].id != id);
                        if exists|w: int| 0 <= w < j + 1 && (#[trigger] inv[w]).0 == orig[t].id {
                            let w = choose|w: int|
                                0 <= w < j + 1 && (#[trigger] inv[w]).0 == orig[t].id;
                            assert(w < j);
                            assert(exists|w2: int|
                                0 <= w2 < j && (#[trigger] inv[w2]).0 == orig[t].id);
                        }
                    }
                }
            }
            j = j + 1;
        }
        proof {
            assert forall|t: int|
                0 <= t < orig.len() implies (#[trigger] final(v_pool).vertices@[t]) == (
                if inv_contains(inv, orig[t].id) {
                    moved_vertex(orig[t], inv, sol@)
                } else {
                    orig[t]
                }) by {
                if inv_contains(inv, orig[t].id) {
                    let w = choose|w: int| 0 <= w < inv.len() && (#[trigger] inv[w]).0 == orig[t].id;
                    assert(exists|w2: int| 0 <= w2 < m && (#[trigger] inv[w2]).0 == orig[t].id);
                }
            }
        }
    }

    /// Finishes a solve from the external solver's outcome.
    ///
    /// On an internal solver error the store is untouched and the error is
    /// forwarded. On a solution within tolerance the solution is written
    /// back and the solve succeeds. On a solution out of tolerance (the
    /// iteration cap was hit first) the store is untouched and
    /// non-convergence is reported. No partial write-back ever occurs.
    pub fn complete_solve(&self, outcome: Result<(Vec<u64>, bool), String>, v_pool: &mut VerticesPool)
        -> (r: Result<(), String>)
        requires
            self.wf(),
            old(v_pool).wf(),
            outcome matches Ok(p) ==> p.0@.len() == self.lut@.len(),
            outcome matches Ok(p) ==> forall|j: int|
                0 <= j < self.inv_lut@.len() ==> old(v_pool).spec_contains(
                    (#[trigger] self.inv_lut@[j]).0,
                ),
        ensures
            final(v_pool).wf(),
            match outcome {
                Err(e) => *final(v_pool) == *old(v_pool) && r == Err::<(), String>(e),
                Ok(p) => {
                    if p.1 {
                        &&& r is Ok
                        &&& final(v_pool).next_id == old(v_pool).next_id
                        &&& final(v_pool).vertices@.len() == old(v_pool).vertices@.len()
                        &&& forall|t: int|
                            0 <= t < old(v_pool).vertices@.len() ==> (
                            #[trigger] final(v_pool).vertices@[t]) == (if inv_contains(
                                self.inv_lut@,
                                old(v_pool).vertices@[t].id,
                            ) {
                                moved_vertex(old(v_pool).vertices@[t], self.inv_lut@, p.0@)
                            } else {
                                old(v_pool).vertices@[t]
                            })
                    } else {
                        &&& *final(v_pool) == *old(v_pool)
                        &&& r matches Err(m) && m@ == "did not converge"@
                    }
                },
            },
    {
        match outcome {
            Err(e) => Err(e),
            Ok((sol, norm_within_tolerance)) => {
                if norm_within_tolerance {
                    self.apply_solution(&sol, v_pool);
                    Ok(())
                } else {
                    Err(String::from_str("did not converge"))
                }
            },
        }
    }
}

/// `v` moved to the solved coordinates at its slot pair, everything else
/// kept.
pub open spec fn moved_vertex(v: Vertex, inv: Seq<(VertexId, usize)>, sol: Seq<u64>) -> Vertex {
    Vertex {
        pt: Pt { x: sol[spec_slot(inv, v.id) as int], y: sol[spec_slot(inv, v.id) + 1] },
        ..v
    }
}

/// A vertex id enters the compiled unknown sequence exactly when at least
/// one binding references it: unreferenced vertices are no part of the
/// solved system, and every referenced vertex gets its slot pair.
pub proof fn lemma_index_covers_referenced(bs: Seq<Binding>, id: VertexId)
    ensures
        gathered_ids(bs).contains(id) <==> exists|i: int|
            0 <= i < bs.len() && (#[trigger] bs[i]).spec_v_ids().contains(id),
{
    lemma_gather_from_contains(Seq::<VertexId>::empty(), bs, id);
}

/// A `Fixed` binding whose target was captured from the vertex's current
/// stored position compiles to rows whose targets are, bit for bit, the
/// initial unknown values at the vertex's slot pair: the initial guess
/// already meets such a binding exactly, before any solver iteration.
pub proof fn lemma_fixed_target_is_initial(bs: Seq<Binding>, vp: VerticesPool, i: int, f: BindFixed)
    requires
        0 <= i < bs.len(),
        bs[i] == Binding::Fixed(f),
        f.fixed_value == vertex_of(vp, f.v_id).pt,
        2 * gathered_ids(bs).len() <= usize::MAX,
    ensures
        ({
            let ids = gathered_ids(bs);
            let inv = spec_inv_lut(ids);
            let lut = spec_lut(ids, vp);
            let slot = spec_slot(inv, f.v_id);
            &&& lut[slot as int].1 == f.fixed_value.x
            &&& lut[slot + 1].1 == f.fixed_value.y
        }),
{
    let ids = gathered_ids(bs);
    let inv = spec_inv_lut(ids);
    let lut = spec_lut(ids, vp);
    assert(bs[i].spec_v_ids()[0] == f.v_id);
    assert(bs[i].spec_v_ids().contains(f.v_id));
    lemma_gather_from_contains(Seq::<VertexId>::empty(), bs, f.v_id);
    assert(ids.contains(f.v_id));
    lemma_gather_from_no_dup(Seq::<VertexId>::empty(), bs);
    let w = choose|w: int| 0 <= w < ids.len() && ids[w] == f.v_id;
    assert forall|j: int| 0 <= j < w implies (#[trigger] inv[j]).0 != f.v_id by {
        assert(ids[j] != ids[w]);
    }
    assert(inv[w].0 == f.v_id);
    lemma_spec_slot_at(inv, f.v_id, w);
    assert(spec_slot(inv, f.v_id) == (2 * w) as usize);
    assert((2 * w) as usize == 2 * w);
    assert(lut[2 * w].1 == vertex_of(vp, f.v_id).pt.x);
    assert(lut[2 * w + 1].1 == vertex_of(vp, f.v_id).pt.y);
}

/// The Variable Index is deterministic: any two compilations of the same
/// binding store against the same vertex store carry the same ordered
/// unknown sequence, the same inverse map and the same residual plan.
pub proof fn lemma_compile_deterministic(
    bp: BindingsPool,
    vp: VerticesPool,
    r1: Eq2DConstraints,
    r2: Eq2DConstraints,
)
    requires
        r1.lut@ == spec_lut(gathered_ids(bp.bindings@), vp),
        r1.inv_lut@ == spec_inv_lut(gathered_ids(bp.bindings@)),
        r1.equations@ == spec_equations(bp.bindings@, r1.inv_lut@),
        r2.lut@ == spec_lut(gathered_ids(bp.bindings@), vp),
        r2.inv_lut@ == spec_inv_lut(gathered_ids(bp.bindings@)),
        r2.equations@ == spec_equations(bp.bindings@, r2.inv_lut@),
    ensures
        r1.lut@ == r2.lut@,
        r1.inv_lut@ == r2.inv_lut@,
        r1.equations@ == r2.equations@,
{
}

/// The slot `inv` assigns to `id`, which must be present.
fn slot_of(inv: &Vec<(VertexId, usize)>, id: VertexId) -> (r: usize)
    requires
        inv_contains(inv@, id),
    ensures
        r == spec_slot(inv@, id),
{
    let mut k: usize = 0;
    while k < inv.len()
        invariant
            0 <= k <= inv@.len(),
            forall|j: int| 0 <= j < k ==> (#[trigger] inv@[j]).0 != id,
        decreases inv@.len() - k,
    {
        let pair = inv[k];
        if pair.0 == id {
            proof {
                lemma_spec_slot_at(inv@, id, k as int);
            }
            return pair.1;
        }
        k = k + 1;
    }
    proof {
        let w = choose|j: int| 0 <= j < inv@.len() && (#[trigger] inv@[j]).0 == id;
        assert(false);
    }
    0
}

proof fn lemma_total_eq_count_snoc(bs: Seq<Binding>, b: Binding)
    ensures
        total_eq_count(bs.push(b)) == total_eq_count(bs) + b.eq_count(),
    decreases bs.len(),
{
    if bs.len() == 0 {
        assert(bs.push(b)[0] == b);
        assert(bs.push(b).drop_first() =~= Seq::<Binding>::empty());
        assert(total_eq_count(Seq::<Binding>::empty()) == 0);
    } else {
        assert(bs.push(b)[0] == bs[0]);
        assert(bs.push(b).drop_first() =~= bs.drop_first().push(b));
        lemma_total_eq_count_snoc(bs.drop_first(), b);
    }
}

/// The residual plan's length is the sum of the bindings' equation counts.
proof fn lemma_equations_len(bs: Seq<Binding>, inv: Seq<(VertexId, usize)>)
    ensures
        spec_equations(bs, inv).len() == total_eq_count(bs),
    decreases bs.len(),
{
    if bs.len() > 0 {
        lemma_equations_len(bs.drop_first(), inv);
    }
}

} // verus!
