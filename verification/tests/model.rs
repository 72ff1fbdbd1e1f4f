//! Tests of the data model: pools, identifier allocation, binding capture,
//! the variable index and the compiled equation plan.

use eq2d::math::{BindError, Binding, BindingId, BindingsPool, Pt, VertexId, VerticesPool};
use eq2d::solver::{Eq2DConstraints, Equation};

fn pt(x: f64, y: f64) -> Pt {
    Pt { x: x.to_bits(), y: y.to_bits() }
}

fn dist_sq(a: &Pt, b: &Pt) -> f64 {
    let (ax, ay) = (f64::from_bits(a.x), f64::from_bits(a.y));
    let (bx, by) = (f64::from_bits(b.x), f64::from_bits(b.y));
    (by - ay).powi(2) + (bx - ax).powi(2)
}

#[test]
fn vertex_id_allocation_is_monotonic() {
    let mut counter: usize = 0;
    let a = VertexId::new_id(&mut counter);
    let b = VertexId::new_id(&mut counter);
    let c = VertexId::new_id(&mut counter);
    assert_eq!(a, VertexId(0));
    assert_eq!(b, VertexId(1));
    assert_eq!(c, VertexId(2));
    assert_eq!(counter, 3);
}

#[test]
fn binding_id_allocation_is_monotonic() {
    let mut counter: usize = 5;
    let a = BindingId::new_id(&mut counter);
    let b = BindingId::new_id(&mut counter);
    assert_eq!(a, BindingId(5));
    assert_eq!(b, BindingId(6));
    assert_eq!(counter, 7);
}

#[test]
fn vertices_pool_add_and_get() {
    let mut pool = VerticesPool::new();
    let v = pool.add(pt(1.5, -2.0));
    assert_eq!(v.id, VertexId(0));
    assert_eq!(v.pt, pt(1.5, -2.0));
    assert_eq!(v.saved_pt, pt(1.5, -2.0));
    assert!(v.magnetic);
    assert!(v.draggable);
    assert!(!v.selected);

    let w = pool.add(pt(3.0, 4.0));
    assert_eq!(w.id, VertexId(1));
    assert_eq!(pool.len(), 2);

    let got = pool.get(v.id).unwrap();
    assert_eq!(got.pt, pt(1.5, -2.0));
    assert!(pool.get(VertexId(99)).is_none());
}

#[test]
fn vertices_pool_set_pt_moves_only_position() {
    let mut pool = VerticesPool::new();
    let v = pool.add(pt(0.0, 0.0));
    let other = pool.add(pt(7.0, 7.0));

    assert!(pool.set_pt(v.id, pt(2.0, 3.0)));
    let moved = pool.get(v.id).unwrap();
    assert_eq!(moved.pt, pt(2.0, 3.0));
    assert_eq!(moved.saved_pt, pt(0.0, 0.0));
    assert_eq!(moved.id, v.id);
    assert!(moved.magnetic && moved.draggable && !moved.selected);

    let untouched = pool.get(other.id).unwrap();
    assert_eq!(untouched.pt, pt(7.0, 7.0));

    assert!(!pool.set_pt(VertexId(42), pt(1.0, 1.0)));
}

#[test]
fn binding_constructors_capture_current_geometry() {
    let mut v_pool = VerticesPool::new();
    let a = v_pool.add(pt(-27.0, 30.0));
    let b = v_pool.add(pt(120.0, 20.0));

    let mut bind_pool = BindingsPool::new();
    let fixed = bind_pool.add_bind_fixed(&a);
    assert_eq!(fixed.fixed_value, a.pt);
    assert_eq!(fixed.v_id, a.id);

    let fixed_x = bind_pool.add_bind_fixed_x(&b);
    assert_eq!(fixed_x.fixed_value, b.pt.x);
    let fixed_y = bind_pool.add_bind_fixed_y(&b);
    assert_eq!(fixed_y.fixed_value, b.pt.y);

    let vertical = bind_pool.add_bind_vertical((&a, &b));
    assert_eq!((vertical.va_id, vertical.vb_id), (a.id, b.id));
    let horizontal = bind_pool.add_bind_horizontal((&a, &b));
    assert_eq!((horizontal.va_id, horizontal.vb_id), (a.id, b.id));

    let parallel = bind_pool.add_bind_parallel((&a, &b), (&b, &a));
    assert_eq!(
        (parallel.l1va_id, parallel.l1vb_id, parallel.l2va_id, parallel.l2vb_id),
        (a.id, b.id, b.id, a.id)
    );

    let sq = dist_sq(&a.pt, &b.pt);
    let distance = bind_pool.add_bind_distance((&a, &b), sq.to_bits());
    assert_eq!(distance.sq_distance_value, sq.to_bits());
    assert_eq!((distance.va_id, distance.vb_id), (a.id, b.id));

    assert_eq!(bind_pool.len(), 7);

    // Every binding got its own identifier.
    let mut ids: Vec<usize> = bind_pool.bindings.iter().map(|b| b.get_id().0).collect();
    ids.sort();
    ids.dedup();
    assert_eq!(ids.len(), 7);
}

#[test]
fn get_v_ids_deduplicates() {
    let mut v_pool = VerticesPool::new();
    let a = v_pool.add(pt(0.0, 0.0));
    let b = v_pool.add(pt(1.0, 1.0));

    let mut bind_pool = BindingsPool::new();
    let parallel = bind_pool.add_bind_parallel((&a, &b), (&b, &a));
    let binding = Binding::Parallel(parallel);

    let mut ids: Vec<VertexId> = Vec::new();
    binding.get_v_ids(&mut ids);
    assert_eq!(ids, vec![a.id, b.id]);

    // Inserting again adds nothing.
    binding.get_v_ids(&mut ids);
    assert_eq!(ids, vec![a.id, b.id]);
}

#[test]
fn variable_index_layout_and_order() {
    let mut v_pool = VerticesPool::new();
    let a = v_pool.add(pt(1.0, 2.0));
    let b = v_pool.add(pt(3.0, 4.0));
    let unreferenced = v_pool.add(pt(9.0, 9.0));

    let mut bind_pool = BindingsPool::new();
    // First reference order: b before a.
    bind_pool.add_bind_vertical((&b, &a));

    let cst = Eq2DConstraints::new(&bind_pool, &v_pool);
    assert_eq!(cst.lut.len(), 4);
    assert_eq!(cst.lut[0], (b.id, 3.0f64.to_bits()));
    assert_eq!(cst.lut[1], (b.id, 4.0f64.to_bits()));
    assert_eq!(cst.lut[2], (a.id, 1.0f64.to_bits()));
    assert_eq!(cst.lut[3], (a.id, 2.0f64.to_bits()));
    assert_eq!(cst.inv_lut, vec![(b.id, 0), (a.id, 2)]);
    assert!(!cst.inv_lut.iter().any(|p| p.0 == unreferenced.id));
    assert_eq!(cst.equations, vec![Equation::AlignX { a: 0, b: 2 }]);
}

#[test]
fn equation_counts_per_kind() {
    let mut v_pool = VerticesPool::new();
    let a = v_pool.add(pt(0.0, 0.0));
    let b = v_pool.add(pt(1.0, 1.0));
    let c = v_pool.add(pt(2.0, 0.0));
    let d = v_pool.add(pt(3.0, 1.0));

    let mut bind_pool = BindingsPool::new();
    bind_pool.add_bind_fixed(&a); // 2 equations
    bind_pool.add_bind_fixed_x(&b); // 1
    bind_pool.add_bind_fixed_y(&b); // 1
    bind_pool.add_bind_vertical((&a, &b)); // 1
    bind_pool.add_bind_horizontal((&c, &d)); // 1
    bind_pool.add_bind_parallel((&a, &b), (&c, &d)); // 1
    bind_pool.add_bind_distance((&a, &d), 0u64); // 1
    let placeholder = BindError::new(&mut bind_pool.next_id); // 0
    bind_pool.bindings.push(placeholder);

    let cst = Eq2DConstraints::new(&bind_pool, &v_pool);
    assert_eq!(cst.equations.len(), 8);
    assert_eq!(cst.lut.len(), 8);
}

#[test]
fn error_bindings_reference_nothing() {
    let mut v_pool = VerticesPool::new();
    v_pool.add(pt(5.0, 5.0));

    let mut bind_pool = BindingsPool::new();
    let placeholder = BindError::new(&mut bind_pool.next_id);
    assert!(matches!(placeholder, Binding::Error(_)));
    bind_pool.bindings.push(placeholder);

    let cst = Eq2DConstraints::new(&bind_pool, &v_pool);
    assert!(cst.lut.is_empty());
    assert!(cst.inv_lut.is_empty());
    assert!(cst.equations.is_empty());
}

#[test]
fn variable_index_is_deterministic() {
    let mut v_pool = VerticesPool::new();
    let a = v_pool.add(pt(-10.0, -30.0));
    let b = v_pool.add(pt(4.0, 20.0));
    let c = v_pool.add(pt(-10.0, 0.0));
    let d = v_pool.add(pt(15.0, 5.0));

    let mut bind_pool = BindingsPool::new();
    bind_pool.add_bind_parallel((&a, &b), (&c, &d));
    bind_pool.add_bind_vertical((&c, &d));
    bind_pool.add_bind_fixed(&a);

    let first = Eq2DConstraints::new(&bind_pool, &v_pool);
    let second = Eq2DConstraints::new(&bind_pool, &v_pool);
    assert_eq!(first.lut, second.lut);
    assert_eq!(first.inv_lut, second.inv_lut);
    assert_eq!(first.equations, second.equations);
}

#[test]
fn initial_guess_reads_positions() {
    let mut v_pool = VerticesPool::new();
    let a = v_pool.add(pt(1.25, -8.5));
    let b = v_pool.add(pt(0.5, 2.0));

    let mut bind_pool = BindingsPool::new();
    bind_pool.add_bind_horizontal((&a, &b));

    let cst = Eq2DConstraints::new(&bind_pool, &v_pool);
    let init = cst.initial_guess();
    assert_eq!(
        init,
        vec![1.25f64.to_bits(), (-8.5f64).to_bits(), 0.5f64.to_bits(), 2.0f64.to_bits()]
    );
}

#[test]
fn should_stop_tolerance_or_cap() {
    assert!(!Eq2DConstraints::should_stop(0, false));
    assert!(!Eq2DConstraints::should_stop(99, false));
    assert!(Eq2DConstraints::should_stop(100, false));
    assert!(Eq2DConstraints::should_stop(250, false));
    assert!(Eq2DConstraints::should_stop(0, true));
    assert!(Eq2DConstraints::should_stop(100, true));
}

#[test]
fn complete_solve_forwards_solver_error() {
    let mut v_pool = VerticesPool::new();
    let a = v_pool.add(pt(1.0, 2.0));
    let mut bind_pool = BindingsPool::new();
    bind_pool.add_bind_fixed(&a);

    let cst = Eq2DConstraints::new(&bind_pool, &v_pool);
    let r = cst.complete_solve(Err("singular system".to_string()), &mut v_pool);
    assert_eq!(r, Err("singular system".to_string()));
    assert_eq!(v_pool.get(a.id).unwrap().pt, pt(1.0, 2.0));
}

#[test]
fn complete_solve_reports_non_convergence_without_write_back() {
    let mut v_pool = VerticesPool::new();
    let a = v_pool.add(pt(1.0, 2.0));
    let mut bind_pool = BindingsPool::new();
    bind_pool.add_bind_fixed(&a);

    let cst = Eq2DConstraints::new(&bind_pool, &v_pool);
    let stray = vec![9.0f64.to_bits(), 9.0f64.to_bits()];
    let r = cst.complete_solve(Ok((stray, false)), &mut v_pool);
    assert_eq!(r, Err("did not converge".to_string()));
    assert_eq!(v_pool.get(a.id).unwrap().pt, pt(1.0, 2.0));
}

#[test]
fn complete_solve_writes_solution_back() {
    let mut v_pool = VerticesPool::new();
    let a = v_pool.add(pt(1.0, 2.0));
    let b = v_pool.add(pt(3.0, 4.0));
    let lone = v_pool.add(pt(5.0, 6.0));

    let mut bind_pool = BindingsPool::new();
    bind_pool.add_bind_vertical((&a, &b));

    let cst = Eq2DConstraints::new(&bind_pool, &v_pool);
    let sol = vec![
        10.0f64.to_bits(),
        20.0f64.to_bits(),
        30.0f64.to_bits(),
        40.0f64.to_bits(),
    ];
    let r = cst.complete_solve(Ok((sol, true)), &mut v_pool);
    assert!(r.is_ok());

    let a_after = v_pool.get(a.id).unwrap();
    assert_eq!(a_after.pt, pt(10.0, 20.0));
    assert_eq!(a_after.saved_pt, pt(1.0, 2.0));
    assert!(a_after.magnetic && a_after.draggable && !a_after.selected);
    assert_eq!(v_pool.get(b.id).unwrap().pt, pt(30.0, 40.0));
    assert_eq!(v_pool.get(lone.id).unwrap().pt, pt(5.0, 6.0));
}
