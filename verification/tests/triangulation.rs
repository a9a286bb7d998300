use kdelaunay::engine::{Engine, InsertError, Phase};
use kdelaunay::geometry::{Point, MAX_COORD};
use kdelaunay::store::Triangulation;

fn pt(x: i64, y: i64) -> Point {
    Point { x, y }
}

/// Sorted vertex triple: triangle identity up to rotation and winding.
fn key(t: &kdelaunay::mesh::Triangle) -> [usize; 3] {
    let mut v = [t.a, t.b, t.c];
    v.sort();
    v
}

/// The triangle set as a sorted list of sorted triples.
fn tri_set(e: &Engine) -> Vec<[usize; 3]> {
    let mut v: Vec<[usize; 3]> = e.store.triangles.iter().map(key).collect();
    v.sort();
    v
}

/// The canonical edge set, deduplicated and sorted.
fn edge_set(e: &Engine) -> Vec<(usize, usize)> {
    let mut v: Vec<(usize, usize)> = Vec::new();
    for t in e.store.triangles.iter() {
        for ed in t.edges().iter() {
            let pair = (ed.a, ed.b);
            if !v.contains(&pair) {
                v.push(pair);
            }
        }
    }
    v.sort();
    v
}

#[test]
fn test_pic() {
    let a = pt(0, 0);
    let b = pt(MAX_COORD, 0);
    let c = pt(0, MAX_COORD);

    let half = MAX_COORD / 2;
    assert_eq!(
        kdelaunay::geometry::point_in_circumcircle(pt(half, half), a, b, c),
        true
    );
    assert_eq!(
        kdelaunay::geometry::point_in_circumcircle(pt(9830, 9830), a, b, c),
        true
    );
    assert_eq!(
        kdelaunay::geometry::point_in_circumcircle(pt(MAX_COORD, half), a, b, c),
        true
    );
    assert_eq!(
        kdelaunay::geometry::point_in_circumcircle(pt(half, MAX_COORD), a, b, c),
        true
    );
    assert_eq!(
        kdelaunay::geometry::point_in_circumcircle(pt(16220, 16220), a, b, c),
        true
    );
    assert_eq!(
        kdelaunay::geometry::point_in_circumcircle(pt(-half, -half), a, b, c),
        false
    );
}

#[test]
fn test_bootstrap_seed() {
    let t = Triangulation::new();
    assert_eq!(t.points.len(), 4);
    assert_eq!(t.triangles.len(), 2);
    assert_eq!(t.points[0], pt(0, 0));
    assert_eq!(t.points[1], pt(MAX_COORD, 0));
    assert_eq!(t.points[2], pt(MAX_COORD, MAX_COORD));
    assert_eq!(t.points[3], pt(0, MAX_COORD));
    assert_eq!(key(&t.triangles[0]), [0, 1, 3]);
    assert_eq!(key(&t.triangles[1]), [1, 2, 3]);
    assert!(t.is_delaunay());
    assert!(t.is_manifold());
}

#[test]
fn test_center_insertion() {
    // Inserting the square's center kills both seed triangles and fans the
    // four outer edges: exactly 4 triangles, each incident to the center.
    let mut e = Engine::new();
    let r = e.insert(pt(MAX_COORD / 2, MAX_COORD / 2));
    assert!(r.is_ok());
    assert_eq!(e.store.points.len(), 5);
    assert_eq!(e.store.triangles.len(), 4);
    for t in e.store.triangles.iter() {
        assert!(t.a == 4 || t.b == 4 || t.c == 4);
    }
    for t in e.store.triangles.iter() {
        assert_ne!(key(t), [0, 1, 3]);
        assert_ne!(key(t), [1, 2, 3]);
    }
    assert!(e.store.is_delaunay());
    assert!(e.store.is_manifold());
}

#[test]
fn test_two_insertions() {
    // Two interior points into the bootstrap square: 6 points, and every
    // edge of the result belongs to exactly 1 or 2 triangles.  The triangle
    // count lands at 6: each interior insertion is a net +2 (Euler: a
    // triangulated square with 2 interior points has 2*2 + 4 - 2 = 6
    // triangles).
    let mut e = Engine::new();
    e.insert(pt(MAX_COORD / 4, MAX_COORD / 4)).unwrap();
    e.insert(pt(9830, 12288)).unwrap();
    assert_eq!(e.store.points.len(), 6);
    assert_eq!(e.store.triangles.len(), 6);
    assert!(e.store.is_manifold());
    assert!(e.store.is_delaunay());
}

#[test]
fn test_point_count_conservation() {
    let seq = [
        pt(3000, 5000),
        pt(12000, 4000),
        pt(7000, 11000),
        pt(2000, 14000),
        pt(9000, 9000),
    ];
    let mut e = Engine::new();
    for p in seq.iter() {
        e.insert(*p).unwrap();
    }
    assert_eq!(e.store.points.len(), 4 + seq.len());
}

#[test]
fn test_triangle_count_growth() {
    // Exact law: each cycle changes the triangle count by
    // (boundary edges) - (bad triangles); for interior points that is +2.
    let seq = [
        pt(3000, 5000),
        pt(12000, 4000),
        pt(7000, 11000),
        pt(2000, 14000),
        pt(9000, 9000),
    ];
    let mut e = Engine::new();
    for p in seq.iter() {
        let before = e.store.triangles.len();
        e.insert(*p).unwrap();
        let after = e.store.triangles.len();
        assert_eq!(
            after,
            before - e.bad_triangles.len() + e.poly.len()
        );
        assert_eq!(after, before + 2);
    }
    assert!(e.store.is_delaunay());
    assert!(e.store.is_manifold());
}

#[test]
fn test_mode_equivalence() {
    // Atomic insertion and 4 stepped calls per point give identical
    // triangle and edge sets over the same point sequence.
    let seq = [
        pt(4000, 4000),
        pt(11000, 5000),
        pt(8000, 12000),
        pt(13000, 13000),
        pt(2500, 9000),
    ];
    let mut atomic = Engine::new();
    let mut stepped = Engine::new();
    for p in seq.iter() {
        atomic.insert(*p).unwrap();
        for _ in 0..4 {
            stepped.step(*p).unwrap();
        }
        assert_eq!(stepped.state, Phase::Idle);
    }
    assert_eq!(atomic.store.points, stepped.store.points);
    assert_eq!(tri_set(&atomic), tri_set(&stepped));
    assert_eq!(edge_set(&atomic), edge_set(&stepped));
}

#[test]
fn test_outside_point_rejected() {
    // A point outside every circumcircle cannot start a cycle: the engine
    // reports it and stays unchanged.
    let mut e = Engine::new();
    let r = e.insert(pt(-MAX_COORD, -MAX_COORD));
    assert_eq!(r, Err(InsertError::PointOutsideRegion));
    assert_eq!(e.store.points.len(), 4);
    assert_eq!(e.store.triangles.len(), 2);
    assert_eq!(e.state, Phase::Idle);

    let r2 = e.step(pt(-MAX_COORD, -MAX_COORD));
    assert_eq!(r2, Err(InsertError::PointOutsideRegion));
    assert_eq!(e.state, Phase::Idle);
}

#[test]
fn test_step_phases() {
    // One phase per call: Idle -> FindBadTriangles -> ComputeBoundary ->
    // Retriangulate -> Idle, with the scratch sets visible in between.
    let mut e = Engine::new();
    let p = pt(MAX_COORD / 2, MAX_COORD / 2);
    assert_eq!(e.state, Phase::Idle);
    e.step(p).unwrap();
    assert_eq!(e.state, Phase::FindBadTriangles);
    assert_eq!(e.bad_triangles.len(), 2);
    assert_eq!(e.new_point, Some(p));
    e.step(p).unwrap();
    assert_eq!(e.state, Phase::ComputeBoundary);
    assert_eq!(e.poly.len(), 4);
    assert_eq!(e.bad_edges.len(), 1);
    assert_eq!(e.store.triangles.len(), 0);
    e.step(p).unwrap();
    assert_eq!(e.state, Phase::Retriangulate);
    assert_eq!(e.store.triangles.len(), 4);
    e.step(p).unwrap();
    assert_eq!(e.state, Phase::Idle);
    assert!(e.store.is_delaunay());
}

#[test]
fn test_delaunay_after_many() {
    // The Delaunay and manifold invariants hold after every completed
    // cycle of a longer run.
    let seq = [
        pt(1234, 2345),
        pt(15000, 1500),
        pt(14000, 15000),
        pt(1500, 15500),
        pt(8000, 8000),
        pt(5000, 10000),
        pt(11000, 11000),
        pt(6000, 3000),
    ];
    let mut e = Engine::new();
    for p in seq.iter() {
        e.insert(*p).unwrap();
        assert!(e.store.is_delaunay());
        assert!(e.store.is_manifold());
    }
    assert_eq!(e.store.points.len(), 12);
}

#[test]
fn test_adjacency_derived() {
    let mut e = Engine::new();
    e.insert(pt(MAX_COORD / 2, MAX_COORD / 2)).unwrap();
    let adj = e.store.adjacency();
    assert_eq!(adj.len(), 5);
    // The center point neighbors all four corners.
    let mut center = adj[4].clone();
    center.sort();
    assert_eq!(center, vec![0, 1, 2, 3]);
    // Adjacency is symmetric.
    for i in 0..adj.len() {
        for &j in adj[i].iter() {
            assert!(adj[j].contains(&i));
        }
    }
}
