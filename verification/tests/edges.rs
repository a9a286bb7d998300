use std::collections::hash_map::DefaultHasher;
use std::hash::{Hash, Hasher};

use kdelaunay::mesh::{Edge, Triangle};

fn hash_of(e: &Edge) -> u64 {
    let mut h = DefaultHasher::new();
    e.hash(&mut h);
    h.finish()
}

#[test]
fn test_edge_symmetry() {
    // The canonical edge key ignores construction order...
    assert_eq!(Edge::new(3, 7), Edge::new(7, 3));
    // ...and therefore hashes to the same bucket either way.
    assert_eq!(hash_of(&Edge::new(3, 7)), hash_of(&Edge::new(7, 3)));

    let pairs = [(0usize, 1usize), (1, 2), (5, 99), (1000, 3), (42, 41)];
    for &(x, y) in pairs.iter() {
        assert_eq!(Edge::new(x, y), Edge::new(y, x));
        assert_eq!(hash_of(&Edge::new(x, y)), hash_of(&Edge::new(y, x)));
    }
}

#[test]
fn test_edge_normalized() {
    let e = Edge::new(7, 3);
    assert_eq!(e.a, 3);
    assert_eq!(e.b, 7);
    assert!(e.a < e.b);
}

#[test]
fn test_edge_inequality() {
    assert_ne!(Edge::new(3, 7), Edge::new(3, 8));
    assert_ne!(Edge::new(3, 7), Edge::new(4, 7));
}

#[test]
fn test_triangle_edges() {
    let t = Triangle { a: 2, b: 0, c: 5 };
    let es = t.edges();
    assert_eq!(es[0], Edge::new(0, 2));
    assert_eq!(es[1], Edge::new(0, 5));
    assert_eq!(es[2], Edge::new(5, 2));
}
