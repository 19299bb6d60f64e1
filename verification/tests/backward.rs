//! The backward pass: gradients of the four operations, shared
//! subexpressions, repeated passes, and the topological ordering.

use scalargrad::graph::Graph;
use scalargrad::rat::Rat;
use scalargrad::topo::parse_topology;

fn as_f32(r: &Rat) -> f32 {
    r.numerator() as f32 / r.denominator() as f32
}

/// Equality of floats up to four units in the last place, enough to absorb
/// the rounding of the reference values' float arithmetic against the
/// engine's exact arithmetic.
fn assert_float_eq(a: f32, b: f32) {
    assert!((a >= 0.0) == (b >= 0.0), "{} differs in sign from {}", a, b);
    let ai = i64::from(a.to_bits());
    let bi = i64::from(b.to_bits());
    assert!((ai - bi).abs() <= 4, "{} is not within 4 ulps of {}", a, b);
}

#[test]
fn test_add_backward() {
    let mut g = Graph::new();
    let a = g.leaf(Rat::from_decimal(false, 3, 1, 1), "a".to_string());
    let b = g.leaf(Rat::from_decimal(false, 4, 2, 1), "b".to_string());
    let c = g.add(a, b);

    g.backward(c);

    assert_eq!(as_f32(&g.gradient_of(c)), 1.0);
    assert_eq!(as_f32(&g.gradient_of(b)), 1.0);
    assert_eq!(as_f32(&g.gradient_of(a)), 1.0);
}

#[test]
fn test_sub_backward() {
    let mut g = Graph::new();
    let a = g.leaf(Rat::from_decimal(false, 3, 1, 1), "a".to_string());
    let b = g.leaf(Rat::from_decimal(false, 4, 2, 1), "b".to_string());
    let c = g.sub(a, b);

    g.backward(c);

    assert_float_eq(as_f32(&g.value_of(c)), -1.1);
    assert_eq!(as_f32(&g.gradient_of(c)), 1.0);
    assert_eq!(as_f32(&g.gradient_of(a)), 1.0);
    assert_eq!(as_f32(&g.gradient_of(b)), -1.0);
}

#[test]
fn test_mul_backward() {
    let mut g = Graph::new();
    let a = g.leaf(Rat::from_decimal(false, 3, 1, 1), "a".to_string());
    let b = g.leaf(Rat::from_decimal(false, 4, 2, 1), "b".to_string());
    let c = g.mul(a, b);

    g.backward(c);

    assert_eq!(as_f32(&g.gradient_of(c)), 1.0);
    assert_eq!(as_f32(&g.gradient_of(b)), 3.1);
    assert_eq!(as_f32(&g.gradient_of(a)), 4.2);
}

#[test]
fn test_div_backward() {
    let mut g = Graph::new();
    let a = g.leaf(Rat::from_decimal(false, 3, 1, 1), "a".to_string());
    let b = g.leaf(Rat::from_decimal(false, 4, 2, 1), "b".to_string());
    let c = g.div(a, b);

    g.backward(c);

    assert_eq!(as_f32(&g.gradient_of(c)), 1.);
    assert_float_eq(as_f32(&g.gradient_of(a)), 1. / 4.2);
    assert_float_eq(as_f32(&g.gradient_of(b)), -3.1 * 4.2f32.powi(-2));
}

#[test]
fn test_compound_fn() {
    let mut g = Graph::new();
    let a = g.leaf(Rat::from_decimal(true, 4, 0, 1), "a".to_string());
    let b = g.leaf(Rat::from_decimal(false, 2, 0, 1), "b".to_string());
    let c = g.add(a, b); // -2.0
    g.set_label(c, "c".to_string());
    let d = g.mul(a, b); // -8.0
    g.set_label(d, "d".to_string());
    let e = g.div(d, c); // 4.0
    g.set_label(e, "e".to_string());
    let f = g.leaf(Rat::from_decimal(false, 10, 0, 1), "f".to_string());
    let root = g.div(f, e); // 2.5
    g.set_label(root, "g".to_string());

    g.backward(root);

    assert_float_eq(as_f32(&g.value_of(root)), 2.5);
    assert_float_eq(as_f32(&g.gradient_of(root)), 1.0);
    assert_float_eq(as_f32(&g.gradient_of(f)), 0.25);
    assert_float_eq(as_f32(&g.gradient_of(e)), -0.625);

    assert_float_eq(as_f32(&g.gradient_of(c)), -1.25);
    assert_float_eq(as_f32(&g.gradient_of(d)), 0.3125);
    assert_float_eq(as_f32(&g.gradient_of(b)), -2.5);
    assert_float_eq(as_f32(&g.gradient_of(a)), -0.625);
}

#[test]
fn test_backward_twice_accumulates() {
    // A second pass without a reset doubles the leaf gradients; the root
    // is forced back to the seed of one.
    let mut g = Graph::new();
    let a = g.leaf(Rat::new(3, 1), "a".to_string());
    let b = g.leaf(Rat::new(4, 1), "b".to_string());
    let c = g.add(a, b);

    g.backward(c);
    g.backward(c);

    assert_eq!(as_f32(&g.gradient_of(a)), 2.0);
    assert_eq!(as_f32(&g.gradient_of(b)), 2.0);
    assert_eq!(as_f32(&g.gradient_of(c)), 1.0);
}

#[test]
fn test_zero_gradients_resets() {
    let mut g = Graph::new();
    let a = g.leaf(Rat::new(3, 1), "a".to_string());
    let b = g.leaf(Rat::new(4, 1), "b".to_string());
    let c = g.mul(a, b);

    g.backward(c);
    g.zero_gradients();
    assert_eq!(g.gradient_of(a), Rat::zero());
    assert_eq!(g.gradient_of(c), Rat::zero());

    g.backward(c);
    assert_eq!(as_f32(&g.gradient_of(a)), 4.0);
    assert_eq!(as_f32(&g.gradient_of(b)), 3.0);
}

#[test]
fn test_shared_operand_counted_twice() {
    // x + x: the same node stands in both operand positions and receives
    // one contribution for each.
    let mut g = Graph::new();
    let x = g.leaf(Rat::new(5, 1), "x".to_string());
    let c = g.add(x, x);

    g.backward(c);

    assert_eq!(as_f32(&g.gradient_of(x)), 2.0);
}

#[test]
fn test_single_leaf_topology() {
    // A root with no operands yields the one-element sequence of itself,
    // and differentiating it just seeds its own gradient.
    let mut g = Graph::new();
    let a = g.leaf(Rat::new(9, 1), "a".to_string());
    let order = parse_topology(&g, a);
    assert_eq!(order, vec![a]);

    g.backward(a);
    assert_eq!(as_f32(&g.gradient_of(a)), 1.0);
}

#[test]
fn test_ordering_beats_level_order() {
    // A node reachable from the root along paths of different lengths:
    // r = m + s with s = m * m. The post-order sequence fires m only after
    // both r and s have contributed, giving the correct gradients; a naive
    // level-order walk would fire m right after r, with m's gradient still
    // 1 instead of 13, and leak 3 and 2 into the leaves.
    let mut g = Graph::new();
    let a = g.leaf(Rat::new(2, 1), "a".to_string());
    let b = g.leaf(Rat::new(3, 1), "b".to_string());
    let m = g.mul(a, b); // 6
    let s = g.mul(m, m); // 36
    let r = g.add(m, s); // 42

    let order = parse_topology(&g, r);
    assert_eq!(order, vec![a, b, m, s, r]);

    g.backward(r);

    assert_eq!(as_f32(&g.gradient_of(r)), 1.0);
    assert_eq!(as_f32(&g.gradient_of(s)), 1.0);
    assert_eq!(as_f32(&g.gradient_of(m)), 13.0);
    assert_eq!(as_f32(&g.gradient_of(a)), 39.0);
    assert_eq!(as_f32(&g.gradient_of(b)), 26.0);
    assert_ne!(as_f32(&g.gradient_of(a)), 3.0);
    assert_ne!(as_f32(&g.gradient_of(b)), 2.0);
}

#[test]
fn test_division_by_zero_gradients() {
    // Degenerate values flow through the backward pass as infinities
    // rather than stopping it.
    let mut g = Graph::new();
    let a = g.leaf(Rat::new(3, 1), "a".to_string());
    let b = g.leaf(Rat::new(0, 1), "b".to_string());
    let c = g.div(a, b);

    g.backward(c);

    assert_eq!(g.gradient_of(a).denominator(), 0);
    assert_eq!(g.gradient_of(a).numerator(), 1);
    assert_eq!(g.gradient_of(b).denominator(), 0);
    assert_eq!(g.gradient_of(b).numerator(), -1);
}
