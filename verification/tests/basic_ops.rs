//! Construction and equality of graph nodes, and the decimal scalar form.

use scalargrad::graph::{Graph, Node, Op};
use scalargrad::rat::Rat;

fn as_f32(r: &Rat) -> f32 {
    r.numerator() as f32 / r.denominator() as f32
}

#[test]
fn test_add() {
    let mut g = Graph::new();
    let s1 = g.leaf(Rat::from_decimal(false, 3, 2, 1), "s1".to_string());
    let s2 = g.leaf(Rat::from_decimal(false, 4, 7, 1), "s2".to_string());
    let c = g.add(s1, s2);
    let result = Node::new_full(
        Rat::from_decimal(false, 7, 9, 1),
        vec![s1, s2],
        Rat::zero(),
        Op::Add,
        "result".to_string(),
    );
    assert_eq!(g.node(c), &result);
}

#[test]
fn test_sub() {
    let mut g = Graph::new();
    let s1 = g.leaf(Rat::from_decimal(false, 3, 2, 1), "s1".to_string());
    let s2 = g.leaf(Rat::from_decimal(false, 4, 7, 1), "s2".to_string());
    let c = g.sub(s1, s2);
    let result = Node::new_full(
        Rat::from_decimal(true, 1, 5, 1),
        vec![s1, s2],
        Rat::zero(),
        Op::Sub,
        "result".to_string(),
    );
    assert_eq!(g.node(c), &result);
}

#[test]
fn test_mul() {
    let mut g = Graph::new();
    let s1 = g.leaf(Rat::from_decimal(false, 3, 2, 1), "s1".to_string());
    let s2 = g.leaf(Rat::from_decimal(false, 4, 7, 1), "s2".to_string());
    let c = g.mul(s1, s2);
    let result = Node::new_full(
        Rat::from_decimal(false, 15, 4, 2),
        vec![s1, s2],
        Rat::zero(),
        Op::Mul,
        "result".to_string(),
    );
    assert_eq!(g.node(c), &result);
}

#[test]
fn test_div() {
    let mut g = Graph::new();
    let s1 = g.leaf(Rat::from_decimal(false, 3, 2, 1), "s1".to_string());
    let s2 = g.leaf(Rat::from_decimal(false, 4, 7, 1), "s2".to_string());
    let c = g.div(s1, s2);
    let result = Node::new_full(
        Rat::new(32, 47),
        vec![s1, s2],
        Rat::zero(),
        Op::Div,
        "result".to_string(),
    );
    assert_eq!(g.node(c), &result);
}

#[test]
fn test_joins() {
    let s1 = Rat::from_decimal(false, 23, 3, 2);
    assert_eq!(as_f32(&s1), 23.03);

    let s2 = Rat::from_decimal(true, 23, 3, 2);
    assert_eq!(as_f32(&s2), -23.03);
}

#[test]
fn test_partial_eq() {
    let s1 = Node::new(Rat::from_decimal(false, 3, 2, 1), "s1".to_string());
    let s2 = Node::new(Rat::from_decimal(false, 3, 2, 1), "s2".to_string());
    let s3 = Node::new(Rat::from_decimal(false, 3, 2, 1), "s3".to_string());
    let s4 = Node::new(Rat::from_decimal(false, 3, 2, 1), "s4".to_string());
    let v = vec![s1.clone(), s2.clone(), s3.clone()];

    assert!(v.contains(&s4));
}

#[test]
fn test_labels_ignored_by_eq() {
    // Structurally identical nodes built under different labels are equal;
    // the fixture's gradient argument plays no role either.
    let a = Node::new_full(
        Rat::new(1, 2),
        vec![0, 1],
        Rat::zero(),
        Op::Mul,
        "first".to_string(),
    );
    let b = Node::new_full(
        Rat::new(2, 4),
        vec![0, 1],
        Rat::one(),
        Op::Mul,
        "second".to_string(),
    );
    assert_eq!(a, b);
    let c = Node::new_full(
        Rat::new(1, 2),
        vec![0, 1],
        Rat::zero(),
        Op::Add,
        "first".to_string(),
    );
    assert_ne!(a, c);
}

#[test]
fn test_unreduced_values_equal() {
    // 790/100 and 79/10 are the same scalar even though stored unreduced.
    assert_eq!(Rat::new(790, 100), Rat::new(79, 10));
    assert_ne!(Rat::new(790, 100), Rat::new(79, 100));
    // A negative denominator moves its sign to the numerator.
    assert_eq!(Rat::new(1, -2), Rat::new(-1, 2));
    assert_eq!(Rat::new(1, -2).denominator(), 2);
}

#[test]
fn test_fresh_gradient_zero() {
    let mut g = Graph::new();
    let a = g.leaf(Rat::new(5, 1), "a".to_string());
    let b = g.leaf(Rat::new(7, 1), "b".to_string());
    let c = g.mul(a, b);
    assert_eq!(g.gradient_of(a), Rat::zero());
    assert_eq!(g.gradient_of(b), Rat::zero());
    assert_eq!(g.gradient_of(c), Rat::zero());
    assert_eq!(as_f32(&g.value_of(c)), 35.0);
}

#[test]
fn test_division_by_zero_degenerates() {
    let mut g = Graph::new();
    let a = g.leaf(Rat::new(3, 1), "a".to_string());
    let b = g.leaf(Rat::new(0, 1), "b".to_string());
    let c = g.div(a, b);
    // 3 / 0 is positive infinity, not an error.
    assert!(!g.value_of(c).is_finite());
    assert_eq!(g.value_of(c).numerator(), 1);
    assert!(as_f32(&g.value_of(c)).is_infinite());
}

#[test]
fn test_from_decimal_too_many_digits() {
    // More than eighteen fractional digits cannot be represented: the
    // scalar degenerates to "not a number" instead of panicking.
    let r = Rat::from_decimal(false, 1, 5, 19);
    assert_eq!(r.denominator(), 0);
    assert_eq!(r.numerator(), 0);
}
