use graphexpr::path::{graph, PathCommand};
use graphexpr::GraphError;

/// Generate and unwrap the canonical segment list.
fn segs(expr: &str, points: u16) -> Vec<(u16, u16)> {
    graph(expr.to_string(), points).unwrap().segments
}

/// Whether the generated graph holds the undirected edge between a and b.
fn has_edge(segments: &[(u16, u16)], a: u16, b: u16) -> bool {
    segments.contains(&(a, b)) || segments.contains(&(b, a))
}

#[test]
fn divisibility_example() {
    let s = segs("a % b == 0", 15);
    assert!(has_edge(&s, 15, 5), "15 % 5 == 0 must make an edge");
    assert!(has_edge(&s, 5, 15));
    assert!(!has_edge(&s, 7, 4), "neither 7 % 4 nor 4 % 7 is 0");
}

#[test]
fn divisibility_full_brute_force() {
    let n: u16 = 60;
    let s = segs("a % b == 0", n);
    for a in 1..=n {
        for b in a..=n {
            let expected = a % b == 0 || b % a == 0;
            assert_eq!(
                has_edge(&s, a, b),
                expected,
                "edge ({a}, {b}) disagrees with divisibility"
            );
        }
    }
}

#[test]
fn compile_error_example() {
    let r = graph("a +".to_string(), 5);
    match r {
        Err(GraphError::CompileError(m)) => assert!(!m.is_empty()),
        other => panic!("expected a compile error, got {other:?}"),
    }
}

#[test]
fn eval_error_on_unknown_variable() {
    let r = graph("c + 1".to_string(), 3);
    match r {
        Err(GraphError::EvalError(m)) => assert!(!m.is_empty()),
        other => panic!("expected an evaluation error, got {other:?}"),
    }
}

#[test]
fn unknown_function_call_fails_cleanly() {
    // A call to an unknown function parses but fails at evaluation; with a
    // large pair space the parallel fan-out evaluates it on every worker,
    // and the generation still aborts with a single evaluation error.
    let r = graph("foo(a)".to_string(), 120);
    match r {
        Err(GraphError::EvalError(m)) => assert!(!m.is_empty()),
        other => panic!("expected an evaluation error, got {other:?}"),
    }
}

#[test]
fn error_message_accessor() {
    let r = graph("a +".to_string(), 2);
    match r {
        Err(e) => assert!(!e.message().is_empty()),
        Ok(_) => panic!("expected an error"),
    }
}

#[test]
fn constant_truth_example() {
    // A constant non-zero expression makes the complete graph, self-edges
    // included, in canonical order.
    let s = segs("7", 3);
    assert_eq!(s, vec![(1, 1), (1, 2), (1, 3), (2, 2), (2, 3), (3, 3)]);
}

#[test]
fn division_by_zero_is_truthy() {
    // a / 0 evaluates to infinity for every point index, which is non-zero.
    let s = segs("a / 0", 2);
    assert_eq!(s, vec![(1, 1), (1, 2), (2, 2)]);
}

#[test]
fn nan_is_falsy() {
    // a % 0 evaluates to NaN for every binding; NaN makes no edge.
    let s = segs("a % 0", 2);
    assert_eq!(s, Vec::<(u16, u16)>::new());
}

#[test]
fn self_pairs() {
    // a == b holds on every self-pair, so every point gets a self-edge.
    let s = segs("a == b", 4);
    assert_eq!(s, vec![(1, 1), (2, 2), (3, 3), (4, 4)]);
}

#[test]
fn single_point() {
    assert_eq!(segs("a == b", 1), vec![(1, 1)]);
    assert_eq!(segs("0", 1), Vec::<(u16, u16)>::new());
}

#[test]
fn asymmetric_expression_draws_undirected_edges() {
    // a - b == 1 only holds with the larger index bound to a, yet the edge
    // appears: the decision retries with the bindings swapped.
    let s = segs("a - b == 1", 3);
    assert_eq!(s, vec![(1, 2), (2, 3)]);
    for a in 1..=3u16 {
        for b in 1..=3u16 {
            assert_eq!(has_edge(&s, a, b), has_edge(&s, b, a));
        }
    }
}

#[test]
fn repeated_calls_agree() {
    let first = segs("a % b == 0", 12);
    let second = segs("a % b == 0", 12);
    assert_eq!(first, second);
}

#[test]
fn commands_pair_per_segment() {
    let d = graph("a == b".to_string(), 2).unwrap();
    assert_eq!(
        d.commands(),
        vec![
            PathCommand::MoveTo(1),
            PathCommand::LineTo(1),
            PathCommand::MoveTo(2),
            PathCommand::LineTo(2),
        ]
    );
}

#[test]
fn compiled_expression_is_reusable() {
    let c = match graphexpr::expr::compile("a == b".to_string()) {
        Ok(c) => c,
        Err(m) => panic!("{m}"),
    };
    let first = graphexpr::path::generate(&c, 3).unwrap();
    assert_eq!(first.segments, vec![(1, 1), (2, 2), (3, 3)]);
    let second = graphexpr::path::generate(&c, 5).unwrap();
    assert_eq!(second.segments, vec![(1, 1), (2, 2), (3, 3), (4, 4), (5, 5)]);
}

#[test]
fn larger_point_count_scales() {
    // The pair space is quadratic in the point count; a few ten-thousand
    // evaluations must stay well inside the time budget.
    let n: u16 = 200;
    let s = segs("a % b == 0", n);
    let mut expected: usize = 0;
    for a in 1..=n {
        for b in a..=n {
            if a % b == 0 || b % a == 0 {
                expected += 1;
            }
        }
    }
    assert_eq!(s.len(), expected);
}
