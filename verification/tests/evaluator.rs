use erock::arith::{Operator, NAN};
use erock::interpreter::{batch_interpret, interpret, jit_eval, simd_eval_over_x, try_jit, Environment};
use erock::lexer::tokenize;
use erock::parser::{parse, Arena, ExprKind};

fn bits(values: &[f64]) -> Vec<u64> {
    values.iter().map(|v| v.to_bits()).collect()
}

fn values(patterns: &[u64]) -> Vec<f64> {
    patterns.iter().map(|b| f64::from_bits(*b)).collect()
}

fn built(text: &str) -> (Arena, usize) {
    parse(tokenize(text).unwrap()).unwrap()
}

fn scalar_at(text: &str, constants: &[(&str, f64)], x: f64) -> u64 {
    let (arena, root) = built(text);
    let mut env = Environment::new();
    for (name, value) in constants {
        env.insert(name.to_string(), value.to_bits());
    }
    env.insert("x".to_string(), x.to_bits());
    interpret(root, &arena, &mut env)
}

fn batch_of(text: &str, constants: &[(&str, f64)], xs: &[f64]) -> Vec<u64> {
    let (arena, root) = built(text);
    let mut env = Environment::new();
    for (name, value) in constants {
        env.insert(name.to_string(), value.to_bits());
    }
    simd_eval_over_x(root, &arena, &env, &bits(xs))
}

#[test]
fn batch_matches_scalar_on_seven_values() {
    let xs = [0.0, 1.0, 2.0, 3.0, 4.0, 5.0, 6.0];
    let constants = [("k", 2.5), ("m", -1.0)];
    for text in ["sum = 3.14 + (x - 2) * 10", "1 / x", "k * x * x + m / (x - 3)", "x", "7", "y = q"] {
        let batch = batch_of(text, &constants, &xs);
        assert_eq!(batch.len(), xs.len());
        for (i, x) in xs.iter().enumerate() {
            assert_eq!(batch[i], scalar_at(text, &constants, *x), "{} at {}", text, x);
        }
    }
}

#[test]
fn batch_gives_exact_values() {
    let out = batch_of("sum = 3.14 + (x - 2) * 10", &[], &[0.0, 1.0, 2.0, 3.0, 4.0, 5.0, 6.0]);
    assert_eq!(
        values(&out),
        vec![
            3.14 + (0.0 - 2.0) * 10.0,
            3.14 + (1.0 - 2.0) * 10.0,
            3.14,
            3.14 + 10.0,
            3.14 + 20.0,
            3.14 + 30.0,
            3.14 + 40.0,
        ]
    );
}

#[test]
fn batch_keeps_the_length_of_its_input() {
    for n in [0usize, 1, 2, 3, 4, 5, 8, 9, 13] {
        let xs: Vec<f64> = (0..n).map(|i| i as f64 * 0.5).collect();
        let out = batch_of("x * 2 + 1", &[], &xs);
        let expected: Vec<f64> = xs.iter().map(|x| x * 2.0 + 1.0).collect();
        assert_eq!(values(&out), expected);
    }
}

#[test]
fn batch_division_by_zero_is_not_a_number() {
    let out = batch_of("1 / x", &[], &[0.0, -0.0, 4.0]);
    assert_eq!(out[0], NAN);
    assert_eq!(out[1], NAN);
    assert_eq!(f64::from_bits(out[2]), 0.25);
}

#[test]
fn batch_does_not_write() {
    let (arena, root) = built("z = x + 1");
    let mut env = Environment::new();
    env.insert("x".to_string(), 100.0f64.to_bits());
    let out = simd_eval_over_x(root, &arena, &env, &bits(&[1.0, 2.0]));
    assert_eq!(values(&out), vec![2.0, 3.0]);
    assert!(!env.contains_key("z"));
    assert_eq!(env.get("x"), Some(100.0f64.to_bits()));
    assert_eq!(f64::from_bits(interpret(root, &arena, &mut env)), 101.0);
    assert_eq!(env.get("z"), Some(101.0f64.to_bits()));
}

#[test]
fn a_place_without_node_is_not_a_number() {
    let (arena, root) = built("1 + 1");
    let mut env = Environment::new();
    assert_eq!(interpret(root + 1, &arena, &mut env), NAN);
    assert_eq!(simd_eval_over_x(root + 1, &arena, &env, &bits(&[1.0, 2.0])), vec![NAN, NAN]);
}

#[test]
fn an_arena_is_evaluated_many_times() {
    let (arena, root) = built("a * x");
    let mut env = Environment::new();
    env.insert("a".to_string(), 3.0f64.to_bits());
    for k in 0..10 {
        env.insert("x".to_string(), (k as f64).to_bits());
        assert_eq!(f64::from_bits(interpret(root, &arena, &mut env)), 3.0 * k as f64);
    }
}

#[test]
fn several_roots_share_one_environment() {
    let mut arena = Arena::new();
    let one = arena.allocate(ExprKind::Number(1.0f64.to_bits()));
    let n = arena.allocate(ExprKind::Identifier("n".to_string()));
    let sum = arena.allocate(ExprKind::Binary { left: n, op: Operator::Plus, right: one });
    let step = arena.allocate(ExprKind::Assign { name: "n".to_string(), value: sum });
    let mut env = Environment::new();
    let out = batch_interpret(&[step, step, n, step], &arena, &mut env);
    assert_eq!(values(&out), vec![1.0, 2.0, 2.0, 3.0]);
    assert_eq!(env.get("n"), Some(3.0f64.to_bits()));
    assert_eq!(batch_interpret(&[], &arena, &mut env), vec![]);
}

#[test]
fn an_inner_assignment_is_seen_by_what_follows() {
    let mut arena = Arena::new();
    let two = arena.allocate(ExprKind::Number(2.0f64.to_bits()));
    let set = arena.allocate(ExprKind::Assign { name: "a".to_string(), value: two });
    let a = arena.allocate(ExprKind::Identifier("a".to_string()));
    let root = arena.allocate(ExprKind::Binary { left: set, op: Operator::Star, right: a });
    let mut env = Environment::new();
    assert_eq!(f64::from_bits(interpret(root, &arena, &mut env)), 4.0);
    let pure = simd_eval_over_x(root, &arena, &Environment::new(), &bits(&[9.0]));
    assert_eq!(values(&pure), vec![0.0]);
}

#[test]
fn constants_fold_without_an_environment() {
    let (literal, at) = built("42");
    assert_eq!(jit_eval(at, &literal), Some(42.0f64.to_bits()));
    let (sum, root) = built("1.5 + 2");
    assert_eq!(jit_eval(root, &sum), Some(3.5f64.to_bits()));
    let (quotient, q) = built("1 / 0");
    assert_eq!(jit_eval(q, &quotient), Some(NAN));
    let (name, n) = built("x");
    assert_eq!(jit_eval(n, &name), None);
    let (nested, m) = built("1 + 2 * 3");
    assert_eq!(jit_eval(m, &nested), None);
    let (assign, a) = built("z = 1");
    assert_eq!(jit_eval(a, &assign), None);
    assert_eq!(jit_eval(a + 1, &assign), None);
}

#[test]
fn folded_constants_agree_with_the_interpreter() {
    for text in ["7", "2 - 5", "3 * 4", "9 / 2", "9 / 0"] {
        let (arena, root) = built(text);
        let mut env = Environment::new();
        assert_eq!(jit_eval(root, &arena), Some(interpret(root, &arena, &mut env)));
    }
}

#[test]
fn the_accelerated_path_declines() {
    let (arena, root) = built("1 + 2");
    assert_eq!(try_jit(root, &arena), None);
}

#[test]
fn an_environment_holds_one_value_for_a_name() {
    let mut env = Environment::new();
    assert_eq!(env.get("a"), None);
    env.insert("a".to_string(), 1);
    env.insert("a".to_string(), 2);
    assert_eq!(env.get("a"), Some(2));
    assert!(env.contains_key("a"));
    assert!(!env.contains_key("b"));
}
