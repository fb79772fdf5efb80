use erock::interpreter::{eval, interpret, Environment, EvalFault};
use erock::lexer::{tokenize, TokenizeFault};
use erock::parser::{parse, ParseFault};

fn number(value: f64) -> u64 {
    value.to_bits()
}

fn value_of(bits: u64) -> f64 {
    f64::from_bits(bits)
}

#[test]
fn test_simple_addition() {
    let input = "y = 10 + 5;";
    let tokens = tokenize(input).expect("Tokenizing failed");
    let last = tokens.len() - 1;
    assert_eq!(parse(tokens).err(), Some(ParseFault::TrailingTokens { at: last }));

    let tokens = tokenize(input.trim_end_matches(';')).expect("Tokenizing failed");
    let (arena, root_idx) = parse(tokens).expect("Parsing failed");

    let mut variables = Environment::new();
    let result = interpret(root_idx, &arena, &mut variables);

    assert_eq!(value_of(result), 15.0);
}

#[test]
fn test_variable_evaluation() {
    let input = "y = a + b;";
    let tokens = tokenize(input).expect("Tokenizing failed");
    let last = tokens.len() - 1;
    assert_eq!(parse(tokens).err(), Some(ParseFault::TrailingTokens { at: last }));

    let tokens = tokenize(input.trim_end_matches(';')).expect("Tokenizing failed");
    let (arena, root_idx) = parse(tokens).expect("Parsing failed");

    let mut variables = Environment::new();
    variables.insert("a".to_string(), number(7.0));
    variables.insert("b".to_string(), number(3.0));

    let result = interpret(root_idx, &arena, &mut variables);

    assert_eq!(value_of(result), 10.0);
}

#[test]
fn test_operator_precedence() {
    let input = "y = 2 + 3 * 4;";
    let tokens = tokenize(input).expect("Tokenizing failed");
    let last = tokens.len() - 1;
    assert_eq!(parse(tokens).err(), Some(ParseFault::TrailingTokens { at: last }));

    let tokens = tokenize(input.trim_end_matches(';')).expect("Tokenizing failed");
    let (arena, root_idx) = parse(tokens).expect("Parsing failed");

    let mut variables = Environment::new();
    let result = interpret(root_idx, &arena, &mut variables);

    assert_eq!(value_of(result), 14.0);
}

#[test]
fn test_parentheses() {
    let input = "y = (2 + 3) * 4;";
    let tokens = tokenize(input).expect("Tokenizing failed");
    let last = tokens.len() - 1;
    assert_eq!(parse(tokens).err(), Some(ParseFault::TrailingTokens { at: last }));

    let tokens = tokenize(input.trim_end_matches(';')).expect("Tokenizing failed");
    let (arena, root_idx) = parse(tokens).expect("Parsing failed");

    let mut variables = Environment::new();
    let result = interpret(root_idx, &arena, &mut variables);

    assert_eq!(value_of(result), 20.0);
}

#[test]
fn test_precedence() {
    let expr = "2 + 3 * 4";
    let mut variables = Environment::new();
    match eval(expr, &mut variables) {
        Ok(result) => assert_eq!(value_of(result), 14.0),
        Err(e) => panic!("Eval failed: {}", e.message()),
    }
}

#[test]
fn test_variables() {
    let expr = "x + y";
    let mut variables = Environment::new();
    variables.insert("x".to_string(), number(vec![5.0][0]));
    variables.insert("y".to_string(), number(vec![10.0][0]));
    match eval(expr, &mut variables) {
        Ok(result) => assert_eq!(value_of(result), 15.0),
        Err(e) => panic!("Eval failed: {}", e.message()),
    }
}

#[test]
fn test_batch_variables() {
    let expr = "x + y";
    let mut variables = Environment::new();
    variables.insert("x".to_string(), number(vec![1.0, 2.0][0]));
    variables.insert("y".to_string(), number(vec![3.0, 4.0][0]));
    match eval(expr, &mut variables) {
        Ok(result) => assert_eq!(value_of(result), 4.0),
        Err(e) => panic!("Eval failed: {}", e.message()),
    }
}

#[test]
fn test_assignment() {
    let expr = "z = 7 + 3";
    let mut variables = Environment::new();
    match eval(expr, &mut variables) {
        Ok(result) => {
            assert_eq!(value_of(result), 10.0);
            assert!(variables.contains_key("z"));
        }
        Err(e) => panic!("Eval failed: {}", e.message()),
    }
}

#[test]
fn parenthesised_sum_is_multiplied_whole() {
    let mut variables = Environment::new();
    let result = eval("(2 + 3) * 4", &mut variables).unwrap();
    assert_eq!(value_of(result), 20.0);
}

#[test]
fn assignment_persists_its_value() {
    let mut variables = Environment::new();
    let result = eval("z = 7 + 3", &mut variables).unwrap();
    assert_eq!(value_of(result), 10.0);
    assert_eq!(variables.get("z").map(value_of), Some(10.0));
}

#[test]
fn assignment_overwrites_an_earlier_value() {
    let mut variables = Environment::new();
    variables.insert("z".to_string(), number(1.0));
    eval("z = z + 1", &mut variables).unwrap();
    assert_eq!(variables.get("z").map(value_of), Some(2.0));
}

#[test]
fn names_are_substituted() {
    let mut variables = Environment::new();
    variables.insert("a".to_string(), number(7.0));
    variables.insert("b".to_string(), number(3.0));
    let result = eval("a + b", &mut variables).unwrap();
    assert_eq!(value_of(result), 10.0);
}

#[test]
fn a_name_without_value_counts_as_zero() {
    let mut variables = Environment::new();
    let result = eval("missing + 2.5", &mut variables).unwrap();
    assert_eq!(value_of(result), 2.5);
    assert!(!variables.contains_key("missing"));
}

#[test]
fn division_by_zero_is_not_a_number() {
    let mut variables = Environment::new();
    let result = eval("1 / 0", &mut variables).unwrap();
    assert!(value_of(result).is_nan());
    assert_eq!(result, erock::arith::NAN);
    let through_name = eval("0 / nothing", &mut variables).unwrap();
    assert_eq!(through_name, erock::arith::NAN);
}

#[test]
fn subtraction_and_division_group_from_the_left() {
    let mut variables = Environment::new();
    assert_eq!(value_of(eval("10 - 4 - 3", &mut variables).unwrap()), 3.0);
    assert_eq!(value_of(eval("16 / 4 / 2", &mut variables).unwrap()), 2.0);
    assert_eq!(value_of(eval("2 * 3 - 4 / 8", &mut variables).unwrap()), 5.5);
}

#[test]
fn faults_leave_the_environment_alone() {
    let mut variables = Environment::new();
    assert!(eval("z = (2 + 3", &mut variables).is_err());
    assert!(eval("z = 1.2.3", &mut variables).is_err());
    assert!(!variables.contains_key("z"));
}

#[test]
fn eval_names_the_stage_that_failed() {
    let mut variables = Environment::new();
    assert_eq!(
        eval("1 + 2..3", &mut variables),
        Err(EvalFault::Tokenize(TokenizeFault::MalformedNumber { at: 4 }))
    );
    assert_eq!(eval("2 +", &mut variables), Err(EvalFault::Parse(ParseFault::UnexpectedEndOfInput)));
    assert_eq!(eval("2 +", &mut variables).unwrap_err().message(), "Unexpected end of input");
    assert_eq!(eval("1..", &mut variables).unwrap_err().message(), "Invalid number");
}
