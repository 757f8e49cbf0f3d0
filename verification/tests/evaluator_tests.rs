use lefi::errors::ScriptingError;
use lefi::evaluator::{
    value_add, value_div, value_mul, value_sub, Answer, BinOp, CmpOp, EvalHalt, ExprEvaluator,
    Request, UnOp, Value,
};
use lefi::events::{Event, EventStream};
use lefi::indexer::EventIndexer;
use lefi::market::Date;
use lefi::nodes::Node;
use lefi::parser::parse_script;
use lefi::stream::{
    apply_merge, merge_requests, scale_requests, seed_accumulator, EventStreamEvaluator,
};

// One market snapshot: (fx value, numeraire value).
type Scenario = Vec<(f64, f64)>;

fn answer(req: Request, scenario: Option<&Scenario>) -> Answer {
    match req {
        Request::Bin(op, a, b) => {
            let x = f64::from_bits(a);
            let y = f64::from_bits(b);
            let v = match op {
                BinOp::Add => x + y,
                BinOp::Subtract => x - y,
                BinOp::Multiply => x * y,
                BinOp::Divide => x / y,
                BinOp::Power => x.powf(y),
                BinOp::Min => x.min(y),
                BinOp::Max => x.max(y),
            };
            Answer::Num(v.to_bits())
        }
        Request::Un(op, a) => {
            let x = f64::from_bits(a);
            let v = match op {
                UnOp::Ln => x.ln(),
                UnOp::Exp => x.exp(),
                UnOp::Negate => -x,
            };
            Answer::Num(v.to_bits())
        }
        Request::Cmp(op, a, b) => {
            let x = f64::from_bits(a);
            let y = f64::from_bits(b);
            Answer::Cond(match op {
                CmpOp::Superior => x > y,
                CmpOp::Inferior => x < y,
                CmpOp::SuperiorOrEqual => x >= y,
                CmpOp::InferiorOrEqual => x <= y,
            })
        }
        Request::Fx(slot) => Answer::Num(scenario.unwrap()[slot].0.to_bits()),
        Request::Pays(slot, amt) => {
            Answer::Num((f64::from_bits(amt) / scenario.unwrap()[slot].1).to_bits())
        }
    }
}

fn drive(node: &Node, n_vars: usize, scenario: Option<&Scenario>) -> Result<ExprEvaluator, ScriptingError> {
    let mut tape: Vec<Answer> = Vec::new();
    loop {
        let mut ev = ExprEvaluator::new().with_variables(n_vars);
        if let Some(s) = scenario {
            ev = ev.with_scenario(s.len());
        }
        match ev.const_visit(node, &tape) {
            Ok(()) => return Ok(ev),
            Err(EvalHalt::Error(e)) => return Err(e),
            Err(EvalHalt::Need(req)) => tape.push(answer(req, scenario)),
        }
    }
}

fn drive_stream(
    stream: &EventStream,
    n_vars: usize,
    scenario: Option<&Scenario>,
) -> Result<ExprEvaluator, ScriptingError> {
    let mut tape: Vec<Answer> = Vec::new();
    loop {
        let mut ev = ExprEvaluator::new().with_variables(n_vars);
        if let Some(s) = scenario {
            ev = ev.with_scenario(s.len());
        }
        match ev.visit_stream(stream, &tape) {
            Ok(()) => return Ok(ev),
            Err(EvalHalt::Error(e)) => return Err(e),
            Err(EvalHalt::Need(req)) => tape.push(answer(req, scenario)),
        }
    }
}

fn run_script(script: &str) -> Result<ExprEvaluator, ScriptingError> {
    let mut tree = *parse_script(script.to_string())?;
    let mut indexer = EventIndexer::new();
    indexer.visit(&mut tree)?;
    drive(&tree, indexer.get_variables_size(), None)
}

fn aggregate(
    stream: &EventStream,
    n_vars: usize,
    scenarios: &Vec<Scenario>,
) -> Result<Vec<Value>, ScriptingError> {
    let coordinator = EventStreamEvaluator::new(n_vars).with_scenarios(scenarios.len());
    let n = coordinator.check_scenarios()?;
    let shape = drive_stream(stream, n_vars, None)?;
    let mut acc = seed_accumulator(&shape.variables());
    for s in scenarios {
        let local = drive_stream(stream, n_vars, Some(s))?.variables();
        let reqs = merge_requests(&acc, &local);
        let sums: Vec<u64> = reqs
            .iter()
            .map(|r| match answer(*r, None) {
                Answer::Num(b) => b,
                _ => unreachable!(),
            })
            .collect();
        acc = apply_merge(&acc, &local, &sums);
    }
    let count_bits = (n as f64).to_bits();
    let reqs = scale_requests(&acc, count_bits);
    let sums: Vec<u64> = reqs
        .iter()
        .map(|r| match answer(*r, None) {
            Answer::Num(b) => b,
            _ => unreachable!(),
        })
        .collect();
    Ok(apply_merge(&acc, &acc, &sums))
}

fn num(v: f64) -> Value {
    Value::Number(v.to_bits())
}

fn cnum(v: f64) -> Box<Node> {
    Box::new(Node::Constant(v.to_bits()))
}

fn varid(name: &str, id: usize) -> Box<Node> {
    Box::new(Node::Variable(Vec::new(), name.to_string(), Some(id)))
}

fn resolve(r: Result<Value, Request>) -> Value {
    match r {
        Ok(v) => v,
        Err(req) => match answer(req, None) {
            Answer::Num(b) => Value::Number(b),
            _ => unreachable!(),
        },
    }
}

#[test]
fn evaluator_test_add_node() {
    let base = Node::Base(vec![Box::new(Node::Add(vec![cnum(1.0), cnum(1.0)]))]);
    let ev = drive(&base, 0, None).unwrap();
    assert_eq!(ev.digit_stack().pop().unwrap(), 2.0f64.to_bits());
}

#[test]
fn evaluator_test_subtract_node() {
    let base = Node::Base(vec![Box::new(Node::Subtract(vec![cnum(1.0), cnum(1.0)]))]);
    let ev = drive(&base, 0, None).unwrap();
    assert_eq!(ev.digit_stack().pop().unwrap(), 0.0f64.to_bits());
}

#[test]
fn evaluator_test_multiply_node() {
    let base = Node::Base(vec![Box::new(Node::Multiply(vec![cnum(2.0), cnum(2.0)]))]);
    let ev = drive(&base, 0, None).unwrap();
    assert_eq!(ev.digit_stack().pop().unwrap(), 4.0f64.to_bits());
}

#[test]
fn evaluator_test_divide_node() {
    let base = Node::Base(vec![Box::new(Node::Divide(vec![cnum(4.0), cnum(2.0)]))]);
    let ev = drive(&base, 0, None).unwrap();
    assert_eq!(ev.digit_stack().pop().unwrap(), 2.0f64.to_bits());
}

#[test]
fn evaluator_test_variable_assign_node() {
    let base = Node::Base(vec![Box::new(Node::Assign(vec![varid("x", 0), cnum(1.0)]))]);
    let ev = drive(&base, 1, None).unwrap();
    assert_eq!(ev.variables().pop().unwrap(), num(1.0));
}

#[test]
fn evaluator_test_assign_boolean() {
    let base = Node::Base(vec![
        Box::new(Node::Assign(vec![varid("x", 0), Box::new(Node::True)])),
        Box::new(Node::Assign(vec![varid("y", 1), Box::new(Node::False)])),
        Box::new(Node::Assign(vec![
            varid("z", 2),
            Box::new(Node::And(vec![varid("x", 0), varid("y", 1)])),
        ])),
    ]);
    let ev = drive(&base, 3, None).unwrap();
    assert_eq!(ev.variables().get(0).unwrap(), &Value::Bool(true));
    assert_eq!(ev.variables().get(1).unwrap(), &Value::Bool(false));
    assert_eq!(ev.variables().get(2).unwrap(), &Value::Bool(false));
}

#[test]
fn evaluator_test_variable_use_node() {
    let base = Node::Base(vec![Box::new(Node::Add(vec![varid("x", 0), cnum(1.0)]))]);
    assert!(drive(&base, 1, None).is_err());
}

#[test]
fn evaluator_test_nested_expression() {
    let base = Node::Base(vec![
        Box::new(Node::Assign(vec![varid("x", 0), cnum(1.0)])),
        Box::new(Node::Assign(vec![varid("y", 1), cnum(2.0)])),
        Box::new(Node::Assign(vec![
            varid("z", 2),
            Box::new(Node::Add(vec![varid("x", 0), varid("y", 1)])),
        ])),
    ]);
    let ev = drive(&base, 3, None).unwrap();
    assert_eq!(ev.variables().pop().unwrap(), num(3.0));
}

#[test]
fn evaluator_test_equal() {
    let base = Node::Base(vec![Box::new(Node::Equal(vec![cnum(1.0), cnum(1.0)]))]);
    let ev = drive(&base, 1, None).unwrap();
    assert_eq!(ev.boolean_stack().pop().unwrap(), true);
}

#[test]
fn evaluator_test_superior() {
    let base = Node::Base(vec![Box::new(Node::Superior(vec![cnum(2.0), cnum(1.0)]))]);
    let ev = drive(&base, 0, None).unwrap();
    assert_eq!(ev.boolean_stack().pop().unwrap(), true);
}

#[test]
fn evaluator_test_inferior() {
    let base = Node::Base(vec![Box::new(Node::Inferior(vec![cnum(1.0), cnum(2.0)]))]);
    let ev = drive(&base, 0, None).unwrap();
    assert_eq!(ev.boolean_stack().pop().unwrap(), true);
}

#[test]
fn evaluator_test_superior_or_equal() {
    let base = Node::Base(vec![Box::new(Node::SuperiorOrEqual(vec![cnum(2.0), cnum(1.0)]))]);
    let ev = drive(&base, 0, None).unwrap();
    assert_eq!(ev.boolean_stack().pop().unwrap(), true);
}

#[test]
fn evaluator_test_inferior_or_equal() {
    let base = Node::Base(vec![Box::new(Node::InferiorOrEqual(vec![cnum(1.0), cnum(2.0)]))]);
    let ev = drive(&base, 0, None).unwrap();
    assert_eq!(ev.boolean_stack().pop().unwrap(), true);
}

#[test]
fn evaluator_test_and() {
    let equal_1 = Box::new(Node::Equal(vec![cnum(1.0), cnum(1.0)]));
    let equal_2 = Box::new(Node::Equal(vec![cnum(1.0), cnum(1.0)]));
    let and = Box::new(Node::And(vec![equal_1.clone(), equal_2.clone()]));
    let base = Node::Base(vec![equal_1, equal_2, and]);
    let ev = drive(&base, 0, None).unwrap();
    assert_eq!(ev.boolean_stack().pop().unwrap(), true);
}

#[test]
fn evaluator_test_or() {
    let equal_1 = Box::new(Node::Equal(vec![cnum(1.0), cnum(1.0)]));
    let equal_2 = Box::new(Node::Equal(vec![cnum(1.0), cnum(1.0)]));
    let or = Box::new(Node::Or(vec![equal_1.clone(), equal_2.clone()]));
    let base = Node::Base(vec![equal_1, equal_2, or]);
    let ev = drive(&base, 0, None).unwrap();
    assert_eq!(ev.boolean_stack().pop().unwrap(), true);
}

#[test]
fn evaluator_test_not() {
    let equal = Box::new(Node::Equal(vec![cnum(1.0), cnum(1.0)]));
    let not = Box::new(Node::Not(vec![equal.clone()]));
    let base = Node::Base(vec![equal, not]);
    let ev = drive(&base, 0, None).unwrap();
    assert_eq!(ev.boolean_stack().pop().unwrap(), false);
}

#[test]
fn evaluator_test_if() {
    let assign_x = Box::new(Node::Assign(vec![varid("x", 0), cnum(1.0)]));
    let equal = Box::new(Node::Equal(vec![varid("x", 0), cnum(1.0)]));
    let add = Box::new(Node::Add(vec![varid("x", 0), cnum(1.0)]));
    let assign_x_2 = Box::new(Node::Assign(vec![varid("x", 0), add]));
    let if_node = Box::new(Node::If(vec![equal, assign_x_2], None));
    let base = Node::Base(vec![assign_x, if_node]);
    let ev = drive(&base, 1, None).unwrap();
    assert_eq!(ev.variables().pop().unwrap(), num(2.0));
}

#[test]
fn evaluator_test_if_new_variable() {
    let base = Node::Base(vec![
        Box::new(Node::Assign(vec![varid("x", 0), cnum(2.0)])),
        Box::new(Node::If(
            vec![
                Box::new(Node::Equal(vec![varid("x", 0), cnum(1.0)])),
                Box::new(Node::Assign(vec![varid("z", 1), cnum(3.0)])),
                Box::new(Node::Assign(vec![varid("w", 2), cnum(4.0)])),
            ],
            None,
        )),
    ]);
    let ev = drive(&base, 3, None).unwrap();
    assert_eq!(ev.variables().get(0).unwrap(), &num(2.0));
    assert_eq!(ev.variables().get(1).unwrap(), &Value::Null);
    assert_eq!(ev.variables().get(2).unwrap(), &Value::Null);
}

#[test]
fn test_simple_addition() {
    let ev = run_script(
        "
            x = 1;
            y = 2;
            z = x + y;
        ",
    )
    .unwrap();
    assert_eq!(*ev.variables().get(0).unwrap(), num(1.0));
    assert_eq!(*ev.variables().get(1).unwrap(), num(2.0));
    assert_eq!(*ev.variables().get(2).unwrap(), num(3.0));
}

#[test]
fn test_simple_if_condition() {
    let ev = run_script(
        "
            x = 2;
            y = 2;
            z = x + y;
            if x == 1 {
                z = 3;
            }
        ",
    )
    .unwrap();
    assert_eq!(*ev.variables().get(0).unwrap(), num(2.0));
    assert_eq!(*ev.variables().get(1).unwrap(), num(2.0));
    assert_eq!(*ev.variables().get(2).unwrap(), num(4.0));
}

#[test]
fn test_if_else_condition() {
    let ev = run_script(
        "
            x = 2;
            y = 2;
            z = x + y;
            if x == 1 {
                z = 3;
            } else {
                z = 4;
            }
        ",
    )
    .unwrap();
    assert_eq!(*ev.variables().get(0).unwrap(), num(2.0));
    assert_eq!(*ev.variables().get(1).unwrap(), num(2.0));
    assert_eq!(*ev.variables().get(2).unwrap(), num(4.0));
}

#[test]
fn test_nested_if_else_conditions() {
    let ev = run_script(
        "
            x = 2;
            y = 2;
            z = x + y;
            if x == 1 {
                z = 3;
            } else {
                if y == 1 {
                    z = 4;
                } else {
                    z = 5;
                }
            }
        ",
    )
    .unwrap();
    assert_eq!(*ev.variables().get(0).unwrap(), num(2.0));
    assert_eq!(*ev.variables().get(1).unwrap(), num(2.0));
    assert_eq!(*ev.variables().get(2).unwrap(), num(5.0));
}

#[test]
fn test_new_variable_in_if_condition() {
    let ev = run_script(
        "
            x = 2;
            y = 2;
            z = x + y;
            if x == 1 {
                z = 3;
                w = 4;
            }
        ",
    )
    .unwrap();
    assert_eq!(*ev.variables().get(0).unwrap(), num(2.0));
    assert_eq!(*ev.variables().get(1).unwrap(), num(2.0));
    assert_eq!(*ev.variables().get(2).unwrap(), num(4.0));
    assert_eq!(*ev.variables().get(3).unwrap(), Value::Null);

    let ev = run_script(
        "
            x = 2;
            y = 2;
            z = x + y;
            if x == 2 {
                z = 3;
                w = 4;
            }
        ",
    )
    .unwrap();
    assert_eq!(*ev.variables().get(0).unwrap(), num(2.0));
    assert_eq!(*ev.variables().get(1).unwrap(), num(2.0));
    assert_eq!(*ev.variables().get(2).unwrap(), num(3.0));
    assert_eq!(*ev.variables().get(3).unwrap(), num(4.0));
}

#[test]
fn test_nested_if_else_conditions_2() {
    let ev = run_script(
        "
            x = 2;
            y = 2;
            z = x + y;
            if x == 1 {
                z = 3;
            }
            if y == 1 {
                z = 4;
            } else {
                z = 5;
            }
        ",
    )
    .unwrap();
    assert_eq!(*ev.variables().get(0).unwrap(), num(2.0));
    assert_eq!(*ev.variables().get(1).unwrap(), num(2.0));
    assert_eq!(*ev.variables().get(2).unwrap(), num(5.0));
}

#[test]
fn test_string_assignment() {
    let ev = run_script(
        "
            x = \"Hello world\";
        ",
    )
    .unwrap();
    assert_eq!(
        *ev.variables().get(0).unwrap(),
        Value::String("Hello world".to_string())
    );
}

#[test]
fn test_variable_reassignment() {
    let ev = run_script(
        "
            x = 1;
            x = \"String\";
        ",
    )
    .unwrap();
    assert_eq!(
        *ev.variables().get(0).unwrap(),
        Value::String("String".to_string())
    );
}

#[test]
fn test_event_stream_evaluator() {
    let script = "
            x = 1;
            y = 2;
            z = x + y;
        ";
    let expr = parse_script(script.to_string()).unwrap();
    let event = Event::new(Date::new(2021, 1, 1), expr);
    let mut events = EventStream::new().with_events(vec![event]);
    let mut indexer = EventIndexer::new();
    indexer.visit_events(&mut events).unwrap();

    let scenarios: Vec<Scenario> = vec![Vec::new()];
    let results = aggregate(&events, indexer.get_variables_size(), &scenarios);
    assert_eq!(results.unwrap(), vec![num(1.0), num(2.0), num(3.0)]);
}

#[test]
fn test_event_stream_evaluator_multiple_scenarios() {
    let script = "
            x = 1;
            y = 2;
            z = x + y;
        ";
    let expr = parse_script(script.to_string()).unwrap();
    let event = Event::new(Date::new(2021, 1, 1), expr);
    let mut events = EventStream::new().with_events(vec![event]);
    let mut indexer = EventIndexer::new();
    indexer.visit_events(&mut events).unwrap();

    let scenarios: Vec<Scenario> = vec![Vec::new(); 10];
    let results = aggregate(&events, indexer.get_variables_size(), &scenarios);
    assert_eq!(results.unwrap(), vec![num(1.0), num(2.0), num(3.0)]);
}

#[test]
fn test_unary_plus_node() {
    let base = Node::Base(vec![Box::new(Node::UnaryPlus(vec![cnum(1.0)]))]);
    let ev = drive(&base, 0, None).unwrap();
    assert_eq!(ev.digit_stack().pop().unwrap(), 1.0f64.to_bits());
}

#[test]
fn test_unary_minus_node() {
    let base = Node::Base(vec![Box::new(Node::UnaryMinus(vec![cnum(1.0)]))]);
    let ev = drive(&base, 0, None).unwrap();
    assert_eq!(ev.digit_stack().pop().unwrap(), (-1.0f64).to_bits());
}

#[test]
fn test_min_node() {
    let base = Node::Base(vec![Box::new(Node::Min(vec![cnum(1.0), cnum(2.0)]))]);
    let ev = drive(&base, 0, None).unwrap();
    assert_eq!(ev.digit_stack().pop().unwrap(), 1.0f64.to_bits());
}

#[test]
fn test_max_node() {
    let base = Node::Base(vec![Box::new(Node::Max(vec![cnum(1.0), cnum(2.0)]))]);
    let ev = drive(&base, 0, None).unwrap();
    assert_eq!(ev.digit_stack().pop().unwrap(), 2.0f64.to_bits());
}

#[test]
fn test_pow_node() {
    let base = Node::Base(vec![Box::new(Node::Pow(vec![cnum(2.0), cnum(3.0)]))]);
    let ev = drive(&base, 0, None).unwrap();
    assert_eq!(ev.digit_stack().pop().unwrap(), 8.0f64.to_bits());
}

#[test]
fn test_ln_node() {
    let base = Node::Base(vec![Box::new(Node::Ln(vec![cnum(2.718281828459045)]))]);
    let ev = drive(&base, 0, None).unwrap();
    let top = f64::from_bits(ev.digit_stack().pop().unwrap());
    assert!((top - 1.0).abs() < f64::EPSILON);
}

#[test]
fn test_exp_node() {
    let base = Node::Base(vec![Box::new(Node::Exp(vec![cnum(1.0)]))]);
    let ev = drive(&base, 0, None).unwrap();
    let top = f64::from_bits(ev.digit_stack().pop().unwrap());
    assert!((top - 2.718281828459045).abs() < f64::EPSILON);
}

#[test]
fn test_not_equal_node() {
    let base = Node::Base(vec![Box::new(Node::NotEqual(vec![cnum(1.0), cnum(2.0)]))]);
    let ev = drive(&base, 0, None).unwrap();
    assert_eq!(ev.boolean_stack().pop().unwrap(), true);
}

#[test]
fn test_add_assign_number() {
    let a = num(1.0);
    let b = num(2.0);
    assert_eq!(resolve(value_add(&a, &b)), num(3.0));
}

#[test]
fn test_add_assign_string() {
    let a = Value::String("Hello".to_string());
    let b = Value::String(" World".to_string());
    assert_eq!(resolve(value_add(&a, &b)), Value::String("Hello World".to_string()));
}

#[test]
fn test_sub_assign_number() {
    let a = num(3.0);
    let b = num(1.0);
    assert_eq!(resolve(value_sub(&a, &b)), num(2.0));
}

#[test]
fn test_add_number_and_string() {
    assert_eq!(
        resolve(value_add(&num(1.0), &Value::String("Hello".to_string()))),
        Value::Null
    );
}

#[test]
fn test_sub_number_and_string() {
    assert_eq!(
        resolve(value_sub(&num(1.0), &Value::String("Hello".to_string()))),
        Value::Null
    );
}

#[test]
fn test_mul_number_and_string() {
    assert_eq!(
        resolve(value_mul(&num(1.0), &Value::String("Hello".to_string()))),
        Value::Null
    );
}

#[test]
fn test_div_number_and_string() {
    assert_eq!(
        resolve(value_div(&num(1.0), &Value::String("Hello".to_string()))),
        Value::Null
    );
}

#[test]
fn test_add_bool_and_number() {
    assert_eq!(resolve(value_add(&Value::Bool(true), &num(1.0))), Value::Null);
}

#[test]
fn test_sub_bool_and_number() {
    assert_eq!(resolve(value_sub(&Value::Bool(true), &num(1.0))), Value::Null);
}

#[test]
fn test_mul_bool_and_number() {
    assert_eq!(resolve(value_mul(&Value::Bool(true), &num(1.0))), Value::Null);
}

#[test]
fn test_div_bool_and_number() {
    assert_eq!(resolve(value_div(&Value::Bool(true), &num(1.0))), Value::Null);
}

#[test]
fn test_add_null_and_number() {
    assert_eq!(resolve(value_add(&Value::Null, &num(1.0))), Value::Null);
}

#[test]
fn test_sub_null_and_number() {
    assert_eq!(resolve(value_sub(&Value::Null, &num(1.0))), Value::Null);
}

#[test]
fn test_mul_null_and_number() {
    assert_eq!(resolve(value_mul(&Value::Null, &num(1.0))), Value::Null);
}

#[test]
fn test_div_null_and_number() {
    assert_eq!(resolve(value_div(&Value::Null, &num(1.0))), Value::Null);
}

#[test]
fn test_event_stream_evaluator_no_scenarios() {
    let coordinator = EventStreamEvaluator::new(1);
    let err = coordinator.check_scenarios().unwrap_err();
    assert_eq!(
        err.message(),
        ScriptingError::EvaluationError("No scenarios set".to_string()).message()
    );
}

#[test]
fn test_expr_evaluator_with_variables() {
    let ev = ExprEvaluator::new().with_variables(3);
    assert_eq!(ev.variables().len(), 3);
    assert_eq!(ev.variables(), vec![Value::Null, Value::Null, Value::Null]);
}

#[test]
fn test_expr_evaluator_digit_stack() {
    let mut ev = ExprEvaluator::new();
    ev.digit_stack.push(1.0f64.to_bits());
    assert_eq!(ev.digit_stack(), vec![1.0f64.to_bits()]);
}

#[test]
fn test_expr_evaluator_boolean_stack() {
    let mut ev = ExprEvaluator::new();
    ev.boolean_stack.push(true);
    assert_eq!(ev.boolean_stack(), vec![true]);
}

#[test]
fn test_expr_evaluator_is_lhs_variable() {
    let mut ev = ExprEvaluator::new();
    ev.is_lhs_variable = true;
    assert_eq!(ev.is_lhs_variable, true);
}

#[test]
fn test_expr_evaluator_lhs_variable() {
    let mut ev = ExprEvaluator::new();
    ev.lhs_variable = Some(("x".to_string(), Some(0)));
    assert_eq!(ev.lhs_variable, Some(("x".to_string(), Some(0))));
}

#[test]
fn test_expr_evaluator_with_scenario_none() {
    let ev = ExprEvaluator::new();
    assert!(ev.scenario_size.is_none());
}

#[test]
fn test_event_stream_evaluator_with_scenarios() {
    let scenarios: Vec<Scenario> = vec![Vec::new()];
    let events = EventStream::new();
    let results = aggregate(&events, 1, &scenarios);
    assert!(results.is_ok());
    assert_eq!(results.unwrap(), vec![Value::Null]);
}
