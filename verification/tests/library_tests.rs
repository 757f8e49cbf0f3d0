use lefi::errors::ScriptingError;
use lefi::evaluator::{
    eq_from_diff, neq_from_diff, Answer, BinOp, CmpOp, EvalHalt, ExprEvaluator, Request, UnOp,
    Value,
};
use lefi::events::{CodedEvent, Event, EventStream};
use lefi::indexer::EventIndexer;
use lefi::market::{Currency, Date, ExchangeRateRequest, MarketRequest, NumerarieRequest};
use lefi::nodes::Node;
use lefi::parser::parse_script;
use lefi::stream::{
    apply_merge, merge_requests, scale_requests, seed_accumulator, EventStreamEvaluator,
};

type Scenario = Vec<(f64, f64)>;

fn answer(req: Request, scenario: Option<&Scenario>) -> Answer {
    match req {
        Request::Bin(op, a, b) => {
            let x = f64::from_bits(a);
            let y = f64::from_bits(b);
            let v = match op {
                BinOp::Add => x + y,
                BinOp::Subtract => x - y,
                BinOp::Multiply => x * y,
                BinOp::Divide => x / y,
                BinOp::Power => x.powf(y),
                BinOp::Min => x.min(y),
                BinOp::Max => x.max(y),
            };
            Answer::Num(v.to_bits())
        }
        Request::Un(op, a) => {
            let x = f64::from_bits(a);
            let v = match op {
                UnOp::Ln => x.ln(),
                UnOp::Exp => x.exp(),
                UnOp::Negate => -x,
            };
            Answer::Num(v.to_bits())
        }
        Request::Cmp(op, a, b) => {
            let x = f64::from_bits(a);
            let y = f64::from_bits(b);
            Answer::Cond(match op {
                CmpOp::Superior => x > y,
                CmpOp::Inferior => x < y,
                CmpOp::SuperiorOrEqual => x >= y,
                CmpOp::InferiorOrEqual => x <= y,
            })
        }
        Request::Fx(slot) => Answer::Num(scenario.unwrap()[slot].0.to_bits()),
        Request::Pays(slot, amt) => {
            Answer::Num((f64::from_bits(amt) / scenario.unwrap()[slot].1).to_bits())
        }
    }
}

fn drive_stream(
    stream: &EventStream,
    n_vars: usize,
    scenario: Option<&Scenario>,
) -> Result<ExprEvaluator, ScriptingError> {
    let mut tape: Vec<Answer> = Vec::new();
    loop {
        let mut ev = ExprEvaluator::new().with_variables(n_vars);
        if let Some(s) = scenario {
            ev = ev.with_scenario(s.len());
        }
        match ev.visit_stream(stream, &tape) {
            Ok(()) => return Ok(ev),
            Err(EvalHalt::Error(e)) => return Err(e),
            Err(EvalHalt::Need(req)) => tape.push(answer(req, scenario)),
        }
    }
}

fn aggregate(
    stream: &EventStream,
    n_vars: usize,
    scenarios: &Vec<Scenario>,
) -> Result<Vec<Value>, ScriptingError> {
    let coordinator = EventStreamEvaluator::new(n_vars).with_scenarios(scenarios.len());
    let n = coordinator.check_scenarios()?;
    let shape = drive_stream(stream, n_vars, None)?;
    let mut acc = seed_accumulator(&shape.variables());
    for s in scenarios {
        let local = drive_stream(stream, n_vars, Some(s))?.variables();
        let reqs = merge_requests(&acc, &local);
        let sums: Vec<u64> = reqs
            .iter()
            .map(|r| match answer(*r, None) {
                Answer::Num(b) => b,
                _ => unreachable!(),
            })
            .collect();
        acc = apply_merge(&acc, &local, &sums);
    }
    let count_bits = (n as f64).to_bits();
    let reqs = scale_requests(&acc, count_bits);
    let sums: Vec<u64> = reqs
        .iter()
        .map(|r| match answer(*r, None) {
            Answer::Num(b) => b,
            _ => unreachable!(),
        })
        .collect();
    Ok(apply_merge(&acc, &acc, &sums))
}

fn indexed_stream(scripts: Vec<&str>) -> (EventStream, EventIndexer) {
    let mut events = EventStream::new();
    for s in scripts {
        let expr = parse_script(s.to_string()).unwrap();
        events.add_event(Event::new(Date::new(2024, 6, 1), expr));
    }
    let mut indexer = EventIndexer::new();
    indexer.visit_events(&mut events).unwrap();
    (events, indexer)
}

fn num(v: f64) -> Value {
    Value::Number(v.to_bits())
}

fn currency(code: &str) -> Currency {
    let chars: Vec<char> = code.chars().collect();
    Currency::from_code(&chars).unwrap()
}

// The equality and inequality tests read one difference and must answer in
// exact complement for every non-NaN difference.
#[test]
fn test_eq_neq_complement_on_samples() {
    let samples: Vec<f64> = vec![
        0.0,
        -0.0,
        1.0,
        -1.0,
        f64::EPSILON,
        f64::EPSILON / 2.0,
        -f64::EPSILON,
        1.0e300,
        -1.0e300,
        f64::INFINITY,
        f64::NEG_INFINITY,
        4.9e-324,
    ];
    for d in samples {
        let bits = d.to_bits();
        assert_eq!(eq_from_diff(bits), !neq_from_diff(bits), "diff {}", d);
        assert_eq!(eq_from_diff(bits), d.abs() < f64::EPSILON, "diff {}", d);
    }
    // On NaN both answers are negative, as a NaN comparison is.
    let nan_bits = f64::NAN.to_bits();
    assert!(!eq_from_diff(nan_bits));
    assert!(!neq_from_diff(nan_bits));
}

#[test]
fn test_equal_is_tolerant_of_one_ulp() {
    let script = "
        x = 1;
        if x == 1 {
            y = 1;
        } else {
            y = 2;
        }
    ";
    let (events, indexer) = indexed_stream(vec![script]);
    let ev = drive_stream(&events, indexer.get_variables_size(), None).unwrap();
    assert_eq!(*ev.variables().get(1).unwrap(), num(1.0));
}

// The mean of identical per-slot results is exactly that result for values
// whose sums and quotients are exact.
#[test]
fn test_mean_of_identical_scenarios() {
    let (events, indexer) = indexed_stream(vec!["a = 3; b = 0.5; c = a * b;"]);
    let n_vars = indexer.get_variables_size();
    for count in [1usize, 2, 4, 10] {
        let scenarios: Vec<Scenario> = vec![Vec::new(); count];
        let results = aggregate(&events, n_vars, &scenarios).unwrap();
        assert_eq!(results, vec![num(3.0), num(0.5), num(1.5)], "count {}", count);
    }
}

#[test]
fn test_aggregating_zero_scenarios_is_error() {
    let (events, indexer) = indexed_stream(vec!["a = 1;"]);
    let scenarios: Vec<Scenario> = Vec::new();
    let err = aggregate(&events, indexer.get_variables_size(), &scenarios).unwrap_err();
    assert_eq!(
        err.message(),
        "Error while evaluating: No scenarios are empty".to_string()
    );
}

#[test]
fn test_spot_reads_scenario_fx() {
    let (events, indexer) = indexed_stream(vec!["x = spot(\"USD\") * 2;"]);
    let scenario: Scenario = vec![(1.25, 1.0)];
    let ev = drive_stream(&events, indexer.get_variables_size(), Some(&scenario)).unwrap();
    assert_eq!(*ev.variables().get(0).unwrap(), num(2.5));
}

#[test]
fn test_spot_without_scenario_is_error() {
    let (events, indexer) = indexed_stream(vec!["x = spot(\"USD\");"]);
    let err = drive_stream(&events, indexer.get_variables_size(), None).unwrap_err();
    assert_eq!(err.message(), "Error while evaluating: No scenario set");
}

#[test]
fn test_pays_discounts_by_numeraire() {
    // `Pays` discounts the amount already computed on the numeric stack.
    let pays_tree = Box::new(Node::Base(vec![Box::new(Node::Assign(vec![
        Box::new(Node::Variable(Vec::new(), "y".to_string(), None)),
        Box::new(Node::Base(vec![
            Box::new(Node::Constant(100.0f64.to_bits())),
            Box::new(Node::Pays(Vec::new(), None)),
        ])),
    ]))]));
    let mut events = EventStream::new();
    events.add_event(Event::new(Date::new(2024, 6, 1), pays_tree));
    let mut indexer = EventIndexer::new();
    indexer.visit_events(&mut events).unwrap();
    let scenario: Scenario = vec![(1.0, 4.0)];
    let ev = drive_stream(&events, indexer.get_variables_size(), Some(&scenario)).unwrap();
    assert_eq!(*ev.variables().get(0).unwrap(), num(25.0));
}

#[test]
fn test_two_runs_are_bit_identical() {
    let script = "
        a = 0.1;
        b = 0.2;
        c = a + b;
        d = ln(exp(c)) ** 2;
        e = min(max(d, 0.3), 100) / 7;
    ";
    let (events, indexer) = indexed_stream(vec![script]);
    let first = drive_stream(&events, indexer.get_variables_size(), None).unwrap();
    let second = drive_stream(&events, indexer.get_variables_size(), None).unwrap();
    assert_eq!(first.variables(), second.variables());
    assert_eq!(first.digit_stack(), second.digit_stack());
    assert_eq!(first.boolean_stack(), second.boolean_stack());
}

#[test]
fn test_seed_accumulator_resets_numbers() {
    let vars = vec![
        num(4.5),
        Value::Bool(true),
        Value::String("s".to_string()),
        Value::Null,
    ];
    let seeded = seed_accumulator(&vars);
    assert_eq!(
        seeded,
        vec![
            num(0.0),
            Value::Bool(true),
            Value::String("s".to_string()),
            Value::Null
        ]
    );
}

#[test]
fn test_merge_and_apply_only_touch_numeric_pairs() {
    let acc = vec![num(1.0), Value::Bool(true), num(2.0)];
    let local = vec![num(10.0), num(99.0), num(20.0)];
    let reqs = merge_requests(&acc, &local);
    assert_eq!(reqs.len(), 2);
    assert_eq!(
        reqs[0],
        Request::Bin(BinOp::Add, 1.0f64.to_bits(), 10.0f64.to_bits())
    );
    assert_eq!(
        reqs[1],
        Request::Bin(BinOp::Add, 2.0f64.to_bits(), 20.0f64.to_bits())
    );
    let sums = vec![11.0f64.to_bits(), 22.0f64.to_bits()];
    let merged = apply_merge(&acc, &local, &sums);
    assert_eq!(merged, vec![num(11.0), Value::Bool(true), num(22.0)]);
}

#[test]
fn test_scale_requests_divide_each_numeric_slot() {
    let acc = vec![num(6.0), Value::Null, num(9.0)];
    let reqs = scale_requests(&acc, 3.0f64.to_bits());
    assert_eq!(reqs.len(), 2);
    assert_eq!(
        reqs[0],
        Request::Bin(BinOp::Divide, 6.0f64.to_bits(), 3.0f64.to_bits())
    );
}

#[test]
fn test_check_scenarios_accepts_positive_counts() {
    let coordinator = EventStreamEvaluator::new(2).with_scenarios(5);
    assert_eq!(coordinator.check_scenarios().unwrap(), 5);
    let empty = EventStreamEvaluator::new(2).with_scenarios(0);
    assert!(empty.check_scenarios().is_err());
}

#[test]
fn test_market_request_accessors() {
    let fx = ExchangeRateRequest::new(currency("USD"), Some(currency("EUR")), Some(Date::new(2024, 1, 2)));
    assert_eq!(fx.first_currency(), currency("USD"));
    assert_eq!(fx.second_currency(), Some(currency("EUR")));
    assert_eq!(fx.reference_date(), Some(Date::new(2024, 1, 2)));

    let numerarie = NumerarieRequest::new(Date::new(2024, 1, 3));
    assert_eq!(numerarie.reference_date(), Date::new(2024, 1, 3));

    let req = MarketRequest::new(7, Some(fx), None);
    assert_eq!(req.id(), 7);
    assert_eq!(req.fx(), Some(fx));
    assert_eq!(req.numerarie(), None);
}

#[test]
fn test_currency_codes() {
    assert_eq!(currency("USD").code(), "USD".to_string());
    let bad: Vec<char> = "usd".chars().collect();
    assert!(Currency::from_code(&bad).is_none());
    let short: Vec<char> = "US".chars().collect();
    assert!(Currency::from_code(&short).is_none());
}

#[test]
fn test_date_fields() {
    let d = Date::new(2021, 12, 31);
    assert_eq!(d.year(), 2021);
    assert_eq!(d.month(), 12);
    assert_eq!(d.day(), 31);
    assert_eq!(Date::empty(), Date::new(0, 0, 0));
}

#[test]
fn test_event_stream_dates() {
    let e1 = Event::new(Date::new(2024, 1, 1), parse_script("a = 1;".to_string()).unwrap());
    let e2 = Event::new(Date::new(2024, 2, 1), parse_script("b = 2;".to_string()).unwrap());
    let stream = EventStream::new().with_events(vec![e1, e2]).with_id(3);
    assert_eq!(stream.id, Some(3));
    assert_eq!(
        stream.event_dates(),
        vec![Date::new(2024, 1, 1), Date::new(2024, 2, 1)]
    );
    assert_eq!(stream.events().len(), 2);
}

#[test]
fn test_coded_event_compiles() {
    let coded = CodedEvent::new(Date::new(2024, 3, 1), "x = 1;".to_string());
    assert_eq!(coded.reference_date(), Date::new(2024, 3, 1));
    assert_eq!(coded.script(), &"x = 1;".to_string());
    let event = Event::from_coded(&coded).unwrap();
    assert_eq!(event.reference_date(), Date::new(2024, 3, 1));

    let broken = CodedEvent::new(Date::new(2024, 3, 1), "x = ;".to_string());
    assert!(Event::from_coded(&broken).is_err());

    let stream = EventStream::from_coded_events(&vec![coded]).unwrap();
    assert_eq!(stream.events().len(), 1);
}

#[test]
fn test_error_messages() {
    assert_eq!(
        ScriptingError::InvalidSyntax("bad".to_string()).message(),
        "Invalid Syntax: bad"
    );
    assert_eq!(
        ScriptingError::InvalidToken("tok".to_string()).message(),
        "Invalid Token: tok"
    );
    assert_eq!(
        ScriptingError::ParsingError("oops".to_string()).message(),
        "Error while parsing: oops"
    );
    assert_eq!(
        ScriptingError::UnexpectedToken("x".to_string()).message(),
        "Unexpected token"
    );
    assert_eq!(
        ScriptingError::EvaluationError("e".to_string()).message(),
        "Error while evaluating: e"
    );
}

#[test]
fn test_uninitialized_variable_message() {
    let (events, indexer) = indexed_stream(vec!["y = x + 1; x = 1;"]);
    let err = drive_stream(&events, indexer.get_variables_size(), None).unwrap_err();
    assert_eq!(err.message(), "Error while evaluating: Variable x not initialized");
}

#[test]
fn test_unindexed_variable_message() {
    let base = Node::Base(vec![Box::new(Node::Add(vec![
        Box::new(Node::Variable(Vec::new(), "q".to_string(), None)),
        Box::new(Node::Constant(1.0f64.to_bits())),
    ]))]);
    let mut ev = ExprEvaluator::new().with_variables(1);
    let tape: Vec<Answer> = Vec::new();
    match ev.const_visit(&base, &tape) {
        Err(EvalHalt::Error(e)) => {
            assert_eq!(e.message(), "Error while evaluating: Variable q not indexed")
        }
        _ => panic!("expected an error"),
    }
}

#[test]
fn test_shared_slots_across_events() {
    let (events, indexer) = indexed_stream(vec!["x = 1;", "y = x + 1;"]);
    assert_eq!(indexer.get_variables_size(), 2);
    let ev = drive_stream(&events, 2, None).unwrap();
    assert_eq!(ev.variables(), vec![num(1.0), num(2.0)]);
}
