use vstd::prelude::*;

use crate::errors::{ErrorV, ScriptingError};
use crate::evaluator::{BinOp, Request, Value, ValueV};

verus! {

/// The scenario fan-out coordinator.  It decides; the caller computes: the
/// caller runs one pass per scenario (each with a fresh [`crate::evaluator::ExprEvaluator`]
/// and its own tape), sums the numeric slots with the requests this type
/// plans, and divides by the scenario count at the end.
#[derive(Debug, Clone, Copy, PartialEq, Eq, Structural)]
pub struct EventStreamEvaluator {
    pub n_vars: usize,
    pub n_scenarios: Option<usize>,
}

impl EventStreamEvaluator {
    /// A coordinator for `n_vars` variable slots, with no scenarios bound.
    pub fn new(n_vars: usize) -> (r: EventStreamEvaluator)
        ensures
            r.n_vars == n_vars,
            r.n_scenarios is None,
    {
        EventStreamEvaluator { n_vars, n_scenarios: None }
    }

    /// The coordinator with `n_scenarios` scenarios bound.
    pub fn with_scenarios(self, n_scenarios: usize) -> (r: EventStreamEvaluator)
        ensures
            r.n_vars == self.n_vars,
            r.n_scenarios == Some(n_scenarios),
    {
        EventStreamEvaluator { n_scenarios: Some(n_scenarios), ..self }
    }

    /// The number of scenarios, when aggregation may proceed.  Aggregating
    /// with no scenario list, or with an empty one, is an error and never a
    /// vacuous success.
    pub fn check_scenarios(&self) -> (r: Result<usize, ScriptingError>)
        ensures
            self.n_scenarios is None ==> (r matches Err(e) && e@ == ErrorV::EvaluationError(
                "No scenarios set"@,
            )),
            self.n_scenarios == Some(0usize) ==> (r matches Err(e) && e@
                == ErrorV::EvaluationError("No scenarios are empty"@)),
            forall|n: usize| self.n_scenarios == Some(n) && n > 0 ==> r == Ok::<
                usize,
                ScriptingError,
            >(n),
    {
        match self.n_scenarios {
            None => Err(ScriptingError::EvaluationError("No scenarios set".to_owned())),
            Some(n) => {
                if n == 0 {
                    Err(ScriptingError::EvaluationError("No scenarios are empty".to_owned()))
                } else {
                    Ok(n)
                }
            },
        }
    }
}

/// The accumulator seeded from a shape pass: every numeric slot reset to the
/// bits of positive zero, every other slot kept as it came out.
pub open spec fn spec_seed(vars: Seq<ValueV>) -> Seq<ValueV> {
    vars.map(
        |i: int, v: ValueV|
            match v {
                ValueV::Number(_) => ValueV::Number(0u64),
                _ => v,
            },
    )
}

/// Seed the accumulator: the type shape of `vars` with every numeric slot
/// set to zero bits.
pub fn seed_accumulator(vars: &Vec<Value>) -> (r: Vec<Value>)
    ensures
        r.deep_view() == spec_seed(vars.deep_view()),
{
    let mut r: Vec<Value> = Vec::new();
    let mut i: usize = 0;
    while i < vars.len()
        invariant
            i <= vars@.len(),
            r@.len() == i,
            forall|j: int| 0 <= j < i ==> r.deep_view()[j] == spec_seed(vars.deep_view())[j],
        decreases vars@.len() - i,
    {
        let v = match &vars[i] {
            Value::Number(_) => Value::Number(0),
            other => other.clone(),
        };
        let ghost prev = r.deep_view();
        r.push(v);
        i = i + 1;
        proof {
            assert(r.deep_view() =~= prev.push(v@));
        }
    }
    proof {
        assert(r.deep_view() =~= spec_seed(vars.deep_view()));
    }
    r
}

/// The additions one scenario contributes: for every slot where both the
/// accumulator and the scenario's result are numbers, the sum of the two.
pub open spec fn spec_merge_requests(acc: Seq<ValueV>, local: Seq<ValueV>, i: int) -> Seq<Request>
    decreases acc.len() - i,
{
    if 0 <= i < acc.len() {
        let rest = spec_merge_requests(acc, local, i + 1);
        if acc[i] is Number && i < local.len() && local[i] is Number {
            seq![Request::Bin(BinOp::Add, acc[i]->Number_0, local[i]->Number_0)] + rest
        } else {
            rest
        }
    } else {
        Seq::empty()
    }
}

/// The divisions that close the aggregation: every numeric accumulator slot
/// divided by the scenario count, whose bits the caller supplies.
pub open spec fn spec_scale_requests(acc: Seq<ValueV>, count_bits: u64, i: int) -> Seq<Request>
    decreases acc.len() - i,
{
    if 0 <= i < acc.len() {
        let rest = spec_scale_requests(acc, count_bits, i + 1);
        if acc[i] is Number {
            seq![Request::Bin(BinOp::Divide, acc[i]->Number_0, count_bits)] + rest
        } else {
            rest
        }
    } else {
        Seq::empty()
    }
}

/// The accumulator with the computed numbers written back: the slots where
/// both sides are numeric take the answers in order; other slots are kept.
/// Missing answers leave their slots as they were.
pub open spec fn spec_apply_merge(
    acc: Seq<ValueV>,
    local: Seq<ValueV>,
    sums: Seq<u64>,
    i: int,
    k: int,
) -> Seq<ValueV>
    decreases acc.len() - i,
{
    if 0 <= i < acc.len() {
        if acc[i] is Number && i < local.len() && local[i] is Number && 0 <= k < sums.len() {
            seq![ValueV::Number(sums[k])] + spec_apply_merge(acc, local, sums, i + 1, k + 1)
        } else {
            seq![acc[i]] + spec_apply_merge(acc, local, sums, i + 1, k)
        }
    } else {
        Seq::empty()
    }
}

/// Plan the additions for merging one scenario's result into the
/// accumulator.
pub fn merge_requests(acc: &Vec<Value>, local: &Vec<Value>) -> (r: Vec<Request>)
    ensures
        r@ == spec_merge_requests(acc.deep_view(), local.deep_view(), 0),
{
    merge_requests_from(acc, local, 0)
}

fn merge_requests_from(acc: &Vec<Value>, local: &Vec<Value>, i: usize) -> (r: Vec<Request>)
    requires
        i <= acc@.len(),
    ensures
        r@ == spec_merge_requests(acc.deep_view(), local.deep_view(), i as int),
    decreases acc@.len() - i,
{
    if i >= acc.len() {
        let r: Vec<Request> = Vec::new();
        proof {
            assert(r@ =~= spec_merge_requests(acc.deep_view(), local.deep_view(), i as int));
        }
        return r;
    }
    let mut rest = merge_requests_from(acc, local, i + 1);
    let both = match &acc[i] {
        Value::Number(a) => {
            if i < local.len() {
                match &local[i] {
                    Value::Number(l) => Some(Request::Bin(BinOp::Add, *a, *l)),
                    _ => None,
                }
            } else {
                None
            }
        },
        _ => None,
    };
    match both {
        Some(req) => {
            rest.insert(0, req);
            proof {
                assert(rest@ =~= spec_merge_requests(acc.deep_view(), local.deep_view(), i as int));
            }
            rest
        },
        None => {
            proof {
                assert(rest@ =~= spec_merge_requests(acc.deep_view(), local.deep_view(), i as int));
            }
            rest
        },
    }
}

/// Plan the divisions that turn the summed accumulator into the mean.
pub fn scale_requests(acc: &Vec<Value>, count_bits: u64) -> (r: Vec<Request>)
    ensures
        r@ == spec_scale_requests(acc.deep_view(), count_bits, 0),
{
    scale_requests_from(acc, count_bits, 0)
}

fn scale_requests_from(acc: &Vec<Value>, count_bits: u64, i: usize) -> (r: Vec<Request>)
    requires
        i <= acc@.len(),
    ensures
        r@ == spec_scale_requests(acc.deep_view(), count_bits, i as int),
    decreases acc@.len() - i,
{
    if i >= acc.len() {
        let r: Vec<Request> = Vec::new();
        proof {
            assert(r@ =~= spec_scale_requests(acc.deep_view(), count_bits, i as int));
        }
        return r;
    }
    let mut rest = scale_requests_from(acc, count_bits, i + 1);
    match &acc[i] {
        Value::Number(a) => {
            rest.insert(0, Request::Bin(BinOp::Divide, *a, count_bits));
            proof {
                assert(rest@ =~= spec_scale_requests(acc.deep_view(), count_bits, i as int));
            }
            rest
        },
        _ => {
            proof {
                assert(rest@ =~= spec_scale_requests(acc.deep_view(), count_bits, i as int));
            }
            rest
        },
    }
}

/// Write computed numbers back into the accumulator, in slot order.
pub fn apply_merge(acc: &Vec<Value>, local: &Vec<Value>, sums: &Vec<u64>) -> (r: Vec<Value>)
    ensures
        r.deep_view() == spec_apply_merge(acc.deep_view(), local.deep_view(), sums@, 0, 0),
{
    apply_merge_from(acc, local, sums, 0, 0)
}

fn apply_merge_from(acc: &Vec<Value>, local: &Vec<Value>, sums: &Vec<u64>, i: usize, k: usize) -> (r:
    Vec<Value>)
    requires
        i <= acc@.len(),
        k <= sums@.len(),
    ensures
        r.deep_view() == spec_apply_merge(acc.deep_view(), local.deep_view(), sums@, i as int, k as int),
    decreases acc@.len() - i,
{
    if i >= acc.len() {
        let r: Vec<Value> = Vec::new();
        proof {
            assert(r.deep_view() =~= spec_apply_merge(
                acc.deep_view(),
                local.deep_view(),
                sums@,
                i as int,
                k as int,
            ));
        }
        return r;
    }
    let consume = match &acc[i] {
        Value::Number(_) => {
            if i < local.len() && k < sums.len() {
                match &local[i] {
                    Value::Number(_) => true,
                    _ => false,
                }
            } else {
                false
            }
        },
        _ => false,
    };
    if consume {
        let mut rest = apply_merge_from(acc, local, sums, i + 1, k + 1);
        rest.insert(0, Value::Number(sums[k]));
        proof {
            assert(rest.deep_view() =~= spec_apply_merge(
                acc.deep_view(),
                local.deep_view(),
                sums@,
                i as int,
                k as int,
            ));
        }
        rest
    } else {
        let mut rest = apply_merge_from(acc, local, sums, i + 1, k);
        rest.insert(0, acc[i].clone());
        proof {
            assert(rest.deep_view() =~= spec_apply_merge(
                acc.deep_view(),
                local.deep_view(),
                sums@,
                i as int,
                k as int,
            ));
        }
        rest
    }
}

} // verus!
