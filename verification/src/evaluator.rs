use vstd::prelude::*;

use crate::errors::{ErrorV, ScriptingError};
use crate::nodes::{lemma_node_child_decreases, node_children, spec_has_children, ExprTree, Node};
use vstd::pervasive::unreached;

verus! {

// ---------------------------------------------------------------------------
// Values.
// ---------------------------------------------------------------------------
/// A runtime value of the script language.  `Number` carries the bit pattern
/// of an IEEE-754 double; `Null` means "declared but never assigned".
#[derive(Debug)]
pub enum Value {
    Bool(bool),
    Number(u64),
    String(String),
    Null,
}

/// The mathematical shadow of [`Value`].
pub ghost enum ValueV {
    Bool(bool),
    Number(u64),
    StringV(Seq<char>),
    Null,
}

impl View for Value {
    type V = ValueV;

    open spec fn view(&self) -> ValueV {
        match self {
            Value::Bool(b) => ValueV::Bool(*b),
            Value::Number(n) => ValueV::Number(*n),
            Value::String(s) => ValueV::StringV(s@),
            Value::Null => ValueV::Null,
        }
    }
}

impl DeepView for Value {
    type V = ValueV;

    open spec fn deep_view(&self) -> ValueV {
        self@
    }
}

impl Clone for Value {
    /// A copy equal to the original.
    fn clone(&self) -> (res: Self)
        ensures
            res == *self,
    {
        match self {
            Value::Bool(b) => Value::Bool(*b),
            Value::Number(n) => Value::Number(*n),
            Value::String(s) => Value::String(s.clone()),
            Value::Null => Value::Null,
        }
    }
}

impl vstd::std_specs::cmp::PartialEqSpecImpl for Value {
    open spec fn obeys_eq_spec() -> bool {
        true
    }

    open spec fn eq_spec(&self, other: &Value) -> bool {
        self@ == other@
    }
}

impl PartialEq for Value {
    /// Two values are equal when they have the same tag and payload.
    fn eq(&self, other: &Value) -> (r: bool) {
        match (self, other) {
            (Value::Bool(a), Value::Bool(b)) => a == b,
            (Value::Number(a), Value::Number(b)) => a == b,
            (Value::String(a), Value::String(b)) => a.eq(b),
            (Value::Null, Value::Null) => true,
            _ => false,
        }
    }
}

/// The raw value combinators degrade to `Null` on mismatched or `Null`
/// operands: they model an unknown financial quantity, not a programming
/// mistake.  Only addition also joins two strings.  A numeric pair needs the
/// host's arithmetic, so the request is handed back for the caller to
/// compute and wrap in `Value::Number`.
pub fn value_add(a: &Value, b: &Value) -> (r: Result<Value, Request>)
    ensures
        match (a@, b@) {
            (ValueV::Number(x), ValueV::Number(y)) => r == Err::<Value, Request>(
                Request::Bin(BinOp::Add, x, y),
            ),
            (ValueV::StringV(x), ValueV::StringV(y)) => (r matches Ok(v) && v@ == ValueV::StringV(
                x + y,
            )),
            _ => (r matches Ok(v) && v@ == ValueV::Null),
        },
{
    match (a, b) {
        (Value::Number(x), Value::Number(y)) => Err(Request::Bin(BinOp::Add, *x, *y)),
        (Value::String(x), Value::String(y)) => {
            let mut joined = x.clone();
            joined.push_str(y.as_str());
            Ok(Value::String(joined))
        },
        _ => Ok(Value::Null),
    }
}

/// Subtraction of raw values: numbers ask for arithmetic, everything else
/// degrades to `Null`.
pub fn value_sub(a: &Value, b: &Value) -> (r: Result<Value, Request>)
    ensures
        match (a@, b@) {
            (ValueV::Number(x), ValueV::Number(y)) => r == Err::<Value, Request>(
                Request::Bin(BinOp::Subtract, x, y),
            ),
            _ => (r matches Ok(v) && v@ == ValueV::Null),
        },
{
    match (a, b) {
        (Value::Number(x), Value::Number(y)) => Err(Request::Bin(BinOp::Subtract, *x, *y)),
        _ => Ok(Value::Null),
    }
}

/// Multiplication of raw values: numbers ask for arithmetic, everything
/// else degrades to `Null`.
pub fn value_mul(a: &Value, b: &Value) -> (r: Result<Value, Request>)
    ensures
        match (a@, b@) {
            (ValueV::Number(x), ValueV::Number(y)) => r == Err::<Value, Request>(
                Request::Bin(BinOp::Multiply, x, y),
            ),
            _ => (r matches Ok(v) && v@ == ValueV::Null),
        },
{
    match (a, b) {
        (Value::Number(x), Value::Number(y)) => Err(Request::Bin(BinOp::Multiply, *x, *y)),
        _ => Ok(Value::Null),
    }
}

/// Division of raw values: numbers ask for arithmetic, everything else
/// degrades to `Null`.
pub fn value_div(a: &Value, b: &Value) -> (r: Result<Value, Request>)
    ensures
        match (a@, b@) {
            (ValueV::Number(x), ValueV::Number(y)) => r == Err::<Value, Request>(
                Request::Bin(BinOp::Divide, x, y),
            ),
            _ => (r matches Ok(v) && v@ == ValueV::Null),
        },
{
    match (a, b) {
        (Value::Number(x), Value::Number(y)) => Err(Request::Bin(BinOp::Divide, *x, *y)),
        _ => Ok(Value::Null),
    }
}

// ---------------------------------------------------------------------------
// Requests and answers: the evaluator's boundary with numeric hardware and
// market data.  The library never computes on doubles; when a result is
// needed it halts with a `Request`, and resumes when the caller appends the
// `Answer` to the tape and runs the evaluation again.
// ---------------------------------------------------------------------------
/// A two-operand numeric operation on double bit patterns.
#[derive(Debug, Clone, Copy, PartialEq, Eq, Structural)]
pub enum BinOp {
    Add,
    Subtract,
    Multiply,
    Divide,
    Power,
    Min,
    Max,
}

/// A one-operand numeric operation on a double bit pattern.
#[derive(Debug, Clone, Copy, PartialEq, Eq, Structural)]
pub enum UnOp {
    Ln,
    Exp,
    Negate,
}

/// An ordering comparison of two double bit patterns.
#[derive(Debug, Clone, Copy, PartialEq, Eq, Structural)]
pub enum CmpOp {
    Superior,
    Inferior,
    SuperiorOrEqual,
    InferiorOrEqual,
}

/// What the evaluator needs from its caller to continue:
/// - `Bin`/`Un`: the named arithmetic on the given bit patterns;
/// - `Cmp`: the named comparison, as a boolean;
/// - `Fx(slot)`: the fx value of the scenario's snapshot at `slot`;
/// - `Pays(slot, amount)`: `amount` divided by that snapshot's numeraire.
#[derive(Debug, Clone, Copy, PartialEq, Eq, Structural)]
pub enum Request {
    Bin(BinOp, u64, u64),
    Un(UnOp, u64),
    Cmp(CmpOp, u64, u64),
    Fx(usize),
    Pays(usize, u64),
}

/// One answer on the tape: the bits of a double, or a comparison outcome.
#[derive(Debug, Clone, Copy, PartialEq, Eq, Structural)]
pub enum Answer {
    Num(u64),
    Cond(bool),
}

/// Why an evaluation run stopped short of completing.
#[derive(Debug)]
pub enum EvalHalt {
    Error(ScriptingError),
    Need(Request),
}

/// The mathematical shadow of [`EvalHalt`].
pub ghost enum HaltV {
    Error(ErrorV),
    Need(Request),
}

impl View for EvalHalt {
    type V = HaltV;

    open spec fn view(&self) -> HaltV {
        match self {
            EvalHalt::Error(e) => HaltV::Error(e@),
            EvalHalt::Need(r) => HaltV::Need(*r),
        }
    }
}

// ---------------------------------------------------------------------------
// Near-equality of numbers.  `Equal` holds when |right - left| is below the
// machine epsilon; `NotEqual` when it is at or above it.  The difference
// itself is a numeric answer; the threshold test is bit arithmetic on
// non-negative doubles, whose value order is their bit order.
// ---------------------------------------------------------------------------
/// The bit pattern of a double with its sign cleared: the bits of |x|.
pub open spec fn spec_abs_bits(d: u64) -> u64 {
    d & 0x7fff_ffff_ffff_ffff
}

/// The bits of the machine epsilon, the smallest increment at 1.0.
pub const EPSILON_BITS: u64 = 0x3cb0_0000_0000_0000;

/// The bits of positive infinity.  Cleared of its sign, a double is NaN
/// exactly when its bits exceed this.
pub const INFINITY_BITS: u64 = 0x7ff0_0000_0000_0000;

/// Whether a difference `d` counts as equality: |d| < epsilon.  False for
/// NaN, whose magnitude bits lie above those of infinity.
pub open spec fn spec_eq_from_diff(d: u64) -> bool {
    spec_abs_bits(d) < EPSILON_BITS
}

/// Whether a difference `d` counts as inequality: |d| >= epsilon and not
/// NaN.  On NaN both tests are false, as a comparison of NaN is.
pub open spec fn spec_neq_from_diff(d: u64) -> bool {
    EPSILON_BITS <= spec_abs_bits(d) && spec_abs_bits(d) <= INFINITY_BITS
}

/// `Equal` and `NotEqual` are exact complements wherever the difference of
/// the operands is a number (finite or infinite, not NaN).
pub proof fn lemma_eq_neq_complement(d: u64)
    requires
        spec_abs_bits(d) <= INFINITY_BITS,
    ensures
        spec_neq_from_diff(d) == !spec_eq_from_diff(d),
{
}

/// Whether the equality test accepts the difference `d`.
pub fn eq_from_diff(d: u64) -> (r: bool)
    ensures
        r == spec_eq_from_diff(d),
{
    (d & 0x7fff_ffff_ffff_ffff) < EPSILON_BITS
}

/// Whether the inequality test accepts the difference `d`.
pub fn neq_from_diff(d: u64) -> (r: bool)
    ensures
        r == spec_neq_from_diff(d),
{
    let a = d & 0x7fff_ffff_ffff_ffff;
    EPSILON_BITS <= a && a <= INFINITY_BITS
}

// ---------------------------------------------------------------------------
// The evaluation state and its mathematical model.
// ---------------------------------------------------------------------------
/// The state of one evaluation run, in mathematical form: the variable
/// vector, the three typed stacks, the pending left-hand-side register with
/// its flag, the number of snapshots of the bound scenario (if one is
/// bound), and how much of the answer tape is consumed.
#[verifier::ext_equal]
pub ghost struct EvalV {
    pub vars: Seq<ValueV>,
    pub digits: Seq<u64>,
    pub bools: Seq<bool>,
    pub strs: Seq<Seq<char>>,
    pub is_lhs: bool,
    pub lhs: Option<(Seq<char>, Option<usize>)>,
    pub scen: Option<usize>,
    pub cursor: nat,
}

/// The outcome of visiting one node: the state after it, and `None` when the
/// visit ran to completion, or the halt that stopped it.
pub ghost struct StepR {
    pub st: EvalV,
    pub halt: Option<HaltV>,
}

pub open spec fn step_ok(st: EvalV) -> StepR {
    StepR { st, halt: None }
}

pub open spec fn step_err(st: EvalV, m: Seq<char>) -> StepR {
    StepR { st, halt: Some(HaltV::Error(ErrorV::EvaluationError(m))) }
}

pub open spec fn msg_not_indexed(name: Seq<char>) -> Seq<char> {
    "Variable "@ + name + " not indexed"@
}

pub open spec fn msg_not_initialized(name: Seq<char>) -> Seq<char> {
    "Variable "@ + name + " not initialized"@
}

/// Consume one numeric answer from the tape and push it on the digit stack;
/// halt with `req` when the tape has no answer left.
pub open spec fn spec_push_num(st: EvalV, tape: Seq<Answer>, req: Request) -> StepR {
    if st.cursor < tape.len() {
        match tape[st.cursor as int] {
            Answer::Num(b) => step_ok(
                EvalV { digits: st.digits.push(b), cursor: st.cursor + 1, ..st },
            ),
            Answer::Cond(_) => step_err(st, "Mismatched evaluation answer"@),
        }
    } else {
        StepR { st, halt: Some(HaltV::Need(req)) }
    }
}

/// Consume one comparison answer from the tape and push it on the boolean
/// stack; halt with `req` when the tape has no answer left.
pub open spec fn spec_push_bool(st: EvalV, tape: Seq<Answer>, req: Request) -> StepR {
    if st.cursor < tape.len() {
        match tape[st.cursor as int] {
            Answer::Cond(b) => step_ok(
                EvalV { bools: st.bools.push(b), cursor: st.cursor + 1, ..st },
            ),
            Answer::Num(_) => step_err(st, "Mismatched evaluation answer"@),
        }
    } else {
        StepR { st, halt: Some(HaltV::Need(req)) }
    }
}

/// Pop right then left off the digit stack and ask for `op(left, right)`;
/// the answer is pushed back on the digit stack.
pub open spec fn spec_bin_num(op: BinOp, st: EvalV, tape: Seq<Answer>) -> StepR {
    if st.digits.len() < 2 {
        step_err(st, "Digit stack underflow"@)
    } else {
        let right = st.digits.last();
        let left = st.digits.drop_last().last();
        spec_push_num(
            EvalV { digits: st.digits.drop_last().drop_last(), ..st },
            tape,
            Request::Bin(op, left, right),
        )
    }
}

/// Pop the top of the digit stack and ask for `op` of it; the answer is
/// pushed back on the digit stack.
pub open spec fn spec_un_num(op: UnOp, st: EvalV, tape: Seq<Answer>) -> StepR {
    if st.digits.len() < 1 {
        step_err(st, "Digit stack underflow"@)
    } else {
        let top = st.digits.last();
        spec_push_num(EvalV { digits: st.digits.drop_last(), ..st }, tape, Request::Un(op, top))
    }
}

/// Pop right then left off the digit stack and ask for the comparison
/// `left op right`; the answer is pushed on the boolean stack.
pub open spec fn spec_cmp_num(op: CmpOp, st: EvalV, tape: Seq<Answer>) -> StepR {
    if st.digits.len() < 2 {
        step_err(st, "Digit stack underflow"@)
    } else {
        let right = st.digits.last();
        let left = st.digits.drop_last().last();
        spec_push_bool(
            EvalV { digits: st.digits.drop_last().drop_last(), ..st },
            tape,
            Request::Cmp(op, left, right),
        )
    }
}

/// Near-(in)equality: pop right then left, ask for `right - left`, and push
/// whether the difference is below the machine epsilon (`eq`) or at least it
/// and not NaN (`!eq`).
pub open spec fn spec_eq_check(eq: bool, st: EvalV, tape: Seq<Answer>) -> StepR {
    if st.digits.len() < 2 {
        step_err(st, "Digit stack underflow"@)
    } else {
        let right = st.digits.last();
        let left = st.digits.drop_last().last();
        let st2 = EvalV { digits: st.digits.drop_last().drop_last(), ..st };
        if st2.cursor < tape.len() {
            match tape[st2.cursor as int] {
                Answer::Num(d) => step_ok(
                    EvalV {
                        bools: st2.bools.push(
                            if eq {
                                spec_eq_from_diff(d)
                            } else {
                                spec_neq_from_diff(d)
                            },
                        ),
                        cursor: st2.cursor + 1,
                        ..st2
                    },
                ),
                Answer::Cond(_) => step_err(st2, "Mismatched evaluation answer"@),
            }
        } else {
            StepR { st: st2, halt: Some(HaltV::Need(Request::Bin(BinOp::Subtract, right, left))) }
        }
    }
}

/// Pop right then left off the boolean stack and push their conjunction or
/// disjunction.
pub open spec fn spec_bin_bool(is_and: bool, st: EvalV) -> StepR {
    if st.bools.len() < 2 {
        step_err(st, "Boolean stack underflow"@)
    } else {
        let right = st.bools.last();
        let left = st.bools.drop_last().last();
        let v = if is_and {
            left && right
        } else {
            left || right
        };
        step_ok(EvalV { bools: st.bools.drop_last().drop_last().push(v), ..st })
    }
}

/// The effect of one node on the evaluation state, given the tape of
/// answers: the post-order stack-machine walk of [`ExprEvaluator::const_visit`].
pub open spec fn spec_visit(n: Node, st: EvalV, tape: Seq<Answer>) -> StepR
    decreases n,
{
    match n {
        Node::Base(c) => spec_visit_seq(c@, 0, c@.len() as int, st, tape),
        Node::Variable(_, name, idx) => {
            if st.is_lhs {
                step_ok(EvalV { lhs: Some((name@, idx)), ..st })
            } else {
                match idx {
                    None => step_err(st, msg_not_indexed(name@)),
                    Some(id) => if id >= st.vars.len() {
                        step_err(st, msg_not_indexed(name@))
                    } else {
                        match st.vars[id as int] {
                            ValueV::Number(v) => step_ok(
                                EvalV { digits: st.digits.push(v), ..st },
                            ),
                            ValueV::Bool(b) => step_ok(EvalV { bools: st.bools.push(b), ..st }),
                            ValueV::StringV(s) => step_ok(EvalV { strs: st.strs.push(s), ..st }),
                            ValueV::Null => step_err(st, msg_not_initialized(name@)),
                        }
                    },
                }
            }
        },
        Node::Spot(_, idx) => match idx {
            None => step_err(st, "Spot not indexed"@),
            Some(id) => match st.scen {
                None => step_err(st, "No scenario set"@),
                Some(sz) => if id >= sz {
                    step_err(st, "Spot not found"@)
                } else {
                    spec_push_num(st, tape, Request::Fx(id))
                },
            },
        },
        Node::Pays(_, idx) => match idx {
            None => step_err(st, "No event set"@),
            Some(id) => match st.scen {
                None => step_err(st, "No scenario set"@),
                Some(sz) => if id >= sz {
                    step_err(st, "Event not found"@)
                } else if st.digits.len() < 1 {
                    step_err(st, "Digit stack underflow"@)
                } else {
                    let amount = st.digits.last();
                    spec_push_num(
                        EvalV { digits: st.digits.drop_last(), ..st },
                        tape,
                        Request::Pays(id, amount),
                    )
                },
            },
        },
        Node::Constant(v) => step_ok(EvalV { digits: st.digits.push(v), ..st }),
        Node::String(s) => step_ok(EvalV { strs: st.strs.push(s@), ..st }),
        Node::Add(c) => {
            let r = spec_visit_seq(c@, 0, c@.len() as int, st, tape);
            if r.halt is Some {
                r
            } else {
                spec_bin_num(BinOp::Add, r.st, tape)
            }
        },
        Node::Subtract(c) => {
            let r = spec_visit_seq(c@, 0, c@.len() as int, st, tape);
            if r.halt is Some {
                r
            } else {
                spec_bin_num(BinOp::Subtract, r.st, tape)
            }
        },
        Node::Multiply(c) => {
            let r = spec_visit_seq(c@, 0, c@.len() as int, st, tape);
            if r.halt is Some {
                r
            } else {
                spec_bin_num(BinOp::Multiply, r.st, tape)
            }
        },
        Node::Divide(c) => {
            let r = spec_visit_seq(c@, 0, c@.len() as int, st, tape);
            if r.halt is Some {
                r
            } else {
                spec_bin_num(BinOp::Divide, r.st, tape)
            }
        },
        Node::Assign(c) => {
            if c@.len() < 2 {
                step_err(st, "Invalid variable assignment"@)
            } else {
                let r1 = spec_visit(*c@[0], EvalV { is_lhs: true, ..st }, tape);
                if r1.halt is Some {
                    r1
                } else {
                    let r2 = spec_visit(*c@[1], EvalV { is_lhs: false, ..r1.st }, tape);
                    if r2.halt is Some {
                        r2
                    } else {
                        spec_store(r2.st)
                    }
                }
            }
        },
        Node::Min(c) => {
            let r = spec_visit_seq(c@, 0, c@.len() as int, st, tape);
            if r.halt is Some {
                r
            } else {
                spec_bin_num(BinOp::Min, r.st, tape)
            }
        },
        Node::Max(c) => {
            let r = spec_visit_seq(c@, 0, c@.len() as int, st, tape);
            if r.halt is Some {
                r
            } else {
                spec_bin_num(BinOp::Max, r.st, tape)
            }
        },
        Node::Exp(c) => {
            let r = spec_visit_seq(c@, 0, c@.len() as int, st, tape);
            if r.halt is Some {
                r
            } else {
                spec_un_num(UnOp::Exp, r.st, tape)
            }
        },
        Node::Pow(c) => {
            let r = spec_visit_seq(c@, 0, c@.len() as int, st, tape);
            if r.halt is Some {
                r
            } else {
                spec_bin_num(BinOp::Power, r.st, tape)
            }
        },
        Node::Ln(c) => {
            let r = spec_visit_seq(c@, 0, c@.len() as int, st, tape);
            if r.halt is Some {
                r
            } else {
                spec_un_num(UnOp::Ln, r.st, tape)
            }
        },
        Node::UnaryPlus(c) => spec_visit_seq(c@, 0, c@.len() as int, st, tape),
        Node::UnaryMinus(c) => {
            let r = spec_visit_seq(c@, 0, c@.len() as int, st, tape);
            if r.halt is Some {
                r
            } else {
                spec_un_num(UnOp::Negate, r.st, tape)
            }
        },
        Node::True => step_ok(EvalV { bools: st.bools.push(true), ..st }),
        Node::False => step_ok(EvalV { bools: st.bools.push(false), ..st }),
        Node::Equal(c) => {
            let r = spec_visit_seq(c@, 0, c@.len() as int, st, tape);
            if r.halt is Some {
                r
            } else {
                spec_eq_check(true, r.st, tape)
            }
        },
        Node::NotEqual(c) => {
            let r = spec_visit_seq(c@, 0, c@.len() as int, st, tape);
            if r.halt is Some {
                r
            } else {
                spec_eq_check(false, r.st, tape)
            }
        },
        Node::And(c) => {
            let r = spec_visit_seq(c@, 0, c@.len() as int, st, tape);
            if r.halt is Some {
                r
            } else {
                spec_bin_bool(true, r.st)
            }
        },
        Node::Or(c) => {
            let r = spec_visit_seq(c@, 0, c@.len() as int, st, tape);
            if r.halt is Some {
                r
            } else {
                spec_bin_bool(false, r.st)
            }
        },
        Node::Not(c) => {
            let r = spec_visit_seq(c@, 0, c@.len() as int, st, tape);
            if r.halt is Some {
                r
            } else if r.st.bools.len() < 1 {
                step_err(r.st, "Boolean stack underflow"@)
            } else {
                step_ok(
                    EvalV { bools: r.st.bools.drop_last().push(!r.st.bools.last()), ..r.st },
                )
            }
        },
        Node::Superior(c) => {
            let r = spec_visit_seq(c@, 0, c@.len() as int, st, tape);
            if r.halt is Some {
                r
            } else {
                spec_cmp_num(CmpOp::Superior, r.st, tape)
            }
        },
        Node::Inferior(c) => {
            let r = spec_visit_seq(c@, 0, c@.len() as int, st, tape);
            if r.halt is Some {
                r
            } else {
                spec_cmp_num(CmpOp::Inferior, r.st, tape)
            }
        },
        Node::SuperiorOrEqual(c) => {
            let r = spec_visit_seq(c@, 0, c@.len() as int, st, tape);
            if r.halt is Some {
                r
            } else {
                spec_cmp_num(CmpOp::SuperiorOrEqual, r.st, tape)
            }
        },
        Node::InferiorOrEqual(c) => {
            let r = spec_visit_seq(c@, 0, c@.len() as int, st, tape);
            if r.halt is Some {
                r
            } else {
                spec_cmp_num(CmpOp::InferiorOrEqual, r.st, tape)
            }
        },
        Node::If(c, first_else) => {
            if c@.len() == 0 {
                step_err(st, "If without condition"@)
            } else {
                let r = spec_visit(*c@[0], st, tape);
                if r.halt is Some {
                    r
                } else if r.st.bools.len() < 1 {
                    step_err(r.st, "Boolean stack underflow"@)
                } else {
                    let cond = r.st.bools.last();
                    let st2 = EvalV { bools: r.st.bools.drop_last(), ..r.st };
                    if cond {
                        let last = if first_else is Some {
                            first_else->0 as int
                        } else {
                            c@.len() as int
                        };
                        if last > c@.len() {
                            step_err(st2, "If branch out of bounds"@)
                        } else {
                            spec_visit_seq(c@, 1, last, st2, tape)
                        }
                    } else {
                        match first_else {
                            Some(e) => spec_visit_seq(c@, e as int, c@.len() as int, st2, tape),
                            None => step_ok(st2),
                        }
                    }
                }
            }
        },
    }
}

/// Visit `c[i .. end]` in order, stopping at the first halt.
pub open spec fn spec_visit_seq(
    c: Seq<Box<Node>>,
    i: int,
    end: int,
    st: EvalV,
    tape: Seq<Answer>,
) -> StepR
    decreases c, end - i,
{
    if i < end && 0 <= i && i < c.len() {
        let r = spec_visit(*c[i], st, tape);
        if r.halt is Some {
            r
        } else {
            spec_visit_seq(c, i + 1, end, r.st, tape)
        }
    } else {
        step_ok(st)
    }
}

/// Store the value the right-hand side produced into the captured left-hand
/// variable's slot: a boolean if one is pending, else a string, else a
/// number - the type of an assignment is read off the stacks.
pub open spec fn spec_store(st: EvalV) -> StepR {
    match st.lhs {
        None => step_err(st, "Invalid variable assignment"@),
        Some((name, slot)) => match slot {
            None => step_err(st, msg_not_indexed(name)),
            Some(id) => if id >= st.vars.len() {
                step_err(st, msg_not_indexed(name))
            } else if st.bools.len() > 0 {
                step_ok(
                    EvalV {
                        vars: st.vars.update(id as int, ValueV::Bool(st.bools.last())),
                        bools: st.bools.drop_last(),
                        ..st
                    },
                )
            } else if st.strs.len() > 0 {
                step_ok(
                    EvalV {
                        vars: st.vars.update(id as int, ValueV::StringV(st.strs.last())),
                        strs: st.strs.drop_last(),
                        ..st
                    },
                )
            } else if st.digits.len() > 0 {
                step_ok(
                    EvalV {
                        vars: st.vars.update(id as int, ValueV::Number(st.digits.last())),
                        digits: st.digits.drop_last(),
                        ..st
                    },
                )
            } else {
                step_err(st, "Digit stack underflow"@)
            },
        },
    }
}


// ---------------------------------------------------------------------------
// The evaluator.
// ---------------------------------------------------------------------------
/// Whether an executable outcome `(stf, r)` is the one the model names.
pub open spec fn visit_matches(sr: StepR, stf: EvalV, r: Result<(), EvalHalt>) -> bool {
    stf == sr.st && match (r, sr.halt) {
        (Ok(u), None) => true,
        (Err(h), Some(hv)) => h@ == hv,
        _ => false,
    }
}

/// The expression-tree evaluator: a stack machine with a numeric, a boolean
/// and a string stack, a variable vector, and a pending left-hand-side
/// register.  One evaluator serves one run; arithmetic and market answers
/// come from the tape handed to [`ExprEvaluator::const_visit`].
#[derive(Debug)]
pub struct ExprEvaluator {
    pub variables: Vec<Value>,
    pub digit_stack: Vec<u64>,
    pub boolean_stack: Vec<bool>,
    pub string_stack: Vec<String>,
    pub is_lhs_variable: bool,
    pub lhs_variable: Option<(String, Option<usize>)>,
    pub scenario_size: Option<usize>,
    pub cursor: usize,
}

impl View for ExprEvaluator {
    type V = EvalV;

    open spec fn view(&self) -> EvalV {
        EvalV {
            vars: self.variables.deep_view(),
            digits: self.digit_stack@,
            bools: self.boolean_stack@,
            strs: self.string_stack.deep_view(),
            is_lhs: self.is_lhs_variable,
            lhs: match self.lhs_variable {
                Some((n, s)) => Some((n@, s)),
                None => None,
            },
            scen: self.scenario_size,
            cursor: self.cursor as nat,
        }
    }
}

/// The state of a fresh evaluator: everything empty, no scenario bound.
pub open spec fn spec_fresh_eval() -> EvalV {
    EvalV {
        vars: Seq::empty(),
        digits: Seq::empty(),
        bools: Seq::empty(),
        strs: Seq::empty(),
        is_lhs: false,
        lhs: None,
        scen: None,
        cursor: 0,
    }
}

impl ExprEvaluator {
    /// A fresh evaluator: empty stacks, no variables, no scenario.
    pub fn new() -> (r: ExprEvaluator)
        ensures
            r@ == spec_fresh_eval(),
    {
        let r = ExprEvaluator {
            variables: Vec::new(),
            digit_stack: Vec::new(),
            boolean_stack: Vec::new(),
            string_stack: Vec::new(),
            is_lhs_variable: false,
            lhs_variable: None,
            scenario_size: None,
            cursor: 0,
        };
        proof {
            assert(r@ =~= spec_fresh_eval());
        }
        r
    }

    /// The same evaluator, bound to a scenario of `scenario_size` snapshots.
    pub fn with_scenario(self, scenario_size: usize) -> (r: ExprEvaluator)
        ensures
            r@ == (EvalV { scen: Some(scenario_size), ..self@ }),
    {
        let r = ExprEvaluator { scenario_size: Some(scenario_size), ..self };
        proof {
            assert(r@ =~= (EvalV { scen: Some(scenario_size), ..self@ }));
        }
        r
    }

    /// The same evaluator with its variable vector resized to `n` slots;
    /// new slots start out `Null`.
    pub fn with_variables(self, n: usize) -> (r: ExprEvaluator)
        ensures
            r@.vars.len() == n,
            forall|i: int|
                0 <= i < n && i < self@.vars.len() ==> r@.vars[i] == self@.vars[i],
            forall|i: int| self@.vars.len() <= i < n ==> r@.vars[i] == ValueV::Null,
            r@.digits == self@.digits,
            r@.bools == self@.bools,
            r@.strs == self@.strs,
            r@.is_lhs == self@.is_lhs,
            r@.lhs == self@.lhs,
            r@.scen == self@.scen,
            r@.cursor == self@.cursor,
    {
        let ghost orig = self@;
        let mut r = self;
        while r.variables.len() > n
            invariant
                r@.vars.len() <= orig.vars.len(),
                n <= r@.vars.len() || r@.vars.len() == orig.vars.len(),
                forall|i: int| 0 <= i < r@.vars.len() ==> r@.vars[i] == orig.vars[i],
                r@.digits == orig.digits && r@.bools == orig.bools && r@.strs == orig.strs,
                r@.is_lhs == orig.is_lhs && r@.lhs == orig.lhs && r@.scen == orig.scen
                    && r@.cursor == orig.cursor,
            decreases r.variables@.len(),
        {
            let ghost prev = r.variables.deep_view();
            let _ = r.variables.pop();
            proof {
                assert(r.variables.deep_view() =~= prev.drop_last());
            }
        }
        while r.variables.len() < n
            invariant
                r@.vars.len() <= n,
                orig.vars.len() <= r@.vars.len() || r@.vars.len() == n,
                forall|i: int|
                    0 <= i < r@.vars.len() && i < orig.vars.len() ==> r@.vars[i] == orig.vars[i],
                forall|i: int| orig.vars.len() <= i < r@.vars.len() ==> r@.vars[i] == ValueV::Null,
                r@.digits == orig.digits && r@.bools == orig.bools && r@.strs == orig.strs,
                r@.is_lhs == orig.is_lhs && r@.lhs == orig.lhs && r@.scen == orig.scen
                    && r@.cursor == orig.cursor,
            decreases n - r.variables@.len(),
        {
            let ghost prev = r.variables.deep_view();
            r.variables.push(Value::Null);
            proof {
                assert(r.variables.deep_view() =~= prev.push(ValueV::Null));
            }
        }
        r
    }

    /// The current variable vector, one value per slot.
    pub fn variables(&self) -> (r: Vec<Value>)
        ensures
            r.deep_view() == self@.vars,
    {
        clone_values(&self.variables)
    }

    /// The current numeric stack.
    pub fn digit_stack(&self) -> (r: Vec<u64>)
        ensures
            r@ == self@.digits,
    {
        let mut r: Vec<u64> = Vec::new();
        let mut i: usize = 0;
        while i < self.digit_stack.len()
            invariant
                i <= self.digit_stack@.len(),
                r@ == self.digit_stack@.subrange(0, i as int),
            decreases self.digit_stack@.len() - i,
        {
            r.push(self.digit_stack[i]);
            i = i + 1;
            proof {
                assert(r@ =~= self.digit_stack@.subrange(0, i as int));
            }
        }
        proof {
            assert(r@ =~= self.digit_stack@);
        }
        r
    }

    /// The current boolean stack.
    pub fn boolean_stack(&self) -> (r: Vec<bool>)
        ensures
            r@ == self@.bools,
    {
        let mut r: Vec<bool> = Vec::new();
        let mut i: usize = 0;
        while i < self.boolean_stack.len()
            invariant
                i <= self.boolean_stack@.len(),
                r@ == self.boolean_stack@.subrange(0, i as int),
            decreases self.boolean_stack@.len() - i,
        {
            r.push(self.boolean_stack[i]);
            i = i + 1;
            proof {
                assert(r@ =~= self.boolean_stack@.subrange(0, i as int));
            }
        }
        proof {
            assert(r@ =~= self.boolean_stack@);
        }
        r
    }
}

/// A deep copy of a value vector.
fn clone_values(v: &Vec<Value>) -> (r: Vec<Value>)
    ensures
        r.deep_view() == v.deep_view(),
{
    let mut r: Vec<Value> = Vec::new();
    let mut i: usize = 0;
    while i < v.len()
        invariant
            i <= v@.len(),
            r@.len() == i,
            forall|j: int| 0 <= j < i ==> r@[j] == v@[j],
        decreases v@.len() - i,
    {
        r.push(v[i].clone());
        i = i + 1;
    }
    proof {
        assert(r.deep_view() =~= v.deep_view());
    }
    r
}


impl ExprEvaluator {
    /// Take one numeric answer off the tape and push it; halt with `req`
    /// when the tape is exhausted.
    fn push_num_answer(&mut self, tape: &Vec<Answer>, req: Request) -> (r: Result<(), EvalHalt>)
        ensures
            visit_matches(spec_push_num(old(self)@, tape@, req), final(self)@, r),
    {
        if self.cursor < tape.len() {
            match tape[self.cursor] {
                Answer::Num(b) => {
                    self.cursor = self.cursor + 1;
                    self.digit_stack.push(b);
                    proof {
                        assert(self@ =~= spec_push_num(old(self)@, tape@, req).st);
                    }
                    Ok(())
                },
                Answer::Cond(_) => Err(
                    EvalHalt::Error(
                        ScriptingError::EvaluationError("Mismatched evaluation answer".to_owned()),
                    ),
                ),
            }
        } else {
            Err(EvalHalt::Need(req))
        }
    }

    /// Take one comparison answer off the tape and push it; halt with `req`
    /// when the tape is exhausted.
    fn push_bool_answer(&mut self, tape: &Vec<Answer>, req: Request) -> (r: Result<(), EvalHalt>)
        ensures
            visit_matches(spec_push_bool(old(self)@, tape@, req), final(self)@, r),
    {
        if self.cursor < tape.len() {
            match tape[self.cursor] {
                Answer::Cond(b) => {
                    self.cursor = self.cursor + 1;
                    self.boolean_stack.push(b);
                    proof {
                        assert(self@ =~= spec_push_bool(old(self)@, tape@, req).st);
                    }
                    Ok(())
                },
                Answer::Num(_) => Err(
                    EvalHalt::Error(
                        ScriptingError::EvaluationError("Mismatched evaluation answer".to_owned()),
                    ),
                ),
            }
        } else {
            Err(EvalHalt::Need(req))
        }
    }

    /// Pop the two operands and hand out a binary numeric request.
    fn bin_num(&mut self, op: BinOp, tape: &Vec<Answer>) -> (r: Result<(), EvalHalt>)
        ensures
            visit_matches(spec_bin_num(op, old(self)@, tape@), final(self)@, r),
    {
        if self.digit_stack.len() < 2 {
            return Err(
                EvalHalt::Error(ScriptingError::EvaluationError("Digit stack underflow".to_owned())),
            );
        }
        let right = match self.digit_stack.pop() {
            Some(v) => v,
            None => unreached(),
        };
        let left = match self.digit_stack.pop() {
            Some(v) => v,
            None => unreached(),
        };
        self.push_num_answer(tape, Request::Bin(op, left, right))
    }

    /// Pop the operand and hand out a unary numeric request.
    fn un_num(&mut self, op: UnOp, tape: &Vec<Answer>) -> (r: Result<(), EvalHalt>)
        ensures
            visit_matches(spec_un_num(op, old(self)@, tape@), final(self)@, r),
    {
        let top = match self.digit_stack.pop() {
            Some(v) => v,
            None => {
                return Err(
                    EvalHalt::Error(
                        ScriptingError::EvaluationError("Digit stack underflow".to_owned()),
                    ),
                );
            },
        };
        self.push_num_answer(tape, Request::Un(op, top))
    }

    /// Pop the two operands and hand out a comparison request.
    fn cmp_num(&mut self, op: CmpOp, tape: &Vec<Answer>) -> (r: Result<(), EvalHalt>)
        ensures
            visit_matches(spec_cmp_num(op, old(self)@, tape@), final(self)@, r),
    {
        if self.digit_stack.len() < 2 {
            return Err(
                EvalHalt::Error(ScriptingError::EvaluationError("Digit stack underflow".to_owned())),
            );
        }
        let right = match self.digit_stack.pop() {
            Some(v) => v,
            None => unreached(),
        };
        let left = match self.digit_stack.pop() {
            Some(v) => v,
            None => unreached(),
        };
        self.push_bool_answer(tape, Request::Cmp(op, left, right))
    }

    /// Pop the two operands, ask for their difference, and push whether it
    /// is within epsilon (`eq`) or not (`!eq`).
    fn eq_check(&mut self, eq: bool, tape: &Vec<Answer>) -> (r: Result<(), EvalHalt>)
        ensures
            visit_matches(spec_eq_check(eq, old(self)@, tape@), final(self)@, r),
    {
        if self.digit_stack.len() < 2 {
            return Err(
                EvalHalt::Error(ScriptingError::EvaluationError("Digit stack underflow".to_owned())),
            );
        }
        let right = match self.digit_stack.pop() {
            Some(v) => v,
            None => unreached(),
        };
        let left = match self.digit_stack.pop() {
            Some(v) => v,
            None => unreached(),
        };
        if self.cursor < tape.len() {
            match tape[self.cursor] {
                Answer::Num(d) => {
                    self.cursor = self.cursor + 1;
                    let b = if eq {
                        eq_from_diff(d)
                    } else {
                        neq_from_diff(d)
                    };
                    self.boolean_stack.push(b);
                    proof {
                        assert(self@ =~= spec_eq_check(eq, old(self)@, tape@).st);
                    }
                    Ok(())
                },
                Answer::Cond(_) => Err(
                    EvalHalt::Error(
                        ScriptingError::EvaluationError("Mismatched evaluation answer".to_owned()),
                    ),
                ),
            }
        } else {
            Err(EvalHalt::Need(Request::Bin(BinOp::Subtract, right, left)))
        }
    }

    /// Pop the two operands off the boolean stack and push the conjunction
    /// or disjunction.
    fn bin_bool(&mut self, is_and: bool) -> (r: Result<(), EvalHalt>)
        ensures
            visit_matches(spec_bin_bool(is_and, old(self)@), final(self)@, r),
    {
        if self.boolean_stack.len() < 2 {
            return Err(
                EvalHalt::Error(
                    ScriptingError::EvaluationError("Boolean stack underflow".to_owned()),
                ),
            );
        }
        let right = match self.boolean_stack.pop() {
            Some(v) => v,
            None => unreached(),
        };
        let left = match self.boolean_stack.pop() {
            Some(v) => v,
            None => unreached(),
        };
        let v = if is_and {
            left && right
        } else {
            left || right
        };
        self.boolean_stack.push(v);
        proof {
            assert(self@ =~= spec_bin_bool(is_and, old(self)@).st);
        }
        Ok(())
    }

    /// Store the pending assignment into its variable slot.
    fn store_pending(&mut self) -> (r: Result<(), EvalHalt>)
        ensures
            visit_matches(spec_store(old(self)@), final(self)@, r),
    {
        let (name, slot) = match &self.lhs_variable {
            Some(p) => (p.0.clone(), p.1),
            None => {
                return Err(
                    EvalHalt::Error(
                        ScriptingError::EvaluationError("Invalid variable assignment".to_owned()),
                    ),
                );
            },
        };
        let id = match slot {
            Some(id) => id,
            None => {
                return Err(
                    EvalHalt::Error(
                        ScriptingError::EvaluationError(
                            crate::strutil::wrap_name("Variable ", &name, " not indexed"),
                        ),
                    ),
                );
            },
        };
        if id >= self.variables.len() {
            return Err(
                EvalHalt::Error(
                    ScriptingError::EvaluationError(
                        crate::strutil::wrap_name("Variable ", &name, " not indexed"),
                    ),
                ),
            );
        }
        if self.boolean_stack.len() > 0 {
            let b = match self.boolean_stack.pop() {
                Some(b) => b,
                None => unreached(),
            };
            self.variables.set(id, Value::Bool(b));
            proof {
                assert(self@.vars =~= spec_store(old(self)@).st.vars);
                assert(self@ =~= spec_store(old(self)@).st);
            }
            Ok(())
        } else if self.string_stack.len() > 0 {
            let sv = match self.string_stack.pop() {
                Some(sv) => sv,
                None => unreached(),
            };
            self.variables.set(id, Value::String(sv));
            proof {
                assert(self@.vars =~= spec_store(old(self)@).st.vars);
                assert(self@.strs =~= spec_store(old(self)@).st.strs);
                assert(self@ =~= spec_store(old(self)@).st);
            }
            Ok(())
        } else {
            let v = match self.digit_stack.pop() {
                Some(v) => v,
                None => {
                    return Err(
                        EvalHalt::Error(
                            ScriptingError::EvaluationError("Digit stack underflow".to_owned()),
                        ),
                    );
                },
            };
            self.variables.set(id, Value::Number(v));
            proof {
                assert(self@.vars =~= spec_store(old(self)@).st.vars);
                assert(self@ =~= spec_store(old(self)@).st);
            }
            Ok(())
        }
    }

    /// Evaluate one node against this state, drawing answers from `tape`.
    /// The effect is exactly [`spec_visit`]: either the node completes and
    /// `Ok` is returned, or the run halts with the error or request the
    /// model names, leaving the state where the model leaves it.
    #[verifier::rlimit(100)]
    pub fn const_visit(&mut self, node: &Node, tape: &Vec<Answer>) -> (r: Result<(), EvalHalt>)
        ensures
            visit_matches(spec_visit(*node, old(self)@, tape@), final(self)@, r),
        decreases *node, 1int,
    {
        match node {
            Node::Base(children) => self.visit_range(node, children, 0, children.len(), tape),
            Node::Variable(_, name, idx) => {
                if self.is_lhs_variable {
                    let slot = match idx {
                        Some(i) => Some(*i),
                        None => None,
                    };
                    self.lhs_variable = Some((name.clone(), slot));
                    proof {
                        assert(self@ =~= spec_visit(*node, old(self)@, tape@).st);
                    }
                    Ok(())
                } else {
                    let id = match idx {
                        Some(i) => *i,
                        None => {
                            return Err(
                                EvalHalt::Error(
                                    ScriptingError::EvaluationError(
                                        crate::strutil::wrap_name("Variable ", name, " not indexed"),
                                    ),
                                ),
                            );
                        },
                    };
                    if id >= self.variables.len() {
                        return Err(
                            EvalHalt::Error(
                                ScriptingError::EvaluationError(
                                    crate::strutil::wrap_name("Variable ", name, " not indexed"),
                                ),
                            ),
                        );
                    }
                    match &self.variables[id] {
                        Value::Number(v) => {
                            let vv = *v;
                            self.digit_stack.push(vv);
                            proof {
                                assert(self@ =~= spec_visit(*node, old(self)@, tape@).st);
                            }
                            Ok(())
                        },
                        Value::Bool(b) => {
                            let bb = *b;
                            self.boolean_stack.push(bb);
                            proof {
                                assert(self@ =~= spec_visit(*node, old(self)@, tape@).st);
                            }
                            Ok(())
                        },
                        Value::String(s) => {
                            let sv = s.clone();
                            self.string_stack.push(sv);
                            proof {
                                assert(self@.strs =~= spec_visit(*node, old(self)@, tape@).st.strs);
                                assert(self@ =~= spec_visit(*node, old(self)@, tape@).st);
                            }
                            Ok(())
                        },
                        Value::Null => Err(
                            EvalHalt::Error(
                                ScriptingError::EvaluationError(
                                    crate::strutil::wrap_name("Variable ", name, " not initialized"),
                                ),
                            ),
                        ),
                    }
                }
            },
            Node::Spot(_, idx) => {
                let id = match idx {
                    Some(i) => *i,
                    None => {
                        return Err(
                            EvalHalt::Error(
                                ScriptingError::EvaluationError("Spot not indexed".to_owned()),
                            ),
                        );
                    },
                };
                let sz = match self.scenario_size {
                    Some(sz) => sz,
                    None => {
                        return Err(
                            EvalHalt::Error(
                                ScriptingError::EvaluationError("No scenario set".to_owned()),
                            ),
                        );
                    },
                };
                if id >= sz {
                    return Err(
                        EvalHalt::Error(
                            ScriptingError::EvaluationError("Spot not found".to_owned()),
                        ),
                    );
                }
                self.push_num_answer(tape, Request::Fx(id))
            },
            Node::Pays(_, idx) => {
                let id = match idx {
                    Some(i) => *i,
                    None => {
                        return Err(
                            EvalHalt::Error(
                                ScriptingError::EvaluationError("No event set".to_owned()),
                            ),
                        );
                    },
                };
                let sz = match self.scenario_size {
                    Some(sz) => sz,
                    None => {
                        return Err(
                            EvalHalt::Error(
                                ScriptingError::EvaluationError("No scenario set".to_owned()),
                            ),
                        );
                    },
                };
                if id >= sz {
                    return Err(
                        EvalHalt::Error(
                            ScriptingError::EvaluationError("Event not found".to_owned()),
                        ),
                    );
                }
                let amount = match self.digit_stack.pop() {
                    Some(v) => v,
                    None => {
                        return Err(
                            EvalHalt::Error(
                                ScriptingError::EvaluationError("Digit stack underflow".to_owned()),
                            ),
                        );
                    },
                };
                self.push_num_answer(tape, Request::Pays(id, amount))
            },
            Node::Constant(v) => {
                self.digit_stack.push(*v);
                proof {
                    assert(self@ =~= spec_visit(*node, old(self)@, tape@).st);
                }
                Ok(())
            },
            Node::String(s) => {
                let sv = s.clone();
                self.string_stack.push(sv);
                proof {
                    assert(self@.strs =~= spec_visit(*node, old(self)@, tape@).st.strs);
                    assert(self@ =~= spec_visit(*node, old(self)@, tape@).st);
                }
                Ok(())
            },
            Node::Add(children) => {
                match self.visit_range(node, children, 0, children.len(), tape) {
                    Err(h) => Err(h),
                    Ok(()) => self.bin_num(BinOp::Add, tape),
                }
            },
            Node::Subtract(children) => {
                match self.visit_range(node, children, 0, children.len(), tape) {
                    Err(h) => Err(h),
                    Ok(()) => self.bin_num(BinOp::Subtract, tape),
                }
            },
            Node::Multiply(children) => {
                match self.visit_range(node, children, 0, children.len(), tape) {
                    Err(h) => Err(h),
                    Ok(()) => self.bin_num(BinOp::Multiply, tape),
                }
            },
            Node::Divide(children) => {
                match self.visit_range(node, children, 0, children.len(), tape) {
                    Err(h) => Err(h),
                    Ok(()) => self.bin_num(BinOp::Divide, tape),
                }
            },
            Node::Assign(children) => {
                if children.len() < 2 {
                    return Err(
                        EvalHalt::Error(
                            ScriptingError::EvaluationError(
                                "Invalid variable assignment".to_owned(),
                            ),
                        ),
                    );
                }
                self.is_lhs_variable = true;
                proof {
                    lemma_node_child_decreases(*node, 0);
                    assert(self@ =~= (EvalV { is_lhs: true, ..old(self)@ }));
                }
                match self.const_visit(&children[0], tape) {
                    Err(h) => {
                        return Err(h);
                    },
                    Ok(()) => {},
                }
                self.is_lhs_variable = false;
                proof {
                    lemma_node_child_decreases(*node, 1);
                }
                match self.const_visit(&children[1], tape) {
                    Err(h) => {
                        return Err(h);
                    },
                    Ok(()) => {},
                }
                self.store_pending()
            },
            Node::Min(children) => {
                match self.visit_range(node, children, 0, children.len(), tape) {
                    Err(h) => Err(h),
                    Ok(()) => self.bin_num(BinOp::Min, tape),
                }
            },
            Node::Max(children) => {
                match self.visit_range(node, children, 0, children.len(), tape) {
                    Err(h) => Err(h),
                    Ok(()) => self.bin_num(BinOp::Max, tape),
                }
            },
            Node::Exp(children) => {
                match self.visit_range(node, children, 0, children.len(), tape) {
                    Err(h) => Err(h),
                    Ok(()) => self.un_num(UnOp::Exp, tape),
                }
            },
            Node::Pow(children) => {
                match self.visit_range(node, children, 0, children.len(), tape) {
                    Err(h) => Err(h),
                    Ok(()) => self.bin_num(BinOp::Power, tape),
                }
            },
            Node::Ln(children) => {
                match self.visit_range(node, children, 0, children.len(), tape) {
                    Err(h) => Err(h),
                    Ok(()) => self.un_num(UnOp::Ln, tape),
                }
            },
            Node::UnaryPlus(children) => self.visit_range(node, children, 0, children.len(), tape),
            Node::UnaryMinus(children) => {
                match self.visit_range(node, children, 0, children.len(), tape) {
                    Err(h) => Err(h),
                    Ok(()) => self.un_num(UnOp::Negate, tape),
                }
            },
            Node::True => {
                self.boolean_stack.push(true);
                proof {
                    assert(self@ =~= spec_visit(*node, old(self)@, tape@).st);
                }
                Ok(())
            },
            Node::False => {
                self.boolean_stack.push(false);
                proof {
                    assert(self@ =~= spec_visit(*node, old(self)@, tape@).st);
                }
                Ok(())
            },
            Node::Equal(children) => {
                match self.visit_range(node, children, 0, children.len(), tape) {
                    Err(h) => Err(h),
                    Ok(()) => self.eq_check(true, tape),
                }
            },
            Node::NotEqual(children) => {
                match self.visit_range(node, children, 0, children.len(), tape) {
                    Err(h) => Err(h),
                    Ok(()) => self.eq_check(false, tape),
                }
            },
            Node::And(children) => {
                match self.visit_range(node, children, 0, children.len(), tape) {
                    Err(h) => Err(h),
                    Ok(()) => self.bin_bool(true),
                }
            },
            Node::Or(children) => {
                match self.visit_range(node, children, 0, children.len(), tape) {
                    Err(h) => Err(h),
                    Ok(()) => self.bin_bool(false),
                }
            },
            Node::Not(children) => {
                match self.visit_range(node, children, 0, children.len(), tape) {
                    Err(h) => Err(h),
                    Ok(()) => {
                        let v = match self.boolean_stack.pop() {
                            Some(v) => v,
                            None => {
                                return Err(
                                    EvalHalt::Error(
                                        ScriptingError::EvaluationError(
                                            "Boolean stack underflow".to_owned(),
                                        ),
                                    ),
                                );
                            },
                        };
                        self.boolean_stack.push(!v);
                        proof {
                            assert(self@.bools =~= spec_visit(
                                *node,
                                old(self)@,
                                tape@,
                            ).st.bools);
                            assert(self@ =~= spec_visit(*node, old(self)@, tape@).st);
                        }
                        Ok(())
                    },
                }
            },
            Node::Superior(children) => {
                match self.visit_range(node, children, 0, children.len(), tape) {
                    Err(h) => Err(h),
                    Ok(()) => self.cmp_num(CmpOp::Superior, tape),
                }
            },
            Node::Inferior(children) => {
                match self.visit_range(node, children, 0, children.len(), tape) {
                    Err(h) => Err(h),
                    Ok(()) => self.cmp_num(CmpOp::Inferior, tape),
                }
            },
            Node::SuperiorOrEqual(children) => {
                match self.visit_range(node, children, 0, children.len(), tape) {
                    Err(h) => Err(h),
                    Ok(()) => self.cmp_num(CmpOp::SuperiorOrEqual, tape),
                }
            },
            Node::InferiorOrEqual(children) => {
                match self.visit_range(node, children, 0, children.len(), tape) {
                    Err(h) => Err(h),
                    Ok(()) => self.cmp_num(CmpOp::InferiorOrEqual, tape),
                }
            },
            Node::If(children, first_else) => {
                if children.len() == 0 {
                    return Err(
                        EvalHalt::Error(
                            ScriptingError::EvaluationError("If without condition".to_owned()),
                        ),
                    );
                }
                proof {
                    lemma_node_child_decreases(*node, 0);
                }
                match self.const_visit(&children[0], tape) {
                    Err(h) => {
                        return Err(h);
                    },
                    Ok(()) => {},
                }
                let cond = match self.boolean_stack.pop() {
                    Some(b) => b,
                    None => {
                        return Err(
                            EvalHalt::Error(
                                ScriptingError::EvaluationError(
                                    "Boolean stack underflow".to_owned(),
                                ),
                            ),
                        );
                    },
                };
                if cond {
                    let last = match first_else {
                        Some(e) => *e,
                        None => children.len(),
                    };
                    if last > children.len() {
                        return Err(
                            EvalHalt::Error(
                                ScriptingError::EvaluationError(
                                    "If branch out of bounds".to_owned(),
                                ),
                            ),
                        );
                    }
                    self.visit_range(node, children, 1, last, tape)
                } else {
                    match first_else {
                        Some(e) => self.visit_range(node, children, *e, children.len(), tape),
                        None => Ok(()),
                    }
                }
            },
        }
    }

    /// Evaluate `children[from .. to]` in order, stopping at the first halt.
    fn visit_range(
        &mut self,
        parent: &Node,
        children: &Vec<ExprTree>,
        from: usize,
        to: usize,
        tape: &Vec<Answer>,
    ) -> (r: Result<(), EvalHalt>)
        requires
            node_children(*parent) == children@,
            to <= children@.len(),
        ensures
            visit_matches(
                spec_visit_seq(children@, from as int, to as int, old(self)@, tape@),
                final(self)@,
                r,
            ),
        decreases *parent, 0int,
    {
        let mut i = from;
        loop
            invariant
                node_children(*parent) == children@,
                to <= children@.len(),
                from <= i,
                i <= to || i == from,
                spec_visit_seq(children@, from as int, to as int, old(self)@, tape@)
                    == spec_visit_seq(children@, i as int, to as int, self@, tape@),
            decreases to - i,
        {
            if i >= to {
                return Ok(());
            }
            proof {
                lemma_node_child_decreases(*parent, i as int);
            }
            match self.const_visit(&children[i], tape) {
                Err(h) => {
                    return Err(h);
                },
                Ok(()) => {},
            }
            i = i + 1;
        }
    }
}


// ---------------------------------------------------------------------------
// Laws of evaluation.
// ---------------------------------------------------------------------------
/// Evaluation is pure: the outcome of a run - final state, variables and
/// halt - is a function of the tree, the starting state and the answer tape
/// alone.  Two runs with fresh evaluators over the same tape are therefore
/// bit-identical.
pub proof fn lemma_evaluation_pure(
    n: Node,
    st1: EvalV,
    st2: EvalV,
    tape1: Seq<Answer>,
    tape2: Seq<Answer>,
)
    requires
        st1 == st2,
        tape1 == tape2,
    ensures
        spec_visit(n, st1, tape1) == spec_visit(n, st2, tape2),
{
}

/// Evaluation never resizes the variable vector: the slot count an
/// evaluator is given is the slot count it ends with, however the run
/// stops.  Assignments only update slots in place.
pub proof fn lemma_visit_keeps_var_count(n: Node, st: EvalV, tape: Seq<Answer>)
    ensures
        spec_visit(n, st, tape).st.vars.len() == st.vars.len(),
    decreases n, 1int,
{
    match n {
        Node::If(c, first_else) => {
            if c@.len() > 0 {
                lemma_visit_keeps_var_count(*c@[0], st, tape);
                let r = spec_visit(*c@[0], st, tape);
                if r.halt is None && r.st.bools.len() >= 1 {
                    let cond = r.st.bools.last();
                    let st2 = EvalV { bools: r.st.bools.drop_last(), ..r.st };
                    if cond {
                        let last = if first_else is Some {
                            first_else->0 as int
                        } else {
                            c@.len() as int
                        };
                        if last <= c@.len() {
                            lemma_visit_keeps_var_count_seq(c@, 1, last, st2, tape);
                        }
                    } else {
                        match first_else {
                            Some(e) => {
                                lemma_visit_keeps_var_count_seq(
                                    c@,
                                    e as int,
                                    c@.len() as int,
                                    st2,
                                    tape,
                                );
                            },
                            None => {},
                        }
                    }
                }
            }
        },
        Node::Assign(c) => {
            if c@.len() >= 2 {
                lemma_visit_keeps_var_count(*c@[0], EvalV { is_lhs: true, ..st }, tape);
                let r1 = spec_visit(*c@[0], EvalV { is_lhs: true, ..st }, tape);
                if r1.halt is None {
                    lemma_visit_keeps_var_count(
                        *c@[1],
                        EvalV { is_lhs: false, ..r1.st },
                        tape,
                    );
                }
            }
        },
        _ => {
            if spec_has_children(n) {
                lemma_visit_keeps_var_count_seq(
                    node_children(n),
                    0,
                    node_children(n).len() as int,
                    st,
                    tape,
                );
            }
        },
    }
}

/// As [`lemma_visit_keeps_var_count`], over a children range.
pub proof fn lemma_visit_keeps_var_count_seq(
    c: Seq<Box<Node>>,
    i: int,
    end: int,
    st: EvalV,
    tape: Seq<Answer>,
)
    ensures
        spec_visit_seq(c, i, end, st, tape).st.vars.len() == st.vars.len(),
    decreases c, end - i,
{
    if i < end && 0 <= i && i < c.len() {
        lemma_visit_keeps_var_count(*c[i], st, tape);
        let r = spec_visit(*c[i], st, tape);
        if !(r.halt is Some) {
            lemma_visit_keeps_var_count_seq(c, i + 1, end, r.st, tape);
        }
    }
}

/// No assignment occurs anywhere under `n`.
pub open spec fn spec_assign_free(n: Node) -> bool
    decreases n,
{
    match n {
        Node::Assign(_) => false,
        Node::Constant(_) => true,
        Node::String(_) => true,
        Node::Spot(_, _) => true,
        Node::True => true,
        Node::False => true,
        _ => spec_assign_free_seq(node_children(n), 0),
    }
}

/// No assignment occurs under any child from position `i` on.
pub open spec fn spec_assign_free_seq(c: Seq<Box<Node>>, i: int) -> bool
    decreases c, c.len() - i,
{
    if 0 <= i < c.len() {
        spec_assign_free(*c[i]) && spec_assign_free_seq(c, i + 1)
    } else {
        true
    }
}

/// Visiting an assignment-free node never touches the variable vector.
pub proof fn lemma_assign_free_keeps_vars(n: Node, st: EvalV, tape: Seq<Answer>)
    requires
        spec_assign_free(n),
    ensures
        spec_visit(n, st, tape).st.vars == st.vars,
    decreases n, 1int,
{
    match n {
        Node::If(c, first_else) => {
            if c@.len() > 0 {
                lemma_af_index(c@, 0);
                lemma_assign_free_keeps_vars(*c@[0], st, tape);
                let r = spec_visit(*c@[0], st, tape);
                if r.halt is None && r.st.bools.len() >= 1 {
                    let cond = r.st.bools.last();
                    let st2 = EvalV { bools: r.st.bools.drop_last(), ..r.st };
                    if cond {
                        let last = if first_else is Some {
                            first_else->0 as int
                        } else {
                            c@.len() as int
                        };
                        if last <= c@.len() {
                            lemma_assign_free_keeps_vars_seq(c@, 1, last, st2, tape);
                        }
                    } else {
                        match first_else {
                            Some(e) => {
                                lemma_assign_free_keeps_vars_seq(
                                    c@,
                                    e as int,
                                    c@.len() as int,
                                    st2,
                                    tape,
                                );
                            },
                            None => {},
                        }
                    }
                }
            }
        },
        _ => {
            if spec_has_children(n) {
                lemma_assign_free_keeps_vars_seq(
                    node_children(n),
                    0,
                    node_children(n).len() as int,
                    st,
                    tape,
                );
            }
        },
    }
}

/// As [`lemma_assign_free_keeps_vars`], over a children range.
pub proof fn lemma_assign_free_keeps_vars_seq(
    c: Seq<Box<Node>>,
    i: int,
    end: int,
    st: EvalV,
    tape: Seq<Answer>,
)
    requires
        spec_assign_free_seq(c, 0),
    ensures
        spec_visit_seq(c, i, end, st, tape).st.vars == st.vars,
    decreases c, end - i,
{
    if i < end && 0 <= i && i < c.len() {
        lemma_af_index(c, 0);
        lemma_assign_free_keeps_vars(*c[i], st, tape);
        let r = spec_visit(*c[i], st, tape);
        if !(r.halt is Some) {
            lemma_assign_free_keeps_vars_seq(c, i + 1, end, r.st, tape);
        }
    }
}

/// Assignment freedom of a list gives assignment freedom of each element.
pub proof fn lemma_af_index(c: Seq<Box<Node>>, i: int)
    requires
        0 <= i <= c.len(),
        spec_assign_free_seq(c, i),
    ensures
        forall|j: int| i <= j < c.len() ==> spec_assign_free(*c[j]),
    decreases c.len() - i,
{
    if i < c.len() {
        lemma_af_index(c, i + 1);
    }
}

/// An `if` whose condition came out false and which has no else-block
/// leaves every variable slot as it stood: slots assigned before the `if`
/// keep their values, and slots never assigned stay `Null`.
pub proof fn lemma_if_not_taken_keeps_vars(n: Node, st: EvalV, tape: Seq<Answer>)
    requires
        n matches Node::If(c, e) && e is None && c@.len() >= 1,
        spec_assign_free(*node_children(n)[0]),
        ({
            let r = spec_visit(*node_children(n)[0], st, tape);
            r.halt is None && r.st.bools.len() >= 1 && r.st.bools.last() == false
        }),
    ensures
        spec_visit(n, st, tape).halt is None,
        spec_visit(n, st, tape).st.vars == st.vars,
{
    lemma_assign_free_keeps_vars(*node_children(n)[0], st, tape);
}

} // verus!
