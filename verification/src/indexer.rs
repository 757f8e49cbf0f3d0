use vstd::prelude::*;

use crate::errors::{ErrorV, ScriptingError};
use crate::market::{Currency, Date, ExchangeRateRequest, MarketRequest, NumerarieRequest};
use crate::nodes::{lemma_node_child_decreases, node_children, ExprTree, Node};

verus! {

// ---------------------------------------------------------------------------
// The indexer's mathematical model.
// ---------------------------------------------------------------------------
/// The indexer's state: the variable table (slot = position, ordered by
/// first use), the market request list (its position = the slot stored in
/// the node the request was made for), and the configured event date and
/// local currency.
#[verifier::ext_equal]
pub ghost struct IndexerV {
    pub vars: Seq<Seq<char>>,
    pub reqs: Seq<MarketRequest>,
    pub date: Option<Date>,
    pub currency: Option<Currency>,
}

/// The first slot holding `name` at or after `i`, if any.
pub open spec fn spec_find_var(vars: Seq<Seq<char>>, name: Seq<char>, i: int) -> Option<int>
    decreases vars.len() - i,
{
    if i < 0 || i >= vars.len() {
        None
    } else if vars[i] == name {
        Some(i)
    } else {
        spec_find_var(vars, name, i + 1)
    }
}

/// One step of the state function: what indexing `n` does to the state, and
/// the error it stops at, if any.  Slots already set are left alone; a fresh
/// `Variable` reuses its name's slot or takes the next one; a fresh `Spot`
/// or `Pays` takes the next request id.  A fresh `Pays` needs an event date.
pub open spec fn spec_index_state(n: Node, s: IndexerV) -> (IndexerV, Option<ErrorV>)
    decreases n,
{
    match n {
        Node::Variable(c, name, slot) => {
            let (s1, r) = spec_index_state_seq(c@, 0, s);
            if r is Some {
                (s1, r)
            } else {
                match slot {
                    Some(id) => if id < s1.vars.len() {
                        (IndexerV { vars: s1.vars.update(id as int, name@), ..s1 }, None)
                    } else {
                        (s1, None)
                    },
                    None => match spec_find_var(s1.vars, name@, 0) {
                        Some(_) => (s1, None),
                        None => (IndexerV { vars: s1.vars.push(name@), ..s1 }, None),
                    },
                }
            }
        },
        Node::Spot(currency, slot) => match slot {
            Some(_) => (s, None),
            None => (
                IndexerV {
                    reqs: s.reqs.push(
                        MarketRequest {
                            id: s.reqs.len() as usize,
                            fx: Some(
                                ExchangeRateRequest {
                                    first_currency: currency,
                                    second_currency: s.currency,
                                    reference_date: s.date,
                                },
                            ),
                            numerarie: None,
                        },
                    ),
                    ..s
                },
                None,
            ),
        },
        Node::Pays(_, slot) => match slot {
            Some(_) => (s, None),
            None => match s.date {
                None => (s, Some(ErrorV::EvaluationError("Reference date not set"@))),
                Some(d) => (
                    IndexerV {
                        reqs: s.reqs.push(
                            MarketRequest {
                                id: s.reqs.len() as usize,
                                fx: None,
                                numerarie: Some(NumerarieRequest { reference_date: d }),
                            },
                        ),
                        ..s
                    },
                    None,
                ),
            },
        },
        Node::Constant(_) => (s, None),
        Node::String(_) => (s, None),
        Node::True => (s, None),
        Node::False => (s, None),
        _ => spec_index_state_seq(node_children(n), 0, s),
    }
}

/// The state after indexing `c[i ..]` in order, stopping at the first error.
pub open spec fn spec_index_state_seq(c: Seq<Box<Node>>, i: int, s: IndexerV) -> (
    IndexerV,
    Option<ErrorV>,
)
    decreases c, c.len() - i,
{
    if 0 <= i < c.len() {
        let (s1, r) = spec_index_state(*c[i], s);
        if r is Some {
            (s1, r)
        } else {
            spec_index_state_seq(c, i + 1, s1)
        }
    } else {
        (s, None)
    }
}

/// Whether `n1` is the tree that indexing `n0` from state `s` produces: the
/// same tree, with the slots the state function assigns written in.  Where
/// indexing stops at an error, the nodes after the error keep their old
/// form.
pub open spec fn spec_index_tree(n0: Node, s: IndexerV, n1: Node) -> bool
    decreases n0,
{
    match (n0, n1) {
        (Node::Variable(c0, name, slot), Node::Variable(c1, name1, slot1)) => {
            let (s1, r) = spec_index_state_seq(c0@, 0, s);
            name1 == name && spec_index_tree_seq(c0@, 0, s, c1@) && (if r is Some {
                slot1 == slot
            } else {
                match slot {
                    Some(_) => slot1 == slot,
                    None => match spec_find_var(s1.vars, name@, 0) {
                        Some(id) => slot1 == Some(id as usize),
                        None => slot1 == Some(s1.vars.len() as usize),
                    },
                }
            })
        },
        (Node::Spot(cur0, slot), Node::Spot(cur1, slot1)) => cur1 == cur0 && (match slot {
            Some(_) => slot1 == slot,
            None => slot1 == Some(s.reqs.len() as usize),
        }),
        (Node::Pays(c0, slot), Node::Pays(c1, slot1)) => c1 == c0 && (match slot {
            Some(_) => slot1 == slot,
            None => if s.date is Some {
                slot1 == Some(s.reqs.len() as usize)
            } else {
                slot1 == slot
            },
        }),
        (Node::Constant(v0), Node::Constant(v1)) => v1 == v0,
        (Node::String(s0), Node::String(s1)) => s1 == s0,
        (Node::True, Node::True) => true,
        (Node::False, Node::False) => true,
        (Node::Base(c0), Node::Base(c1)) => spec_index_tree_seq(c0@, 0, s, c1@),
        (Node::Add(c0), Node::Add(c1)) => spec_index_tree_seq(c0@, 0, s, c1@),
        (Node::Subtract(c0), Node::Subtract(c1)) => spec_index_tree_seq(c0@, 0, s, c1@),
        (Node::Multiply(c0), Node::Multiply(c1)) => spec_index_tree_seq(c0@, 0, s, c1@),
        (Node::Divide(c0), Node::Divide(c1)) => spec_index_tree_seq(c0@, 0, s, c1@),
        (Node::Assign(c0), Node::Assign(c1)) => spec_index_tree_seq(c0@, 0, s, c1@),
        (Node::Min(c0), Node::Min(c1)) => spec_index_tree_seq(c0@, 0, s, c1@),
        (Node::Max(c0), Node::Max(c1)) => spec_index_tree_seq(c0@, 0, s, c1@),
        (Node::Exp(c0), Node::Exp(c1)) => spec_index_tree_seq(c0@, 0, s, c1@),
        (Node::Pow(c0), Node::Pow(c1)) => spec_index_tree_seq(c0@, 0, s, c1@),
        (Node::Ln(c0), Node::Ln(c1)) => spec_index_tree_seq(c0@, 0, s, c1@),
        (Node::UnaryPlus(c0), Node::UnaryPlus(c1)) => spec_index_tree_seq(c0@, 0, s, c1@),
        (Node::UnaryMinus(c0), Node::UnaryMinus(c1)) => spec_index_tree_seq(c0@, 0, s, c1@),
        (Node::Equal(c0), Node::Equal(c1)) => spec_index_tree_seq(c0@, 0, s, c1@),
        (Node::NotEqual(c0), Node::NotEqual(c1)) => spec_index_tree_seq(c0@, 0, s, c1@),
        (Node::And(c0), Node::And(c1)) => spec_index_tree_seq(c0@, 0, s, c1@),
        (Node::Or(c0), Node::Or(c1)) => spec_index_tree_seq(c0@, 0, s, c1@),
        (Node::Not(c0), Node::Not(c1)) => spec_index_tree_seq(c0@, 0, s, c1@),
        (Node::Superior(c0), Node::Superior(c1)) => spec_index_tree_seq(c0@, 0, s, c1@),
        (Node::Inferior(c0), Node::Inferior(c1)) => spec_index_tree_seq(c0@, 0, s, c1@),
        (Node::SuperiorOrEqual(c0), Node::SuperiorOrEqual(c1)) => spec_index_tree_seq(
            c0@,
            0,
            s,
            c1@,
        ),
        (Node::InferiorOrEqual(c0), Node::InferiorOrEqual(c1)) => spec_index_tree_seq(
            c0@,
            0,
            s,
            c1@,
        ),
        (Node::If(c0, e0), Node::If(c1, e1)) => e1 == e0 && spec_index_tree_seq(c0@, 0, s, c1@),
        _ => false,
    }
}

/// Whether `c1[i ..]` is the indexed form of `c0[i ..]` from state `s`:
/// each child indexed from the state its predecessors left, children after
/// an error unchanged.
pub open spec fn spec_index_tree_seq(c0: Seq<Box<Node>>, i: int, s: IndexerV, c1: Seq<Box<Node>>) -> bool
    decreases c0, c0.len() - i,
{
    c1.len() == c0.len() && if 0 <= i < c0.len() {
        let (s1, r) = spec_index_state(*c0[i], s);
        spec_index_tree(*c0[i], s, *c1[i]) && if r is Some {
            forall|j: int| i < j < c0.len() ==> c1[j] == c0[j]
        } else {
            spec_index_tree_seq(c0, i + 1, s1, c1)
        }
    } else {
        true
    }
}

// ---------------------------------------------------------------------------
// Laws of indexing.
// ---------------------------------------------------------------------------
/// Every slot under `n` is resolved against the state `s`: each variable
/// points at the table entry holding its own name, and each market node
/// carries a request id.
pub open spec fn spec_well_indexed(n: Node, s: IndexerV) -> bool
    decreases n,
{
    match n {
        Node::Variable(c, name, slot) => (slot matches Some(id) && id < s.vars.len() && s.vars[
            id as int
        ] == name@) && spec_well_indexed_seq(c@, 0, s),
        Node::Spot(_, slot) => slot is Some,
        Node::Pays(_, slot) => slot is Some,
        Node::Constant(_) => true,
        Node::String(_) => true,
        Node::True => true,
        Node::False => true,
        _ => spec_well_indexed_seq(node_children(n), 0, s),
    }
}

/// Every child from position `i` on is well indexed against `s`.
pub open spec fn spec_well_indexed_seq(c: Seq<Box<Node>>, i: int, s: IndexerV) -> bool
    decreases c, c.len() - i,
{
    if 0 <= i < c.len() {
        spec_well_indexed(*c[i], s) && spec_well_indexed_seq(c, i + 1, s)
    } else {
        true
    }
}

/// Every slot under `n` is still unset, as the parser leaves them.
pub open spec fn spec_slots_unset(n: Node) -> bool
    decreases n,
{
    match n {
        Node::Variable(c, _, slot) => slot is None && spec_slots_unset_seq(c@, 0),
        Node::Spot(_, slot) => slot is None,
        Node::Pays(c, slot) => slot is None && spec_slots_unset_seq(c@, 0),
        Node::Constant(_) => true,
        Node::String(_) => true,
        Node::True => true,
        Node::False => true,
        _ => spec_slots_unset_seq(node_children(n), 0),
    }
}

/// Every child from position `i` on has its slots unset.
pub open spec fn spec_slots_unset_seq(c: Seq<Box<Node>>, i: int) -> bool
    decreases c, c.len() - i,
{
    if 0 <= i < c.len() {
        spec_slots_unset(*c[i]) && spec_slots_unset_seq(c, i + 1)
    } else {
        true
    }
}

/// One state extends another: the older tables stand unchanged as prefixes,
/// and the configuration is the same.
pub open spec fn spec_state_extends(s2: IndexerV, s: IndexerV) -> bool {
    &&& s.vars.len() <= s2.vars.len()
    &&& forall|i: int| 0 <= i < s.vars.len() ==> s2.vars[i] == s.vars[i]
    &&& s.reqs.len() <= s2.reqs.len()
    &&& forall|i: int| 0 <= i < s.reqs.len() ==> s2.reqs[i] == s.reqs[i]
    &&& s2.date == s.date
    &&& s2.currency == s.currency
}

/// Indexing a slots-unset tree only appends to the table and the request
/// list; nothing older moves.
pub proof fn lemma_index_extends(n: Node, s: IndexerV)
    requires
        spec_slots_unset(n),
    ensures
        spec_state_extends(spec_index_state(n, s).0, s),
    decreases n, 1int,
{
    match n {
        Node::Variable(c, _, _) => {
            lemma_index_extends_seq(c@, 0, s);
        },
        Node::Spot(_, _) => {},
        Node::Pays(_, _) => {},
        Node::Constant(_) => {},
        Node::String(_) => {},
        Node::True => {},
        Node::False => {},
        _ => {
            lemma_index_extends_seq(node_children(n), 0, s);
        },
    }
}

/// As [`lemma_index_extends`], over a children range.
pub proof fn lemma_index_extends_seq(c: Seq<Box<Node>>, i: int, s: IndexerV)
    requires
        0 <= i,
        spec_slots_unset_seq(c, i),
    ensures
        spec_state_extends(spec_index_state_seq(c, i, s).0, s),
    decreases c, c.len() - i,
{
    if i < c.len() {
        lemma_index_extends(*c[i], s);
        let (s1, r) = spec_index_state(*c[i], s);
        if !(r is Some) {
            lemma_index_extends_seq(c, i + 1, s1);
        }
    }
}

/// Resolution survives growth: a tree well indexed against a state stays
/// well indexed against any extension of it.
pub proof fn lemma_well_indexed_extends(n: Node, s: IndexerV, s2: IndexerV)
    requires
        spec_well_indexed(n, s),
        spec_state_extends(s2, s),
    ensures
        spec_well_indexed(n, s2),
    decreases n, 1int,
{
    match n {
        Node::Variable(c, _, _) => {
            lemma_well_indexed_extends_seq(c@, 0, s, s2);
        },
        Node::Spot(_, _) => {},
        Node::Pays(_, _) => {},
        Node::Constant(_) => {},
        Node::String(_) => {},
        Node::True => {},
        Node::False => {},
        _ => {
            lemma_well_indexed_extends_seq(node_children(n), 0, s, s2);
        },
    }
}

/// As [`lemma_well_indexed_extends`], over a children range.
pub proof fn lemma_well_indexed_extends_seq(c: Seq<Box<Node>>, i: int, s: IndexerV, s2: IndexerV)
    requires
        0 <= i,
        spec_well_indexed_seq(c, i, s),
        spec_state_extends(s2, s),
    ensures
        spec_well_indexed_seq(c, i, s2),
    decreases c, c.len() - i,
{
    if i < c.len() {
        lemma_well_indexed_extends(*c[i], s, s2);
        lemma_well_indexed_extends_seq(c, i + 1, s, s2);
    }
}

/// The name looked up is at the slot found.
pub proof fn lemma_find_var_hits(vars: Seq<Seq<char>>, name: Seq<char>, i: int)
    ensures
        spec_find_var(vars, name, i) matches Some(id) ==> i <= id < vars.len() && vars[id]
            == name,
    decreases vars.len() - i,
{
    if 0 <= i < vars.len() && vars[i] != name {
        lemma_find_var_hits(vars, name, i + 1);
    }
}

/// Indexing a slots-unset tree resolves it: the tree that comes out is well
/// indexed against the state that comes out.
pub proof fn lemma_fresh_indexing_resolves(n0: Node, s0: IndexerV, n1: Node)
    requires
        spec_slots_unset(n0),
        spec_index_state(n0, s0).1 is None,
        spec_index_tree(n0, s0, n1),
        spec_index_state(n0, s0).0.vars.len() <= usize::MAX,
    ensures
        spec_well_indexed(n1, spec_index_state(n0, s0).0),
    decreases n0, 1int,
{
    let s_fin = spec_index_state(n0, s0).0;
    match (n0, n1) {
        (Node::Variable(c0, name, _), Node::Variable(c1, name1, slot1)) => {
            let (s_mid, r) = spec_index_state_seq(c0@, 0, s0);
            assert(!(r is Some));
            lemma_fresh_indexing_resolves_seq(c0@, 0, s0, c1@);
            match spec_find_var(s_mid.vars, name@, 0) {
                Some(id) => {
                    lemma_find_var_hits(s_mid.vars, name@, 0);
                    assert(s_fin == s_mid);
                    assert(slot1 == Some(id as usize));
                    assert(s_fin.vars[id] == name@);
                },
                None => {
                    assert(slot1 == Some(s_mid.vars.len() as usize));
                    assert(s_fin.vars == s_mid.vars.push(name@));
                    assert(s_fin.vars[s_mid.vars.len() as int] == name@);
                },
            }
            assert(name1@ == name@);
            assert(spec_state_extends(s_fin, s_mid));
            lemma_well_indexed_extends_seq(c1@, 0, s_mid, s_fin);
        },
        (Node::Spot(_, _), Node::Spot(_, _)) => {},
        (Node::Pays(_, _), Node::Pays(_, _)) => {},
        (Node::Constant(_), Node::Constant(_)) => {},
        (Node::String(_), Node::String(_)) => {},
        (Node::True, Node::True) => {},
        (Node::False, Node::False) => {},
        _ => {
            let c0 = node_children(n0);
            let c1 = node_children(n1);
            lemma_fresh_indexing_resolves_seq(c0, 0, s0, c1);
        },
    }
}

/// As [`lemma_fresh_indexing_resolves`], over a children range.
pub proof fn lemma_fresh_indexing_resolves_seq(
    c0: Seq<Box<Node>>,
    i: int,
    s: IndexerV,
    c1: Seq<Box<Node>>,
)
    requires
        0 <= i,
        spec_slots_unset_seq(c0, i),
        spec_index_state_seq(c0, i, s).1 is None,
        spec_index_tree_seq(c0, i, s, c1),
        spec_index_state_seq(c0, i, s).0.vars.len() <= usize::MAX,
    ensures
        spec_well_indexed_seq(c1, i, spec_index_state_seq(c0, i, s).0),
    decreases c0, c0.len() - i,
{
    if i < c0.len() {
        let (s1, r) = spec_index_state(*c0[i], s);
        let s_fin = spec_index_state_seq(c0, i, s).0;
        lemma_index_extends_seq(c0, i + 1, s1);
        assert(spec_state_extends(s_fin, s1));
        lemma_fresh_indexing_resolves(*c0[i], s, *c1[i]);
        lemma_fresh_indexing_resolves_seq(c0, i + 1, s1, c1);
        lemma_well_indexed_extends(*c1[i], s1, s_fin);
    }
}

/// Running the indexer twice over a freshly parsed tree is the same as
/// running it once: the second pass leaves the tree, the variable table and
/// the request list exactly as the first pass left them.
pub proof fn lemma_second_pass_is_noop(n0: Node, s0: IndexerV, n1: Node)
    requires
        spec_slots_unset(n0),
        spec_index_state(n0, s0).1 is None,
        spec_index_tree(n0, s0, n1),
        spec_index_state(n0, s0).0.vars.len() <= usize::MAX,
    ensures
        spec_index_state(n1, spec_index_state(n0, s0).0) == (
            spec_index_state(n0, s0).0,
            None::<ErrorV>,
        ),
        spec_index_tree(n1, spec_index_state(n0, s0).0, n1),
{
    lemma_fresh_indexing_resolves(n0, s0, n1);
    lemma_indexing_idempotent(n1, spec_index_state(n0, s0).0);
}

/// The indexer is idempotent: a tree whose slots are already resolved
/// against the state indexes to itself, with the state untouched and no
/// error.  A second pass over an indexed tree therefore performs no new
/// allocation and reports the same table and request list as the first.
pub proof fn lemma_indexing_idempotent(n: Node, s: IndexerV)
    requires
        spec_well_indexed(n, s),
    ensures
        spec_index_state(n, s) == (s, None::<ErrorV>),
        spec_index_tree(n, s, n),
    decreases n, 1int,
{
    match n {
        Node::Variable(c, name, slot) => {
            lemma_indexing_idempotent_seq(c@, 0, s);
            match slot {
                Some(id) => {
                    assert(s.vars.update(id as int, name@) =~= s.vars);
                    assert((IndexerV { vars: s.vars.update(id as int, name@), ..s }) =~= s);
                },
                None => {},
            }
        },
        Node::Spot(_, _) => {},
        Node::Pays(_, _) => {},
        Node::Constant(_) => {},
        Node::String(_) => {},
        Node::True => {},
        Node::False => {},
        _ => {
            lemma_indexing_idempotent_seq(node_children(n), 0, s);
        },
    }
}

/// As [`lemma_indexing_idempotent`], over a children range.
pub proof fn lemma_indexing_idempotent_seq(c: Seq<Box<Node>>, i: int, s: IndexerV)
    requires
        0 <= i,
        spec_well_indexed_seq(c, i, s),
    ensures
        spec_index_state_seq(c, i, s) == (s, None::<ErrorV>),
        spec_index_tree_seq(c, i, s, c),
    decreases c, c.len() - i,
{
    if i < c.len() {
        lemma_indexing_idempotent(*c[i], s);
        lemma_indexing_idempotent_seq(c, i + 1, s);
    }
}

/// Whether an executable indexing outcome is the one the model names.
pub open spec fn index_result_matches(r: Result<(), ScriptingError>, rv: Option<ErrorV>) -> bool {
    match (r, rv) {
        (Ok(u), None) => true,
        (Err(e), Some(ev)) => e@ == ev,
        _ => false,
    }
}

// ---------------------------------------------------------------------------
// The indexer.
// ---------------------------------------------------------------------------
/// The indexing visitor: a single pre-order pass that gives every variable a
/// dense slot in first-use order, and every market lookup a position in the
/// request list.  It runs once, before any evaluation, and is the only pass
/// that writes to the tree.
#[derive(Debug)]
pub struct EventIndexer {
    pub variables: Vec<String>,
    pub market_requests: Vec<MarketRequest>,
    pub event_date: Option<Date>,
    pub local_currency: Option<Currency>,
}

impl View for EventIndexer {
    type V = IndexerV;

    open spec fn view(&self) -> IndexerV {
        IndexerV {
            vars: self.variables.deep_view(),
            reqs: self.market_requests@,
            date: self.event_date,
            currency: self.local_currency,
        }
    }
}

impl EventIndexer {
    /// A fresh indexer: empty table and request list, no date, no local
    /// currency.
    pub fn new() -> (r: EventIndexer)
        ensures
            r@.vars.len() == 0,
            r@.reqs.len() == 0,
            r@.date is None,
            r@.currency is None,
    {
        EventIndexer {
            variables: Vec::new(),
            market_requests: Vec::new(),
            event_date: None,
            local_currency: None,
        }
    }

    /// Bind the current event date.
    pub fn set_event_date(&mut self, date: Date)
        ensures
            final(self)@ == (IndexerV { date: Some(date), ..old(self)@ }),
    {
        self.event_date = Some(date);
        proof {
            assert(self@ =~= (IndexerV { date: Some(date), ..old(self)@ }));
        }
    }

    /// The same indexer with the event date bound.
    pub fn with_event_date(self, date: Date) -> (r: EventIndexer)
        ensures
            r@ == (IndexerV { date: Some(date), ..self@ }),
    {
        let r = EventIndexer { event_date: Some(date), ..self };
        proof {
            assert(r@ =~= (IndexerV { date: Some(date), ..self@ }));
        }
        r
    }

    /// The currently bound event date.
    pub fn current_event_date(&self) -> (r: Option<Date>)
        ensures
            r == self@.date,
    {
        self.event_date
    }

    /// The same indexer with the local currency bound.
    pub fn with_local_currency(self, currency: Currency) -> (r: EventIndexer)
        ensures
            r@ == (IndexerV { currency: Some(currency), ..self@ }),
    {
        let r = EventIndexer { local_currency: Some(currency), ..self };
        proof {
            assert(r@ =~= (IndexerV { currency: Some(currency), ..self@ }));
        }
        r
    }

    /// The slot of a variable, by name.
    pub fn get_variable_index(&self, variable_name: &str) -> (r: Option<usize>)
        ensures
            match (r, spec_find_var(self@.vars, variable_name@, 0)) {
                (Some(i), Some(j)) => i == j,
                (None, None) => true,
                _ => false,
            },
    {
        let key = variable_name.to_owned();
        self.find_variable(&key)
    }

    /// The name of a variable, by slot.
    pub fn get_variable_name(&self, variable_index: usize) -> (r: Option<String>)
        ensures
            match r {
                Some(name) => variable_index < self@.vars.len() && name@ == self@.vars[
                    variable_index as int
                ],
                None => variable_index >= self@.vars.len(),
            },
    {
        if variable_index < self.variables.len() {
            Some(self.variables[variable_index].clone())
        } else {
            None
        }
    }

    /// All variable names, in slot order.
    pub fn get_variables(&self) -> (r: Vec<String>)
        ensures
            r.deep_view() == self@.vars,
    {
        let mut r: Vec<String> = Vec::new();
        let mut i: usize = 0;
        while i < self.variables.len()
            invariant
                i <= self.variables@.len(),
                r@.len() == i,
                forall|j: int| 0 <= j < i ==> r@[j] == self.variables@[j],
            decreases self.variables@.len() - i,
        {
            r.push(self.variables[i].clone());
            i = i + 1;
        }
        proof {
            assert(r.deep_view() =~= self.variables.deep_view());
        }
        r
    }

    /// Every name with its slot, in slot order.
    pub fn get_variable_indexes(&self) -> (r: Vec<(String, usize)>)
        ensures
            r@.len() == self@.vars.len(),
            forall|j: int|
                0 <= j < r@.len() ==> r@[j].0@ == self@.vars[j] && r@[j].1 == j,
    {
        let mut r: Vec<(String, usize)> = Vec::new();
        let mut i: usize = 0;
        while i < self.variables.len()
            invariant
                i <= self.variables@.len(),
                r@.len() == i,
                forall|j: int| 0 <= j < i ==> r@[j].0 == self.variables@[j] && r@[j].1 == j,
            decreases self.variables@.len() - i,
        {
            let item = (self.variables[i].clone(), i);
            r.push(item);
            proof {
                assert(r@[i as int] == item);
            }
            i = i + 1;
        }
        proof {
            assert forall|j: int| 0 <= j < r@.len() implies r@[j].0@ == self@.vars[j] by {
                assert(r@[j].0 == self.variables@[j]);
            }
        }
        r
    }

    /// The number of variable slots.
    pub fn get_variables_size(&self) -> (r: usize)
        ensures
            r == self@.vars.len(),
    {
        self.variables.len()
    }

    /// The market request list, in id order.
    pub fn get_market_requests(&self) -> (r: Vec<MarketRequest>)
        ensures
            r@ == self@.reqs,
    {
        let mut r: Vec<MarketRequest> = Vec::new();
        let mut i: usize = 0;
        while i < self.market_requests.len()
            invariant
                i <= self.market_requests@.len(),
                r@ == self.market_requests@.subrange(0, i as int),
            decreases self.market_requests@.len() - i,
        {
            r.push(self.market_requests[i]);
            i = i + 1;
            proof {
                assert(r@ =~= self.market_requests@.subrange(0, i as int));
            }
        }
        proof {
            assert(r@ =~= self.market_requests@);
        }
        r
    }

    /// The first slot holding `name`, if any.
    fn find_variable(&self, name: &String) -> (r: Option<usize>)
        ensures
            match (r, spec_find_var(self@.vars, name@, 0)) {
                (Some(i), Some(j)) => i == j,
                (None, None) => true,
                _ => false,
            },
    {
        let mut i: usize = 0;
        while i < self.variables.len()
            invariant
                i <= self.variables@.len(),
                spec_find_var(self@.vars, name@, 0) == spec_find_var(self@.vars, name@, i as int),
            decreases self.variables@.len() - i,
        {
            if self.variables[i].eq(name) {
                return Some(i);
            }
            i = i + 1;
        }
        None
    }

    /// Index one tree in place: resolve every variable and market lookup in
    /// it to a slot, exactly as the model says.
    pub fn visit(&mut self, node: &mut Node) -> (r: Result<(), ScriptingError>)
        ensures
            ({
                let (s1, rv) = spec_index_state(*old(node), old(self)@);
                final(self)@ == s1 && spec_index_tree(*old(node), old(self)@, *final(node))
                    && index_result_matches(r, rv)
            }),
    {
        let mut tmp = Node::True;
        core::mem::swap(node, &mut tmp);
        let (n2, r) = self.index_node(tmp);
        *node = n2;
        r
    }

    /// Index one node, taken by value; the indexed node is handed back.
    fn index_node(&mut self, node: Node) -> (res: (Node, Result<(), ScriptingError>))
        ensures
            ({
                let (s1, rv) = spec_index_state(node, old(self)@);
                final(self)@ == s1 && spec_index_tree(node, old(self)@, res.0)
                    && index_result_matches(res.1, rv)
            }),
        decreases node, 1int, 0int,
    {
        let ghost n0 = node;
        match node {
            Node::Variable(children, name, slot) => {
                let (c2, r) = self.index_children(Ghost(n0), children);
                match r {
                    Err(e) => (Node::Variable(c2, name, slot), Err(e)),
                    Ok(()) => match slot {
                        Some(id) => {
                            if id < self.variables.len() {
                                self.variables.set(id, name.clone());
                                proof {
                                    assert(self.variables.deep_view() =~= spec_index_state(
                                        n0,
                                        old(self)@,
                                    ).0.vars);
                                    assert(self@ =~= spec_index_state(n0, old(self)@).0);
                                }
                            }
                            (Node::Variable(c2, name, Some(id)), Ok(()))
                        },
                        None => match self.find_variable(&name) {
                            Some(id) => (Node::Variable(c2, name, Some(id)), Ok(())),
                            None => {
                                let id = self.variables.len();
                                self.variables.push(name.clone());
                                proof {
                                    assert(self.variables.deep_view() =~= spec_index_state(
                                        n0,
                                        old(self)@,
                                    ).0.vars);
                                    assert(self@ =~= spec_index_state(n0, old(self)@).0);
                                }
                                (Node::Variable(c2, name, Some(id)), Ok(()))
                            },
                        },
                    },
                }
            },
            Node::Spot(currency, slot) => match slot {
                Some(id) => (Node::Spot(currency, Some(id)), Ok(())),
                None => {
                    let id = self.market_requests.len();
                    let request = MarketRequest::new(
                        id,
                        Some(ExchangeRateRequest::new(currency, self.local_currency, self.event_date)),
                        None,
                    );
                    self.market_requests.push(request);
                    proof {
                        assert(self@ =~= spec_index_state(n0, old(self)@).0);
                    }
                    (Node::Spot(currency, Some(id)), Ok(()))
                },
            },
            Node::Pays(children, slot) => match slot {
                Some(id) => (Node::Pays(children, Some(id)), Ok(())),
                None => match self.event_date {
                    None => (
                        Node::Pays(children, None),
                        Err(ScriptingError::EvaluationError("Reference date not set".to_owned())),
                    ),
                    Some(d) => {
                        let id = self.market_requests.len();
                        let request = MarketRequest::new(
                            id,
                            None,
                            Some(NumerarieRequest::new(d)),
                        );
                        self.market_requests.push(request);
                        proof {
                            assert(self@ =~= spec_index_state(n0, old(self)@).0);
                        }
                        (Node::Pays(children, Some(id)), Ok(()))
                    },
                },
            },
            Node::Constant(v) => (Node::Constant(v), Ok(())),
            Node::String(s) => (Node::String(s), Ok(())),
            Node::True => (Node::True, Ok(())),
            Node::False => (Node::False, Ok(())),
            Node::Base(children) => {
                let (c2, r) = self.index_children(Ghost(n0), children);
                (Node::Base(c2), r)
            },
            Node::Add(children) => {
                let (c2, r) = self.index_children(Ghost(n0), children);
                (Node::Add(c2), r)
            },
            Node::Subtract(children) => {
                let (c2, r) = self.index_children(Ghost(n0), children);
                (Node::Subtract(c2), r)
            },
            Node::Multiply(children) => {
                let (c2, r) = self.index_children(Ghost(n0), children);
                (Node::Multiply(c2), r)
            },
            Node::Divide(children) => {
                let (c2, r) = self.index_children(Ghost(n0), children);
                (Node::Divide(c2), r)
            },
            Node::Assign(children) => {
                let (c2, r) = self.index_children(Ghost(n0), children);
                (Node::Assign(c2), r)
            },
            Node::Min(children) => {
                let (c2, r) = self.index_children(Ghost(n0), children);
                (Node::Min(c2), r)
            },
            Node::Max(children) => {
                let (c2, r) = self.index_children(Ghost(n0), children);
                (Node::Max(c2), r)
            },
            Node::Exp(children) => {
                let (c2, r) = self.index_children(Ghost(n0), children);
                (Node::Exp(c2), r)
            },
            Node::Pow(children) => {
                let (c2, r) = self.index_children(Ghost(n0), children);
                (Node::Pow(c2), r)
            },
            Node::Ln(children) => {
                let (c2, r) = self.index_children(Ghost(n0), children);
                (Node::Ln(c2), r)
            },
            Node::UnaryPlus(children) => {
                let (c2, r) = self.index_children(Ghost(n0), children);
                (Node::UnaryPlus(c2), r)
            },
            Node::UnaryMinus(children) => {
                let (c2, r) = self.index_children(Ghost(n0), children);
                (Node::UnaryMinus(c2), r)
            },
            Node::Equal(children) => {
                let (c2, r) = self.index_children(Ghost(n0), children);
                (Node::Equal(c2), r)
            },
            Node::NotEqual(children) => {
                let (c2, r) = self.index_children(Ghost(n0), children);
                (Node::NotEqual(c2), r)
            },
            Node::And(children) => {
                let (c2, r) = self.index_children(Ghost(n0), children);
                (Node::And(c2), r)
            },
            Node::Or(children) => {
                let (c2, r) = self.index_children(Ghost(n0), children);
                (Node::Or(c2), r)
            },
            Node::Not(children) => {
                let (c2, r) = self.index_children(Ghost(n0), children);
                (Node::Not(c2), r)
            },
            Node::Superior(children) => {
                let (c2, r) = self.index_children(Ghost(n0), children);
                (Node::Superior(c2), r)
            },
            Node::Inferior(children) => {
                let (c2, r) = self.index_children(Ghost(n0), children);
                (Node::Inferior(c2), r)
            },
            Node::SuperiorOrEqual(children) => {
                let (c2, r) = self.index_children(Ghost(n0), children);
                (Node::SuperiorOrEqual(c2), r)
            },
            Node::InferiorOrEqual(children) => {
                let (c2, r) = self.index_children(Ghost(n0), children);
                (Node::InferiorOrEqual(c2), r)
            },
            Node::If(children, first_else) => {
                let (c2, r) = self.index_children(Ghost(n0), children);
                (Node::If(c2, first_else), r)
            },
        }
    }

    /// Index a whole children list, taken by value; stops at the first
    /// error, handing back the later children untouched.
    fn index_children(&mut self, Ghost(parent): Ghost<Node>, children: Vec<ExprTree>) -> (res: (
        Vec<ExprTree>,
        Result<(), ScriptingError>,
    ))
        requires
            children@ == node_children(parent),
        ensures
            ({
                let (s1, rv) = spec_index_state_seq(children@, 0, old(self)@);
                final(self)@ == s1 && spec_index_tree_seq(children@, 0, old(self)@, res.0@)
                    && index_result_matches(res.1, rv)
            }),
        decreases parent, 0int, children@.len() + 2,
    {
        self.index_children_from(Ghost(parent), children, 0)
    }

    /// Index `children[from ..]` in order, leaving the earlier entries as
    /// they stand.
    fn index_children_from(
        &mut self,
        Ghost(parent): Ghost<Node>,
        mut children: Vec<ExprTree>,
        from: usize,
    ) -> (res: (Vec<ExprTree>, Result<(), ScriptingError>))
        requires
            children@ == node_children(parent),
            from <= children@.len(),
        ensures
            ({
                let (s1, rv) = spec_index_state_seq(children@, from as int, old(self)@);
                final(self)@ == s1 && res.0@.len() == children@.len() && spec_index_tree_seq(
                    children@,
                    from as int,
                    old(self)@,
                    res.0@,
                ) && (forall|j: int| 0 <= j < from ==> res.0@[j] == children@[j])
                    && index_result_matches(res.1, rv)
            }),
        decreases parent, 0int, children@.len() + 1 - from,
    {
        if from >= children.len() {
            return (children, Ok(()));
        }
        let ghost orig = children@;
        let mut tmp: ExprTree = Box::new(Node::True);
        children.set_and_swap(from, &mut tmp);
        proof {
            assert(tmp == orig[from as int]);
            lemma_node_child_decreases(parent, from as int);
        }
        let (n2, r) = self.index_node(*tmp);
        let mut tmp2: ExprTree = Box::new(n2);
        children.set_and_swap(from, &mut tmp2);
        proof {
            assert(*children@[from as int] == n2);
            assert(forall|j: int| 0 <= j < orig.len() && j != from ==> children@[j] == orig[j]);
        }
        match r {
            Err(e) => {
                proof {
                    assert(spec_index_tree(*orig[from as int], old(self)@, *children@[from as int]));
                    assert(spec_index_tree_seq(orig, from as int, old(self)@, children@));
                }
                (children, Err(e))
            },
            Ok(()) => {
                let ghost s_mid = self@;
                let (c3, r2) = self.index_children_from_rest(
                    Ghost(parent),
                    Ghost(orig),
                    children,
                    from,
                );
                proof {
                    assert(*c3@[from as int] == n2);
                    assert(spec_index_tree(*orig[from as int], old(self)@, *c3@[from as int]));
                    assert(spec_index_tree_seq(orig, from as int, old(self)@, c3@));
                }
                (c3, r2)
            },
        }
    }

    /// Continue indexing after position `from`, whose entry is already
    /// indexed.
    fn index_children_from_rest(
        &mut self,
        Ghost(parent): Ghost<Node>,
        Ghost(orig): Ghost<Seq<Box<Node>>>,
        mut children: Vec<ExprTree>,
        from: usize,
    ) -> (res: (Vec<ExprTree>, Result<(), ScriptingError>))
        requires
            from < orig.len(),
            children@.len() == orig.len(),
            forall|j: int| from < j < orig.len() ==> children@[j] == orig[j],
            orig == node_children(parent),
        ensures
            ({
                let (s1, rv) = spec_index_state_seq(orig, from as int + 1, old(self)@);
                final(self)@ == s1 && res.0@.len() == orig.len() && spec_index_tree_seq(
                    orig,
                    from as int + 1,
                    old(self)@,
                    res.0@,
                ) && (forall|j: int| 0 <= j <= from ==> res.0@[j] == children@[j])
                    && index_result_matches(res.1, rv)
            }),
        decreases parent, 0int, orig.len() - from,
    {
        let n = children.len();
        proof {
            assert(from < n);
        }
        let i = from + 1;
        if i >= children.len() {
            return (children, Ok(()));
        }
        let ghost cur = children@;
        let mut tmp: ExprTree = Box::new(Node::True);
        children.set_and_swap(i, &mut tmp);
        proof {
            assert(tmp == orig[i as int]);
            lemma_node_child_decreases(parent, i as int);
        }
        let (n2, r) = self.index_node(*tmp);
        let mut tmp2: ExprTree = Box::new(n2);
        children.set_and_swap(i, &mut tmp2);
        proof {
            assert(*children@[i as int] == n2);
            assert(forall|j: int| 0 <= j < cur.len() && j != i ==> children@[j] == cur[j]);
            assert(forall|j: int| i < j < orig.len() ==> children@[j] == orig[j]);
        }
        match r {
            Err(e) => {
                proof {
                    assert(forall|j: int| 0 <= j <= from ==> children@[j] == cur[j]);
                    assert(spec_index_tree(*orig[i as int], old(self)@, *children@[i as int]));
                    assert(spec_index_tree_seq(orig, i as int, old(self)@, children@));
                    assert(spec_index_tree_seq(orig, from as int + 1, old(self)@, children@));
                }
                (children, Err(e))
            },
            Ok(()) => {
                let (c3, r2) = self.index_children_from_rest(Ghost(parent), Ghost(orig), children, i);
                proof {
                    assert(forall|j: int| 0 <= j <= from ==> c3@[j] == cur[j]);
                    assert(*c3@[i as int] == n2);
                    assert(spec_index_tree(*orig[i as int], old(self)@, *c3@[i as int]));
                    assert(spec_index_tree_seq(orig, i as int, old(self)@, c3@));
                    assert(spec_index_tree_seq(orig, from as int + 1, old(self)@, c3@));
                }
                (c3, r2)
            },
        }
    }
}

} // verus!
