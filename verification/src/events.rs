use vstd::prelude::*;

use crate::errors::ScriptingError;
use crate::evaluator::{spec_visit, Answer, EvalHalt, EvalV, ExprEvaluator, StepR};
use crate::indexer::{
    index_result_matches, spec_index_state, spec_index_tree, EventIndexer, IndexerV,
};
use crate::market::Date;
use crate::nodes::{ExprTree, Node};

verus! {

/// A precompiled event: a reference date and the script text to run at it.
#[derive(Debug, Clone)]
pub struct CodedEvent {
    pub reference_date: Date,
    pub script: String,
}

impl CodedEvent {
    pub fn new(reference_date: Date, script: String) -> (r: CodedEvent)
        ensures
            r.reference_date == reference_date,
            r.script == script,
    {
        CodedEvent { reference_date, script }
    }

    pub fn reference_date(&self) -> (d: Date)
        ensures
            d == self.reference_date,
    {
        self.reference_date
    }

    pub fn script(&self) -> (s: &String)
        ensures
            s == &self.script,
    {
        &self.script
    }
}

/// A dated unit of work: a reference date and the expression tree to run at
/// that date.
#[derive(Debug)]
pub struct Event {
    pub reference_date: Date,
    pub expr: ExprTree,
}

impl Event {
    pub fn new(reference_date: Date, expr: ExprTree) -> (r: Event)
        ensures
            r.reference_date == reference_date,
            r.expr == expr,
    {
        Event { reference_date, expr }
    }

    pub fn reference_date(&self) -> (d: Date)
        ensures
            d == self.reference_date,
    {
        self.reference_date
    }

    pub fn expr(&self) -> (e: &ExprTree)
        ensures
            e == &self.expr,
    {
        &self.expr
    }
}

/// Whether a script's text compiles at all: it tokenizes, and the tokens
/// parse as a program.
pub open spec fn spec_script_ok(script: Seq<char>) -> bool {
    match crate::lexer::spec_tokenize(script, 0) {
        Ok(ts) => crate::parser::spec_parse_program(ts, 0).out is Ok,
        Err(_) => false,
    }
}

/// Whether `ev` is the compiled form of `(date, script)`: the date kept,
/// and the tree exactly what the grammar model makes of the lexer model's
/// tokens.
pub open spec fn spec_compiled_event(script: Seq<char>, date: Date, ev: Event) -> bool {
    &&& ev.reference_date == date
    &&& match crate::lexer::spec_tokenize(script, 0) {
        Ok(ts) => crate::parser::spec_parse_program(ts, 0).out matches Ok(nv)
            && crate::nodes::node_view(*ev.expr) == nv,
        Err(_) => false,
    }
}

/// Whether `e` is the error on which a script's compilation stops: the
/// lexer's rejection, or else the parser's.
pub open spec fn spec_script_error(script: Seq<char>, e: crate::errors::ErrorV) -> bool {
    match crate::lexer::spec_tokenize(script, 0) {
        Err(ev) => e == ev,
        Ok(ts) => crate::parser::spec_parse_program(ts, 0).out matches Err(ev) && e == ev,
    }
}

impl Event {
    /// Compile a coded event: parse its script into a tree, keep its date.
    /// Succeeds exactly when the script compiles; either stage's rejection
    /// is handed through unchanged.
    pub fn from_coded(coded: &CodedEvent) -> (r: Result<Event, ScriptingError>)
        ensures
            match r {
                Ok(ev) => crate::parser::spec_parsed_wf(*ev.expr) && spec_compiled_event(
                    coded.script@,
                    coded.reference_date,
                    ev,
                ),
                Err(e) => spec_script_error(coded.script@, e@),
            },
    {
        let expr = match crate::parser::parse_script(coded.script.clone()) {
            Ok(t) => t,
            Err(e) => {
                return Err(e);
            },
        };
        Ok(Event { reference_date: coded.reference_date, expr })
    }
}

/// An ordered schedule of events, indexed once and then evaluated per
/// scenario.
#[derive(Debug)]
pub struct EventStream {
    pub id: Option<usize>,
    pub events: Vec<Event>,
}

impl EventStream {
    pub fn new() -> (r: EventStream)
        ensures
            r.id is None,
            r.events@.len() == 0,
    {
        EventStream { id: None, events: Vec::new() }
    }

    pub fn with_id(self, id: usize) -> (r: EventStream)
        ensures
            r.id == Some(id),
            r.events == self.events,
    {
        EventStream { id: Some(id), ..self }
    }

    pub fn with_events(self, events: Vec<Event>) -> (r: EventStream)
        ensures
            r.id == self.id,
            r.events == events,
    {
        EventStream { events, ..self }
    }

    pub fn add_event(&mut self, event: Event)
        ensures
            final(self).id == old(self).id,
            final(self).events@ == old(self).events@.push(event),
    {
        self.events.push(event);
    }

    pub fn events(&self) -> (r: &Vec<Event>)
        ensures
            r == &self.events,
    {
        &self.events
    }

    /// The reference dates of the events, in order.
    pub fn event_dates(&self) -> (r: Vec<Date>)
        ensures
            r@.len() == self.events@.len(),
            forall|i: int| 0 <= i < r@.len() ==> r@[i] == self.events@[i].reference_date,
    {
        let mut r: Vec<Date> = Vec::new();
        let mut i: usize = 0;
        while i < self.events.len()
            invariant
                i <= self.events@.len(),
                r@.len() == i,
                forall|j: int| 0 <= j < i ==> r@[j] == self.events@[j].reference_date,
            decreases self.events@.len() - i,
        {
            r.push(self.events[i].reference_date);
            i = i + 1;
        }
        r
    }
}

/// The indexer state after the events `evs[i ..]`, each indexed with its own
/// reference date bound first; and the first error, if any.
pub open spec fn spec_index_events_state(evs: Seq<Event>, i: int, s: IndexerV) -> (
    IndexerV,
    Option<crate::errors::ErrorV>,
)
    decreases evs.len() - i,
{
    if 0 <= i < evs.len() {
        let s_dated = IndexerV { date: Some(evs[i].reference_date), ..s };
        let (s1, r) = spec_index_state(*evs[i].expr, s_dated);
        if r is Some {
            (s1, r)
        } else {
            spec_index_events_state(evs, i + 1, s1)
        }
    } else {
        (s, None)
    }
}

/// Whether `evs1[i ..]` are the indexed forms of `evs0[i ..]`, dates kept,
/// events after an error unchanged.
pub open spec fn spec_index_events_trees(
    evs0: Seq<Event>,
    i: int,
    s: IndexerV,
    evs1: Seq<Event>,
) -> bool
    decreases evs0.len() - i,
{
    evs1.len() == evs0.len() && if 0 <= i < evs0.len() {
        let s_dated = IndexerV { date: Some(evs0[i].reference_date), ..s };
        let (s1, r) = spec_index_state(*evs0[i].expr, s_dated);
        evs1[i].reference_date == evs0[i].reference_date && spec_index_tree(
            *evs0[i].expr,
            s_dated,
            *evs1[i].expr,
        ) && if r is Some {
            forall|j: int| i < j < evs0.len() ==> evs1[j] == evs0[j]
        } else {
            spec_index_events_trees(evs0, i + 1, s1, evs1)
        }
    } else {
        true
    }
}


impl EventStream {
    /// Compile a list of coded events into a stream, in order.  Succeeds
    /// exactly when every script compiles, each event carrying its date and
    /// its script's parsed tree; the first script that fails to compile
    /// aborts with its own error.
    pub fn from_coded_events(coded: &Vec<CodedEvent>) -> (r: Result<EventStream, ScriptingError>)
        ensures
            match r {
                Ok(s) => s.events@.len() == coded@.len() && s.id is None && forall|i: int|
                    0 <= i < coded@.len() ==> crate::parser::spec_parsed_wf(*s.events@[i].expr)
                        && spec_compiled_event(
                        coded@[i].script@,
                        coded@[i].reference_date,
                        #[trigger] s.events@[i],
                    ),
                Err(e) => exists|i: int|
                    0 <= i < coded@.len() && #[trigger] spec_script_error(coded@[i].script@, e@)
                        && (forall|j: int| 0 <= j < i ==> spec_script_ok(coded@[j].script@)),
            },
    {
        let mut stream = EventStream::new();
        let mut i: usize = 0;
        while i < coded.len()
            invariant
                i <= coded@.len(),
                stream.events@.len() == i,
                stream.id is None,
                forall|j: int|
                    0 <= j < i ==> crate::parser::spec_parsed_wf(*stream.events@[j].expr)
                        && spec_compiled_event(
                        coded@[j].script@,
                        coded@[j].reference_date,
                        #[trigger] stream.events@[j],
                    ),
                forall|j: int| 0 <= j < i ==> spec_script_ok(coded@[j].script@),
            decreases coded@.len() - i,
        {
            let ev = match Event::from_coded(&coded[i]) {
                Ok(ev) => ev,
                Err(e) => {
                    return Err(e);
                },
            };
            stream.add_event(ev);
            i = i + 1;
        }
        Ok(stream)
    }
}

/// The effect of running every event's tree in order against one evaluation
/// state, drawing answers from the tape; the first halt stops the run.
pub open spec fn spec_visit_events(evs: Seq<Event>, i: int, st: EvalV, tape: Seq<Answer>) -> StepR
    decreases evs.len() - i,
{
    if 0 <= i < evs.len() {
        let r = spec_visit(*evs[i].expr, st, tape);
        if r.halt is Some {
            r
        } else {
            spec_visit_events(evs, i + 1, r.st, tape)
        }
    } else {
        crate::evaluator::step_ok(st)
    }
}

impl ExprEvaluator {
    /// Run every event of the stream through this evaluator, in order,
    /// drawing answers from `tape`: one scenario's full evaluation pass.
    pub fn visit_stream(&mut self, events: &EventStream, tape: &Vec<Answer>) -> (r: Result<
        (),
        EvalHalt,
    >)
        ensures
            crate::evaluator::visit_matches(
                spec_visit_events(events.events@, 0, old(self)@, tape@),
                final(self)@,
                r,
            ),
    {
        self.visit_stream_from(events, 0, tape)
    }

    /// Run the events from position `i` on.
    fn visit_stream_from(&mut self, events: &EventStream, i: usize, tape: &Vec<Answer>) -> (r:
        Result<(), EvalHalt>)
        requires
            i <= events.events@.len(),
        ensures
            crate::evaluator::visit_matches(
                spec_visit_events(events.events@, i as int, old(self)@, tape@),
                final(self)@,
                r,
            ),
        decreases events.events@.len() - i,
    {
        if i >= events.events.len() {
            return Ok(());
        }
        match self.const_visit(&events.events[i].expr, tape) {
            Err(h) => Err(h),
            Ok(()) => self.visit_stream_from(events, i + 1, tape),
        }
    }
}

/// The state of the remaining events depends only on the entries from `i`
/// on.
pub proof fn lemma_events_state_congruent(
    evs_a: Seq<Event>,
    evs_b: Seq<Event>,
    i: int,
    s: IndexerV,
)
    requires
        evs_a.len() == evs_b.len(),
        forall|j: int| i <= j < evs_a.len() ==> evs_a[j] == evs_b[j],
    ensures
        spec_index_events_state(evs_a, i, s) == spec_index_events_state(evs_b, i, s),
    decreases evs_a.len() - i,
{
    if 0 <= i < evs_a.len() {
        let s_dated = IndexerV { date: Some(evs_a[i].reference_date), ..s };
        let (s1, r) = spec_index_state(*evs_a[i].expr, s_dated);
        if !(r is Some) {
            lemma_events_state_congruent(evs_a, evs_b, i + 1, s1);
        }
    }
}

/// The tree relation of the remaining events depends only on the entries
/// from `i` on.
pub proof fn lemma_events_trees_congruent(
    evs_a: Seq<Event>,
    evs_b: Seq<Event>,
    i: int,
    s: IndexerV,
    fin: Seq<Event>,
)
    requires
        evs_a.len() == evs_b.len(),
        forall|j: int| i <= j < evs_a.len() ==> evs_a[j] == evs_b[j],
    ensures
        spec_index_events_trees(evs_a, i, s, fin) == spec_index_events_trees(evs_b, i, s, fin),
    decreases evs_a.len() - i,
{
    if 0 <= i < evs_a.len() {
        let s_dated = IndexerV { date: Some(evs_a[i].reference_date), ..s };
        let (s1, r) = spec_index_state(*evs_a[i].expr, s_dated);
        if !(r is Some) {
            lemma_events_trees_congruent(evs_a, evs_b, i + 1, s1, fin);
        }
    }
}

impl EventIndexer {
    /// Index every event of the stream in order, binding each event's own
    /// reference date before indexing its tree.  Slots are shared across the
    /// whole stream; requests carry the date bound when they were made.
    pub fn visit_events(&mut self, events: &mut EventStream) -> (r: Result<(), ScriptingError>)
        ensures
            final(events).id == old(events).id,
            ({
                let (s1, rv) = spec_index_events_state(old(events).events@, 0, old(self)@);
                final(self)@ == s1 && spec_index_events_trees(
                    old(events).events@,
                    0,
                    old(self)@,
                    final(events).events@,
                ) && index_result_matches(r, rv)
            }),
    {
        self.visit_events_from(&mut events.events, 0)
    }

    /// Index the events from position `i` on, leaving the earlier ones as
    /// they stand.
    fn visit_events_from(&mut self, events: &mut Vec<Event>, i: usize) -> (r: Result<
        (),
        ScriptingError,
    >)
        requires
            i <= old(events)@.len(),
        ensures
            final(events)@.len() == old(events)@.len(),
            forall|j: int| 0 <= j < i ==> final(events)@[j] == old(events)@[j],
            ({
                let (s1, rv) = spec_index_events_state(old(events)@, i as int, old(self)@);
                final(self)@ == s1 && spec_index_events_trees(
                    old(events)@,
                    i as int,
                    old(self)@,
                    final(events)@,
                ) && index_result_matches(r, rv)
            }),
        decreases events@.len() - i,
    {
        if i >= events.len() {
            return Ok(());
        }
        let ghost evs0 = events@;
        let date = events[i].reference_date;
        self.set_event_date(date);
        let mut tmp = Event { reference_date: date, expr: Box::new(Node::True) };
        events.set_and_swap(i, &mut tmp);
        proof {
            assert(tmp == evs0[i as int]);
        }
        let mut expr_node: Node = *tmp.expr;
        let ghost n_before = expr_node;
        let ghost s_dated = self@;
        let rr = self.visit(&mut expr_node);
        let ghost n_after = expr_node;
        let mut tmp2 = Event { reference_date: date, expr: Box::new(expr_node) };
        events.set_and_swap(i, &mut tmp2);
        proof {
            assert(n_before == *evs0[i as int].expr);
            assert(s_dated == (IndexerV { date: Some(evs0[i as int].reference_date), ..old(self)@ }));
            assert(*events@[i as int].expr == n_after);
            assert(spec_index_tree(*evs0[i as int].expr, s_dated, *events@[i as int].expr));
            assert(forall|j: int| 0 <= j < evs0.len() && j != i ==> events@[j] == evs0[j]);
            assert(events@[i as int].reference_date == evs0[i as int].reference_date);
        }
        match rr {
            Err(e) => {
                proof {
                    assert(spec_index_events_trees(evs0, i as int, old(self)@, events@));
                }
                Err(e)
            },
            Ok(()) => {
                let ghost mid = events@;
                let ghost s1 = self@;
                let r2 = self.visit_events_from(events, i + 1);
                proof {
                    assert(events@[i as int] == mid[i as int]);
                    lemma_events_state_congruent(mid, evs0, i as int + 1, s1);
                    lemma_events_trees_congruent(mid, evs0, i as int + 1, s1, events@);
                    assert(spec_index_events_trees(evs0, i as int, old(self)@, events@));
                }
                r2
            },
        }
    }
}

} // verus!
