use vstd::prelude::*;

use crate::errors::{ErrorV, ScriptingError};
use crate::lexer::{Token, TokenV};
use crate::market::{spec_uppercase_letter, Currency};
use crate::nodes::{
    children_views, lemma_children_views_concat, lemma_children_views_index,
    lemma_children_views_push, node_children, node_view, ExprTree, Node, NodeV,
};
use crate::strutil::chars_of_str;

verus! {

// ---------------------------------------------------------------------------
// What the parser guarantees about every tree it builds.
// ---------------------------------------------------------------------------
/// The shape invariant of parser output.  Slots are unset (the indexer has
/// not run); every operator has the arity the grammar gives it; an
/// assignment's first child is a bare variable; an `if` node's else index
/// stays inside its children list.
pub open spec fn spec_parsed_wf(n: Node) -> bool
    decreases n,
{
    match n {
        Node::Base(c) => spec_parsed_wf_seq(c@, 0),
        Node::Variable(c, _, slot) => c@.len() == 0 && slot is None,
        Node::Constant(_) => true,
        Node::String(_) => true,
        Node::Spot(_, slot) => slot is None,
        Node::Pays(c, slot) => slot is None && spec_parsed_wf_seq(c@, 0),
        Node::Add(c) => c@.len() == 2 && spec_parsed_wf_seq(c@, 0),
        Node::Subtract(c) => c@.len() == 2 && spec_parsed_wf_seq(c@, 0),
        Node::Multiply(c) => c@.len() == 2 && spec_parsed_wf_seq(c@, 0),
        Node::Divide(c) => c@.len() == 2 && spec_parsed_wf_seq(c@, 0),
        Node::Assign(c) => c@.len() == 2 && (*c@[0] matches Node::Variable(vc, _, vslot)
            && vc@.len() == 0 && vslot is None) && spec_parsed_wf_seq(c@, 0),
        Node::Min(c) => 2 <= c@.len() <= 100 && spec_parsed_wf_seq(c@, 0),
        Node::Max(c) => 2 <= c@.len() <= 100 && spec_parsed_wf_seq(c@, 0),
        Node::Exp(c) => c@.len() == 1 && spec_parsed_wf_seq(c@, 0),
        Node::Pow(c) => c@.len() == 2 && spec_parsed_wf_seq(c@, 0),
        Node::Ln(c) => c@.len() == 1 && spec_parsed_wf_seq(c@, 0),
        Node::UnaryPlus(c) => c@.len() == 1 && spec_parsed_wf_seq(c@, 0),
        Node::UnaryMinus(c) => c@.len() == 1 && spec_parsed_wf_seq(c@, 0),
        Node::True => true,
        Node::False => true,
        Node::Equal(c) => c@.len() == 2 && spec_parsed_wf_seq(c@, 0),
        Node::NotEqual(c) => c@.len() == 2 && spec_parsed_wf_seq(c@, 0),
        Node::And(c) => c@.len() == 2 && spec_parsed_wf_seq(c@, 0),
        Node::Or(c) => c@.len() == 2 && spec_parsed_wf_seq(c@, 0),
        Node::Not(c) => c@.len() == 1 && spec_parsed_wf_seq(c@, 0),
        Node::Superior(c) => c@.len() == 2 && spec_parsed_wf_seq(c@, 0),
        Node::Inferior(c) => c@.len() == 2 && spec_parsed_wf_seq(c@, 0),
        Node::SuperiorOrEqual(c) => c@.len() == 2 && spec_parsed_wf_seq(c@, 0),
        Node::InferiorOrEqual(c) => c@.len() == 2 && spec_parsed_wf_seq(c@, 0),
        Node::If(c, e) => c@.len() >= 1 && (e matches Some(k) ==> 1 <= k <= c@.len())
            && spec_parsed_wf_seq(c@, 0),
    }
}

/// Every child from position `i` on is well formed.
pub open spec fn spec_parsed_wf_seq(c: Seq<Box<Node>>, i: int) -> bool
    decreases c, c.len() - i,
{
    if 0 <= i < c.len() {
        spec_parsed_wf(*c[i]) && spec_parsed_wf_seq(c, i + 1)
    } else {
        true
    }
}

/// Parser output qualifies for the indexer's idempotence law: a well
/// formed tree has every slot unset.
pub proof fn lemma_parsed_wf_slots_unset(n: Node)
    requires
        spec_parsed_wf(n),
    ensures
        crate::indexer::spec_slots_unset(n),
    decreases n, 1int,
{
    match n {
        Node::Constant(_) => {},
        Node::String(_) => {},
        Node::Spot(_, _) => {},
        Node::True => {},
        Node::False => {},
        _ => {
            lemma_parsed_wf_slots_unset_seq(node_children(n), 0);
        },
    }
}

/// As [`lemma_parsed_wf_slots_unset`], over a children range.
pub proof fn lemma_parsed_wf_slots_unset_seq(c: Seq<Box<Node>>, i: int)
    requires
        0 <= i,
        spec_parsed_wf_seq(c, i),
    ensures
        crate::indexer::spec_slots_unset_seq(c, i),
    decreases c, c.len() - i,
{
    if i < c.len() {
        lemma_parsed_wf_slots_unset(*c[i]);
        lemma_parsed_wf_slots_unset_seq(c, i + 1);
    }
}

pub proof fn lemma_wf_seq_from_forall(c: Seq<Box<Node>>, i: int)
    requires
        0 <= i <= c.len(),
        forall|j: int| i <= j < c.len() ==> spec_parsed_wf(*c[j]),
    ensures
        spec_parsed_wf_seq(c, i),
    decreases c.len() - i,
{
    if i < c.len() {
        lemma_wf_seq_from_forall(c, i + 1);
    }
}


// ---------------------------------------------------------------------------
// The grammar model.  Each parse function below is proven against its spec
// twin here, which works on the token shadows and produces tree shadows:
// what tree a token sequence parses to, from which position, and with which
// error it is rejected.  The `stalled` branches only make the recursion well
// founded: every successful sub-parse moves the cursor (each function's
// contract says so), so they are never taken.
// ---------------------------------------------------------------------------
/// The token at `p`; `EOF` past the end.
pub open spec fn spec_cur(toks: Seq<TokenV>, p: int) -> TokenV {
    if 0 <= p < toks.len() {
        toks[p]
    } else {
        TokenV::EOF
    }
}

/// The first position at or after `p` that does not hold a newline.
pub open spec fn spec_skip_nl(toks: Seq<TokenV>, p: int) -> int
    decreases toks.len() - p,
{
    if 0 <= p < toks.len() && toks[p] == TokenV::Newline {
        spec_skip_nl(toks, p + 1)
    } else {
        p
    }
}

/// Where [`Parser::advance`] stops from `p`: one step forward, then past
/// any newline run.
pub open spec fn spec_advance_tok(toks: Seq<TokenV>, p: int) -> int {
    spec_skip_nl(toks, p + 1)
}

pub proof fn lemma_skip_nl_bounds(toks: Seq<TokenV>, p: int)
    ensures
        p <= spec_skip_nl(toks, p),
        p <= toks.len() ==> spec_skip_nl(toks, p) <= toks.len(),
        p > toks.len() ==> spec_skip_nl(toks, p) == p,
    decreases toks.len() - p,
{
    if 0 <= p < toks.len() && toks[p] == TokenV::Newline {
        lemma_skip_nl_bounds(toks, p + 1);
    }
}

/// `advance` always moves forward and never leaves the input.
pub proof fn lemma_advance_tok_bounds(toks: Seq<TokenV>, p: int)
    ensures
        p < spec_advance_tok(toks, p),
        p < toks.len() ==> spec_advance_tok(toks, p) <= toks.len(),
{
    lemma_skip_nl_bounds(toks, p + 1);
}

/// One parsed tree shadow and the position after it, or the rejection.
#[verifier::ext_equal]
pub ghost struct PStep {
    pub out: Result<NodeV, ErrorV>,
    pub next: int,
}

/// A parsed list of tree shadows and the position after it, or the
/// rejection.
#[verifier::ext_equal]
pub ghost struct PSeqStep {
    pub out: Result<Seq<NodeV>, ErrorV>,
    pub next: int,
}

pub open spec fn p_ok(nv: NodeV, next: int) -> PStep {
    PStep { out: Ok(nv), next }
}

pub open spec fn p_syntax_err(m: Seq<char>, next: int) -> PStep {
    PStep { out: Err(ErrorV::InvalidSyntax(m)), next }
}

pub open spec fn p_unexpected(next: int) -> PStep {
    PStep { out: Err(ErrorV::UnexpectedToken("unexpected token"@)), next }
}

/// Whether a continuation position makes progress and stays inside the
/// input.
pub open spec fn spec_progress(toks: Seq<TokenV>, p0: int, p: int) -> bool {
    p0 < p <= toks.len()
}

/// A whole program: statements up to the end of input under a `Base` node.
pub open spec fn spec_parse_program(toks: Seq<TokenV>, p: int) -> PStep
    decreases toks.len() + 1 - p, 13int,
{
    let body = spec_stmts_program(toks, p);
    match body.out {
        Ok(stmts) => p_ok(NodeV::Base(stmts), body.next),
        Err(e) => PStep { out: Err(e), next: body.next },
    }
}

/// The statement list of a program: newlines skipped, `EOF` ends it.
pub open spec fn spec_stmts_program(toks: Seq<TokenV>, p: int) -> PSeqStep
    decreases toks.len() + 1 - p, 12int via spec_stmts_program_dec
{
    match spec_cur(toks, p) {
        TokenV::EOF => PSeqStep { out: Ok(Seq::empty()), next: p },
        TokenV::Newline => spec_stmts_program(toks, spec_advance_tok(toks, p)),
        _ => {
            let st = spec_parse_expression(toks, p);
            match st.out {
                Err(e) => PSeqStep { out: Err(e), next: st.next },
                Ok(nv) => {
                    if spec_progress(toks, p, st.next) {
                        let rest = spec_stmts_program(toks, st.next);
                        match rest.out {
                            Ok(more) => PSeqStep { out: Ok(seq![nv] + more), next: rest.next },
                            Err(e) => PSeqStep { out: Err(e), next: rest.next },
                        }
                    } else {
                        // stalled: unreachable, see the module comment
                        PSeqStep { out: Ok(seq![nv]), next: st.next }
                    }
                },
            }
        },
    }
}

#[via_fn]
proof fn spec_stmts_program_dec(toks: Seq<TokenV>, p: int) {
    lemma_advance_tok_bounds(toks, p);
}

/// One statement: an `if` block, a `pays` expression, or `name = expr ;`.
#[verifier::opaque]
pub open spec fn spec_parse_expression(toks: Seq<TokenV>, p: int) -> PStep
    decreases toks.len() + 1 - p, 11int,
{
    match spec_cur(toks, p) {
        TokenV::If => spec_parse_if(toks, p),
        TokenV::Pays => spec_parse_pays(toks, p),
        TokenV::EOF => p_syntax_err("Unexpected end of expression"@, p),
        _ => {
            let v = spec_parse_variable(toks, p);
            match v.out {
                Err(e) => PStep { out: Err(e), next: v.next },
                Ok(lhs) => {
                    if spec_progress(toks, p, v.next) {
                        match spec_cur(toks, v.next) {
                            TokenV::Assign => spec_parse_assign(toks, v.next, lhs),
                            TokenV::EOF => p_syntax_err("Unexpected end of expression"@, v.next),
                            TokenV::Newline => p_syntax_err("Unexpected newline"@, v.next),
                            _ => p_syntax_err("Unexpected token"@, v.next),
                        }
                    } else {
                        // stalled: unreachable
                        p_syntax_err("Unexpected token"@, v.next)
                    }
                },
            }
        },
    }
}

/// `pays` followed by amount expressions up to the end of input.
pub open spec fn spec_parse_pays(toks: Seq<TokenV>, p: int) -> PStep
    decreases toks.len() + 1 - p, 10int via spec_parse_pays_dec
{
    let body = spec_pays_body(toks, spec_advance_tok(toks, p));
    match body.out {
        Ok(exprs) => p_ok(NodeV::Pays(exprs, None), body.next),
        Err(e) => PStep { out: Err(e), next: body.next },
    }
}

#[via_fn]
proof fn spec_parse_pays_dec(toks: Seq<TokenV>, p: int) {
    lemma_advance_tok_bounds(toks, p);
}

/// The amount expressions of a `pays` statement, up to the end of input.
pub open spec fn spec_pays_body(toks: Seq<TokenV>, p: int) -> PSeqStep
    decreases toks.len() + 1 - p, 12int,
{
    match spec_cur(toks, p) {
        TokenV::EOF => PSeqStep { out: Ok(Seq::empty()), next: p },
        _ => {
            let e = spec_parse_expr(toks, p);
            match e.out {
                Err(err) => PSeqStep { out: Err(err), next: e.next },
                Ok(nv) => {
                    if spec_progress(toks, p, e.next) {
                        let rest = spec_pays_body(toks, e.next);
                        match rest.out {
                            Ok(more) => PSeqStep { out: Ok(seq![nv] + more), next: rest.next },
                            Err(err) => PSeqStep { out: Err(err), next: rest.next },
                        }
                    } else {
                        // stalled: unreachable
                        PSeqStep { out: Ok(seq![nv]), next: e.next }
                    }
                },
            }
        },
    }
}

/// A statement block inside braces, up to the closing brace; running out of
/// input is an error, named for the block it happened in.
pub open spec fn spec_block_body(toks: Seq<TokenV>, p: int, in_else: bool) -> PSeqStep
    decreases toks.len() + 1 - p, 12int,
{
    match spec_cur(toks, p) {
        TokenV::CloseCurlyParen => PSeqStep { out: Ok(Seq::empty()), next: p },
        TokenV::EOF => PSeqStep {
            out: Err(
                ErrorV::InvalidSyntax(
                    if in_else {
                        "Unexpected end of input in else body"@
                    } else {
                        "Unexpected end of input in if body"@
                    },
                ),
            ),
            next: p,
        },
        _ => {
            let st = spec_parse_expression(toks, p);
            match st.out {
                Err(e) => PSeqStep { out: Err(e), next: st.next },
                Ok(nv) => {
                    if spec_progress(toks, p, st.next) {
                        let rest = spec_block_body(toks, st.next, in_else);
                        match rest.out {
                            Ok(more) => PSeqStep { out: Ok(seq![nv] + more), next: rest.next },
                            Err(e) => PSeqStep { out: Err(e), next: rest.next },
                        }
                    } else {
                        // stalled: unreachable
                        PSeqStep { out: Ok(seq![nv]), next: st.next }
                    }
                },
            }
        },
    }
}

/// An `if` block: conditions, a braced then-block, an optional braced
/// else-block; all packed flat, the else start recorded in children
/// coordinates.
#[verifier::rlimit(100)]
#[verifier::opaque]
pub open spec fn spec_parse_if(toks: Seq<TokenV>, p: int) -> PStep
    decreases toks.len() + 1 - p, 10int via spec_parse_if_dec
{
    let conds = spec_parse_conditions(toks, spec_advance_tok(toks, p));
    match conds.out {
        Err(e) => PStep { out: Err(e), next: conds.next },
        Ok(cond) => {
            if spec_cur(toks, conds.next) != TokenV::OpenCurlyParen {
                p_unexpected(conds.next)
            } else {
                let p_then = spec_advance_tok(toks, conds.next);
                if !spec_progress(toks, p, p_then) {
                    // stalled: unreachable
                    p_unexpected(conds.next)
                } else {
                    let then_b = spec_block_body(toks, p_then, false);
                    match then_b.out {
                        Err(e) => PStep { out: Err(e), next: then_b.next },
                        Ok(then_stmts) => {
                            // the closing brace is consumed here
                            let p_after = spec_advance_tok(toks, then_b.next);
                            if spec_cur(toks, p_after) != TokenV::Else {
                                p_ok(NodeV::If(cond + then_stmts, None), p_after)
                            } else {
                                let p_brace = spec_advance_tok(toks, p_after);
                                if spec_cur(toks, p_brace) != TokenV::OpenCurlyParen {
                                    p_unexpected(p_brace)
                                } else {
                                    let p_else = spec_advance_tok(toks, p_brace);
                                    if !spec_progress(toks, p, p_else) {
                                        // stalled: unreachable
                                        p_unexpected(p_brace)
                                    } else {
                                        let else_b = spec_block_body(toks, p_else, true);
                                        match else_b.out {
                                            Err(e) => PStep { out: Err(e), next: else_b.next },
                                            Ok(else_stmts) => {
                                                if then_stmts.len() + 1 > usize::MAX {
                                                    p_syntax_err(
                                                        "If block too large"@,
                                                        else_b.next,
                                                    )
                                                } else {
                                                    p_ok(
                                                        NodeV::If(
                                                            cond + then_stmts + else_stmts,
                                                            Some(
                                                                (then_stmts.len() + 1) as usize,
                                                            ),
                                                        ),
                                                        spec_advance_tok(toks, else_b.next),
                                                    )
                                                }
                                            },
                                        }
                                    }
                                }
                            }
                        },
                    }
                }
            }
        },
    }
}

#[via_fn]
proof fn spec_parse_if_dec(toks: Seq<TokenV>, p: int) {
    lemma_advance_tok_bounds(toks, p);
}

/// An `if` block fails exactly as its then-block does, once the conditions
/// and the opening brace are in place.
#[verifier::rlimit(100)]
pub proof fn lemma_if_err_in_then(
    toks: Seq<TokenV>,
    p0: int,
    condv: Seq<NodeV>,
    p_cond_end: int,
    e: ErrorV,
)
    requires
        spec_parse_conditions(toks, spec_advance_tok(toks, p0)) == (PSeqStep {
            out: Ok(condv),
            next: p_cond_end,
        }),
        spec_cur(toks, p_cond_end) == TokenV::OpenCurlyParen,
        p0 < p_cond_end <= toks.len(),
        spec_block_body(toks, spec_advance_tok(toks, p_cond_end), false).out == Err::<
            Seq<NodeV>,
            ErrorV,
        >(e),
    ensures
        spec_parse_if(toks, p0).out == Err::<NodeV, ErrorV>(e),
{
    reveal(spec_parse_if);
    lemma_advance_tok_bounds(toks, p_cond_end);
}

/// An `if` block fails exactly as its else-block does, once everything up
/// to the else's opening brace is in place.
#[verifier::rlimit(100)]
pub proof fn lemma_if_err_in_else(
    toks: Seq<TokenV>,
    p0: int,
    condv: Seq<NodeV>,
    p_cond_end: int,
    then_views: Seq<NodeV>,
    p_close: int,
    e: ErrorV,
)
    requires
        spec_parse_conditions(toks, spec_advance_tok(toks, p0)) == (PSeqStep {
            out: Ok(condv),
            next: p_cond_end,
        }),
        spec_cur(toks, p_cond_end) == TokenV::OpenCurlyParen,
        p0 < p_cond_end <= toks.len(),
        spec_block_body(toks, spec_advance_tok(toks, p_cond_end), false) == (PSeqStep {
            out: Ok(then_views),
            next: p_close,
        }),
        spec_cur(toks, spec_advance_tok(toks, p_close)) == TokenV::Else,
        spec_cur(toks, spec_advance_tok(toks, spec_advance_tok(toks, p_close)))
            == TokenV::OpenCurlyParen,
        p0 < spec_advance_tok(
            toks,
            spec_advance_tok(toks, spec_advance_tok(toks, p_close)),
        ) <= toks.len(),
        spec_block_body(
            toks,
            spec_advance_tok(toks, spec_advance_tok(toks, spec_advance_tok(toks, p_close))),
            true,
        ).out == Err::<Seq<NodeV>, ErrorV>(e),
    ensures
        spec_parse_if(toks, p0).out == Err::<NodeV, ErrorV>(e),
{
    reveal(spec_parse_if);
    lemma_advance_tok_bounds(toks, p_cond_end);
}

/// `lhs = expr ;`, entered at the `=` sign with the left side parsed.
pub open spec fn spec_parse_assign(toks: Seq<TokenV>, p: int, lhs: NodeV) -> PStep
    decreases toks.len() + 1 - p, 10int via spec_parse_assign_dec
{
    let rhs = spec_parse_expr(toks, spec_advance_tok(toks, p));
    match rhs.out {
        Err(e) => PStep { out: Err(e), next: rhs.next },
        Ok(rv) => {
            if spec_cur(toks, rhs.next) != TokenV::Semicolon {
                p_unexpected(rhs.next)
            } else {
                p_ok(NodeV::Assign(seq![lhs, rv]), spec_advance_tok(toks, rhs.next))
            }
        },
    }
}

#[via_fn]
proof fn spec_parse_assign_dec(toks: Seq<TokenV>, p: int, lhs: NodeV) {
    lemma_advance_tok_bounds(toks, p);
}

/// The condition list of an `if`: comparisons left-folded under `and`/`or`
/// into one tree, handed out as a one-element list.
pub open spec fn spec_parse_conditions(toks: Seq<TokenV>, p: int) -> PSeqStep
    decreases toks.len() + 1 - p, 9int,
{
    let first = spec_parse_condition_element(toks, p);
    match first.out {
        Err(e) => PSeqStep { out: Err(e), next: first.next },
        Ok(cond) => {
            if spec_progress(toks, p, first.next) {
                spec_conditions_rest(toks, first.next, cond)
            } else {
                // stalled: unreachable
                PSeqStep { out: Ok(seq![cond]), next: first.next }
            }
        },
    }
}

/// Fold further `and`/`or` comparisons onto `acc`, left to right.
pub open spec fn spec_conditions_rest(toks: Seq<TokenV>, p: int, acc: NodeV) -> PSeqStep
    decreases toks.len() + 1 - p, 9int via spec_conditions_rest_dec
{
    let is_and = spec_cur(toks, p) == TokenV::And;
    let is_or = spec_cur(toks, p) == TokenV::Or;
    if !is_and && !is_or {
        PSeqStep { out: Ok(seq![acc]), next: p }
    } else {
        let rhs = spec_parse_condition_element(toks, spec_advance_tok(toks, p));
        match rhs.out {
            Err(e) => PSeqStep { out: Err(e), next: rhs.next },
            Ok(rv) => {
                let joined = if is_and {
                    NodeV::And(seq![acc, rv])
                } else {
                    NodeV::Or(seq![acc, rv])
                };
                if spec_progress(toks, p, rhs.next) {
                    spec_conditions_rest(toks, rhs.next, joined)
                } else {
                    // stalled: unreachable
                    PSeqStep { out: Ok(seq![joined]), next: rhs.next }
                }
            },
        }
    }
}

#[via_fn]
proof fn spec_conditions_rest_dec(toks: Seq<TokenV>, p: int, acc: NodeV) {
    lemma_advance_tok_bounds(toks, p);
}

/// One comparison: `expr <cmp> expr`.
pub open spec fn spec_parse_condition_element(toks: Seq<TokenV>, p: int) -> PStep
    decreases toks.len() + 1 - p, 8int via spec_parse_condition_element_dec
{
    let lhs = spec_parse_expr_l2(toks, p);
    match lhs.out {
        Err(e) => PStep { out: Err(e), next: lhs.next },
        Ok(lv) => {
            let cmp = spec_cur(toks, lhs.next);
            let is_cmp = cmp == TokenV::Equal || cmp == TokenV::NotEqual || cmp
                == TokenV::Superior || cmp == TokenV::Inferior || cmp == TokenV::SuperiorOrEqual
                || cmp == TokenV::InferiorOrEqual;
            if !is_cmp {
                p_syntax_err("Expected comparison operator"@, lhs.next)
            } else if !spec_progress(toks, p, lhs.next) {
                // stalled: unreachable
                p_syntax_err("Expected comparison operator"@, lhs.next)
            } else {
                let rhs = spec_parse_expr_l2(toks, spec_advance_tok(toks, lhs.next));
                match rhs.out {
                    Err(e) => PStep { out: Err(e), next: rhs.next },
                    Ok(rv) => {
                        let pair = seq![lv, rv];
                        let node = if cmp == TokenV::Equal {
                            NodeV::Equal(pair)
                        } else if cmp == TokenV::NotEqual {
                            NodeV::NotEqual(pair)
                        } else if cmp == TokenV::Superior {
                            NodeV::Superior(pair)
                        } else if cmp == TokenV::Inferior {
                            NodeV::Inferior(pair)
                        } else if cmp == TokenV::SuperiorOrEqual {
                            NodeV::SuperiorOrEqual(pair)
                        } else {
                            NodeV::InferiorOrEqual(pair)
                        };
                        p_ok(node, rhs.next)
                    },
                }
            }
        },
    }
}

#[via_fn]
proof fn spec_parse_condition_element_dec(toks: Seq<TokenV>, p: int) {
    lemma_advance_tok_bounds(toks, p);
}

/// Additive precedence: `expr_l2 ((+ | - | and | or) expr_l2)*`, folded to
/// the left.
pub open spec fn spec_parse_expr(toks: Seq<TokenV>, p: int) -> PStep
    decreases toks.len() + 1 - p, 7int,
{
    let lhs = spec_parse_expr_l2(toks, p);
    match lhs.out {
        Err(e) => PStep { out: Err(e), next: lhs.next },
        Ok(lv) => {
            if spec_progress(toks, p, lhs.next) {
                spec_expr_rest(toks, lhs.next, lv)
            } else {
                // stalled: unreachable
                p_ok(lv, lhs.next)
            }
        },
    }
}

/// Fold further `+ - and or` operands onto `acc`, left to right.
pub open spec fn spec_expr_rest(toks: Seq<TokenV>, p: int, acc: NodeV) -> PStep
    decreases toks.len() + 1 - p, 7int via spec_expr_rest_dec
{
    let t = spec_cur(toks, p);
    let is_op = t == TokenV::Plus || t == TokenV::Minus || t == TokenV::And || t == TokenV::Or;
    if !is_op {
        p_ok(acc, p)
    } else if spec_cur(toks, spec_advance_tok(toks, p)) == TokenV::EOF {
        p_syntax_err("Unexpected end of expression"@, spec_advance_tok(toks, p))
    } else {
        let rhs = spec_parse_expr_l2(toks, spec_advance_tok(toks, p));
        match rhs.out {
            Err(e) => PStep { out: Err(e), next: rhs.next },
            Ok(rv) => {
                let joined = if t == TokenV::Plus {
                    NodeV::Add(seq![acc, rv])
                } else if t == TokenV::Minus {
                    NodeV::Subtract(seq![acc, rv])
                } else if t == TokenV::And {
                    NodeV::And(seq![acc, rv])
                } else {
                    NodeV::Or(seq![acc, rv])
                };
                if spec_progress(toks, p, rhs.next) {
                    spec_expr_rest(toks, rhs.next, joined)
                } else {
                    // stalled: unreachable
                    p_ok(joined, rhs.next)
                }
            },
        }
    }
}

#[via_fn]
proof fn spec_expr_rest_dec(toks: Seq<TokenV>, p: int, acc: NodeV) {
    lemma_advance_tok_bounds(toks, p);
}

/// Multiplicative precedence: `expr_l3 ((* | /) expr_l3)*`, folded to the
/// left.
pub open spec fn spec_parse_expr_l2(toks: Seq<TokenV>, p: int) -> PStep
    decreases toks.len() + 1 - p, 6int,
{
    let lhs = spec_parse_expr_l3(toks, p);
    match lhs.out {
        Err(e) => PStep { out: Err(e), next: lhs.next },
        Ok(lv) => {
            if spec_progress(toks, p, lhs.next) {
                spec_l2_rest(toks, lhs.next, lv)
            } else {
                // stalled: unreachable
                p_ok(lv, lhs.next)
            }
        },
    }
}

/// Fold further `* /` operands onto `acc`, left to right.
pub open spec fn spec_l2_rest(toks: Seq<TokenV>, p: int, acc: NodeV) -> PStep
    decreases toks.len() + 1 - p, 6int via spec_l2_rest_dec
{
    let t = spec_cur(toks, p);
    let is_op = t == TokenV::Multiply || t == TokenV::Divide;
    if !is_op {
        p_ok(acc, p)
    } else if spec_cur(toks, spec_advance_tok(toks, p)) == TokenV::EOF {
        p_syntax_err("Unexpected end of expression"@, spec_advance_tok(toks, p))
    } else {
        let rhs = spec_parse_expr_l3(toks, spec_advance_tok(toks, p));
        match rhs.out {
            Err(e) => PStep { out: Err(e), next: rhs.next },
            Ok(rv) => {
                let joined = if t == TokenV::Multiply {
                    NodeV::Multiply(seq![acc, rv])
                } else {
                    NodeV::Divide(seq![acc, rv])
                };
                if spec_progress(toks, p, rhs.next) {
                    spec_l2_rest(toks, rhs.next, joined)
                } else {
                    // stalled: unreachable
                    p_ok(joined, rhs.next)
                }
            },
        }
    }
}

#[via_fn]
proof fn spec_l2_rest_dec(toks: Seq<TokenV>, p: int, acc: NodeV) {
    lemma_advance_tok_bounds(toks, p);
}

/// Power precedence: `atom (** atom)*`, folded to the left by
/// construction.
pub open spec fn spec_parse_expr_l3(toks: Seq<TokenV>, p: int) -> PStep
    decreases toks.len() + 1 - p, 5int,
{
    let lhs = spec_parse_var_const_func(toks, p);
    match lhs.out {
        Err(e) => PStep { out: Err(e), next: lhs.next },
        Ok(lv) => {
            if spec_progress(toks, p, lhs.next) {
                spec_l3_rest(toks, lhs.next, lv)
            } else {
                // stalled: unreachable
                p_ok(lv, lhs.next)
            }
        },
    }
}

/// Fold further `**` operands onto `acc`, left to right.
pub open spec fn spec_l3_rest(toks: Seq<TokenV>, p: int, acc: NodeV) -> PStep
    decreases toks.len() + 1 - p, 5int via spec_l3_rest_dec
{
    if spec_cur(toks, p) != TokenV::Power {
        p_ok(acc, p)
    } else if spec_cur(toks, spec_advance_tok(toks, p)) == TokenV::EOF {
        p_syntax_err("Unexpected end of expression"@, spec_advance_tok(toks, p))
    } else {
        let rhs = spec_parse_var_const_func(toks, spec_advance_tok(toks, p));
        match rhs.out {
            Err(e) => PStep { out: Err(e), next: rhs.next },
            Ok(rv) => {
                let joined = NodeV::Pow(seq![acc, rv]);
                if spec_progress(toks, p, rhs.next) {
                    spec_l3_rest(toks, rhs.next, joined)
                } else {
                    // stalled: unreachable
                    p_ok(joined, rhs.next)
                }
            },
        }
    }
}

#[via_fn]
proof fn spec_l3_rest_dec(toks: Seq<TokenV>, p: int, acc: NodeV) {
    lemma_advance_tok_bounds(toks, p);
}

/// An atom: a literal, a string, a call of `ln`, `exp`, `pow`, `min`,
/// `max` or `spot` told apart by identifier text, or a plain variable.
pub open spec fn spec_parse_var_const_func(toks: Seq<TokenV>, p: int) -> PStep
    decreases toks.len() + 1 - p, 4int via spec_parse_var_const_func_dec
{
    match spec_cur(toks, p) {
        TokenV::Value(v, b) => spec_parse_constant(toks, p),
        TokenV::StringLit(text) => spec_parse_string(toks, p),
        TokenV::Identifier(nm) => {
            if nm == "spot"@ {
                spec_parse_spot(toks, p)
            } else if nm == "ln"@ || nm == "exp"@ || nm == "pow"@ || nm == "min"@ || nm
                == "max"@ {
                let args = spec_parse_args(toks, spec_advance_tok(toks, p));
                match args.out {
                    Err(e) => PStep { out: Err(e), next: args.next },
                    Ok(arg_list) => if spec_cur(toks, args.next) != TokenV::CloseParen {
                        p_unexpected(args.next)
                    } else {
                        // the argument scan stops on the closing
                        // parenthesis, consumed here
                        let after = spec_advance_tok(toks, args.next);
                        let lo: int = if nm == "ln"@ || nm == "exp"@ {
                            1
                        } else {
                            2
                        };
                        let hi: int = if nm == "min"@ || nm == "max"@ {
                            100
                        } else if nm == "pow"@ {
                            2
                        } else {
                            1
                        };
                        if arg_list.len() < lo || arg_list.len() > hi {
                            p_syntax_err("Invalid number of arguments"@, after)
                        } else {
                            let node = if nm == "ln"@ {
                                NodeV::Ln(arg_list)
                            } else if nm == "exp"@ {
                                NodeV::Exp(arg_list)
                            } else if nm == "pow"@ {
                                NodeV::Pow(arg_list)
                            } else if nm == "min"@ {
                                NodeV::Min(arg_list)
                            } else {
                                NodeV::Max(arg_list)
                            };
                            p_ok(node, after)
                        }
                    },
                }

            } else {
                spec_parse_variable(toks, p)
            }
        },
        _ => p_unexpected(p),
    }
}

#[via_fn]
proof fn spec_parse_var_const_func_dec(toks: Seq<TokenV>, p: int) {
    lemma_advance_tok_bounds(toks, p);
}

/// A parenthesized, comma-separated argument list; the scan stops on the
/// closing parenthesis without consuming it.
pub open spec fn spec_parse_args(toks: Seq<TokenV>, p: int) -> PSeqStep
    decreases toks.len() + 1 - p, 12int via spec_parse_args_dec
{
    if spec_cur(toks, p) != TokenV::OpenParen {
        PSeqStep { out: Err(ErrorV::UnexpectedToken("unexpected token"@)), next: p }
    } else {
        spec_args_loop(toks, spec_advance_tok(toks, p))
    }
}

#[via_fn]
proof fn spec_parse_args_dec(toks: Seq<TokenV>, p: int) {
    lemma_advance_tok_bounds(toks, p);
}

/// The comma-separated arguments up to the closing parenthesis.
pub open spec fn spec_args_loop(toks: Seq<TokenV>, p: int) -> PSeqStep
    decreases toks.len() + 1 - p, 12int,
{
    if spec_cur(toks, p) == TokenV::CloseParen {
        PSeqStep { out: Ok(Seq::empty()), next: p }
    } else {
        let arg = spec_parse_expr(toks, p);
        match arg.out {
            Err(e) => PSeqStep { out: Err(e), next: arg.next },
            Ok(nv) => {
                if !spec_progress(toks, p, arg.next) {
                    // stalled: unreachable
                    PSeqStep { out: Ok(seq![nv]), next: arg.next }
                } else {
                    match spec_cur(toks, arg.next) {
                        TokenV::Comma => {
                            let q = spec_advance_tok(toks, arg.next);
                            if !spec_progress(toks, p, q) {
                                // stalled: unreachable
                                PSeqStep { out: Ok(seq![nv]), next: arg.next }
                            } else {
                                let rest = spec_args_loop(toks, q);
                                match rest.out {
                                    Ok(more) => PSeqStep {
                                        out: Ok(seq![nv] + more),
                                        next: rest.next,
                                    },
                                    Err(e) => PSeqStep { out: Err(e), next: rest.next },
                                }
                            }
                        },
                        TokenV::CloseParen => PSeqStep { out: Ok(seq![nv]), next: arg.next },
                        _ => PSeqStep {
                            out: Err(
                                ErrorV::InvalidSyntax(
                                    "Expected comma or closing parenthesis"@,
                                ),
                            ),
                            next: arg.next,
                        },
                    }
                }
            },
        }
    }
}

/// `spot("CCY")`: the string argument names the currency; a code that is
/// not three uppercase letters is rejected.
pub open spec fn spec_parse_spot(toks: Seq<TokenV>, p: int) -> PStep
    decreases toks.len() + 1 - p, 3int via spec_parse_spot_dec
{
    if !(spec_cur(toks, p) is Identifier) {
        p_unexpected(p)
    } else {
        let p1 = spec_advance_tok(toks, p);
        if spec_cur(toks, p1) != TokenV::OpenParen {
            p_unexpected(p1)
        } else {
            let text_step = spec_parse_string(toks, spec_advance_tok(toks, p1));
            match text_step.out {
                Err(e) => PStep { out: Err(e), next: text_step.next },
                Ok(sv) => {
                    let code = sv->StringLit_0;
                    if code.len() == 3 && spec_uppercase_letter(code[0])
                        && spec_uppercase_letter(code[1]) && spec_uppercase_letter(code[2]) {
                        if spec_cur(toks, text_step.next) != TokenV::CloseParen {
                            p_unexpected(text_step.next)
                        } else {
                            p_ok(
                                NodeV::Spot(
                                    Currency { c0: code[0], c1: code[1], c2: code[2] },
                                    None,
                                ),
                                spec_advance_tok(toks, text_step.next),
                            )
                        }
                    } else {
                        p_syntax_err("Invalid currency"@, text_step.next)
                    }
                },
            }
        }
    }
}

#[via_fn]
proof fn spec_parse_spot_dec(toks: Seq<TokenV>, p: int) {
    lemma_advance_tok_bounds(toks, p);
    lemma_advance_tok_bounds(toks, spec_advance_tok(toks, p));
}

/// A bare non-reserved identifier, as a fresh variable node.
pub open spec fn spec_parse_variable(toks: Seq<TokenV>, p: int) -> PStep
    decreases toks.len() + 1 - p, 2int,
{
    match spec_cur(toks, p) {
        TokenV::Identifier(nm) => {
            if spec_reserved(nm) {
                p_syntax_err("Reserved keyword"@, p)
            } else {
                p_ok(NodeV::Variable(Seq::empty(), nm, None), spec_advance_tok(toks, p))
            }
        },
        _ => p_unexpected(p),
    }
}

/// A numeric or boolean literal.
pub open spec fn spec_parse_constant(toks: Seq<TokenV>, p: int) -> PStep
    decreases toks.len() + 1 - p, 2int,
{
    match spec_cur(toks, p) {
        TokenV::Value(v, b) => match b {
            Some(true) => p_ok(NodeV::True, spec_advance_tok(toks, p)),
            Some(false) => p_ok(NodeV::False, spec_advance_tok(toks, p)),
            None => match v {
                Some(bits) => p_ok(NodeV::Constant(bits), spec_advance_tok(toks, p)),
                None => p_syntax_err("Invalid constant"@, p),
            },
        },
        _ => p_syntax_err("Invalid constant"@, p),
    }
}

/// A string literal, its text kept.
pub open spec fn spec_parse_string(toks: Seq<TokenV>, p: int) -> PStep
    decreases toks.len() + 1 - p, 2int,
{
    match spec_cur(toks, p) {
        TokenV::StringLit(text) => p_ok(NodeV::StringLit(text), spec_advance_tok(toks, p)),
        _ => p_syntax_err("Invalid string, expected string literal"@, p),
    }
}

/// Whether an executable parse outcome is the one the model names: the same
/// rejection, or the model's tree and stop position.
pub open spec fn parse_matches(m: PStep, r: Result<ExprTree, ScriptingError>, pos2: int) -> bool {
    match (r, m.out) {
        (Ok(t), Ok(nv)) => node_view(*t) == nv && m.next == pos2,
        (Err(e), Err(ev)) => e@ == ev,
        _ => false,
    }
}

/// A list outcome with `prefix` put before whatever was parsed.
pub open spec fn p_prepend(prefix: Seq<NodeV>, st: PSeqStep) -> PSeqStep {
    PSeqStep {
        out: match st.out {
            Ok(s) => Ok(prefix + s),
            Err(e) => Err(e),
        },
        next: st.next,
    }
}

/// Prefixing nothing changes nothing.
pub proof fn lemma_prepend_empty(st: PSeqStep)
    ensures
        p_prepend(Seq::empty(), st) == st,
{
    match st.out {
        Ok(rest) => {
            assert(Seq::<NodeV>::empty() + rest =~= rest);
        },
        Err(_) => {},
    }
    assert(p_prepend(Seq::empty(), st) =~= st);
}

/// Prefixing one element at a time is prefixing the grown list.
pub proof fn lemma_prepend_cons(before: Seq<NodeV>, av: NodeV, st: PSeqStep)
    ensures
        p_prepend(before, p_prepend(seq![av], st)) == p_prepend(before.push(av), st),
{
    match st.out {
        Ok(rest) => {
            assert(before + (seq![av] + rest) =~= before.push(av) + rest);
        },
        Err(_) => {},
    }
    assert(p_prepend(before, p_prepend(seq![av], st)) =~= p_prepend(before.push(av), st));
}

/// A token vector's shadow list indexes to its elements' shadows.
pub proof fn lemma_token_deep_view(toks: &Vec<Token>)
    ensures
        toks.deep_view().len() == toks@.len(),
        forall|i: int| 0 <= i < toks@.len() ==> toks.deep_view()[i] == toks@[i]@,
{
}

/// As [`parse_matches`], for the functions that hand out a list.
pub open spec fn parse_matches_seq(
    m: PSeqStep,
    r: Result<Vec<ExprTree>, ScriptingError>,
    pos2: int,
) -> bool {
    match (r, m.out) {
        (Ok(v), Ok(nvs)) => children_views(v@, 0) == nvs && m.next == pos2,
        (Err(e), Err(ev)) => e@ == ev,
        _ => false,
    }
}

// ---------------------------------------------------------------------------
// The parser.
// ---------------------------------------------------------------------------
/// The recursive-descent parser: a cursor over the token sequence that only
/// ever moves forward.  Newlines separate statements and are skipped by
/// `advance`.  Every tree handed out satisfies [`spec_parsed_wf`]; the first
/// structural violation aborts with an error and no tree.
pub struct Parser {
    pub tokens: Vec<Token>,
    pub position: usize,
}

impl Parser {
    /// A parser over `tokens`, at the first token.
    pub fn new(tokens: Vec<Token>) -> (p: Parser)
        ensures
            p.tokens == tokens,
            p.position == 0,
    {
        Parser { tokens, position: 0 }
    }

    /// The token under the cursor; `EOF` past the end.
    pub fn current_token(&self) -> (t: Token)
        ensures
            self.position < self.tokens@.len() ==> t == self.tokens@[self.position as int],
            self.position >= self.tokens@.len() ==> t == Token::EOF,
    {
        if self.position < self.tokens.len() {
            self.tokens[self.position].clone()
        } else {
            Token::EOF
        }
    }

    /// Move the cursor forward, skipping newline tokens.
    pub fn advance(&mut self)
        requires
            old(self).position < old(self).tokens@.len(),
        ensures
            final(self).tokens == old(self).tokens,
            old(self).position < final(self).position <= old(self).tokens@.len(),
            final(self).position as int == spec_advance_tok(
                old(self).tokens.deep_view(),
                old(self).position as int,
            ),
    {
        proof {
            lemma_token_deep_view(&self.tokens);
        }
        let ghost dv = self.tokens.deep_view();
        let len = self.tokens.len();
        self.position = self.position + 1;
        while self.position < len && is_newline(&self.tokens[self.position])
            invariant
                len == self.tokens@.len(),
                dv == old(self).tokens.deep_view(),
                self.tokens == old(self).tokens,
                old(self).position < self.position <= self.tokens@.len(),
                spec_skip_nl(dv, old(self).position + 1) == spec_skip_nl(
                    dv,
                    self.position as int,
                ),
            decreases self.tokens@.len() - self.position,
        {
            proof {
                lemma_token_deep_view(&self.tokens);
            }
            self.position = self.position + 1;
        }
        proof {
            lemma_token_deep_view(&self.tokens);
        }
    }

    /// An invalid-syntax error with the given description.
    fn invalid_syntax_err(&self, msg: &str) -> (e: ScriptingError)
        ensures
            e@ == crate::errors::ErrorV::InvalidSyntax(msg@),
    {
        ScriptingError::InvalidSyntax(msg.to_owned())
    }

    /// An unexpected-token error.
    fn unexpected_token_err(&self) -> (e: ScriptingError)
        ensures
            e@ == crate::errors::ErrorV::UnexpectedToken("unexpected token"@),
    {
        ScriptingError::UnexpectedToken("unexpected token".to_owned())
    }

    /// Demand that the cursor stands on `expected`.
    fn expect_token(&self, expected: &Token) -> (r: Result<(), ScriptingError>)
        ensures
            r is Ok <==> spec_current(self)@ == expected@,
            r is Ok ==> self.position < self.tokens@.len() || expected@ == Token::EOF@,
            r is Err ==> (r matches Err(e) && e@ == crate::errors::ErrorV::UnexpectedToken(
                "unexpected token"@,
            )),
    {
        let t = self.current_token();
        if t.eq(expected) {
            Ok(())
        } else {
            Err(self.unexpected_token_err())
        }
    }

    /// Parse a whole program: statements up to the end of input, gathered
    /// under a `Base` node.  The tree is well formed with all slots unset;
    /// the first structural violation aborts instead.
    #[verifier::spinoff_prover]
    #[verifier::rlimit(100)]
    pub fn parse(&mut self) -> (r: Result<ExprTree, ScriptingError>)
        requires
            old(self).position <= old(self).tokens@.len(),
        ensures
            final(self).tokens == old(self).tokens,
            r matches Ok(t) ==> spec_parsed_wf(*t),
            parse_matches(
                spec_parse_program(old(self).tokens.deep_view(), old(self).position as int),
                r,
                final(self).position as int,
            ),
    {
        proof {
            lemma_token_deep_view(&self.tokens);
        }
        let ghost dv = self.tokens.deep_view();
        let ghost p0 = self.position as int;
        let mut expressions: Vec<ExprTree> = Vec::new();
        proof {
            assert(children_views(expressions@, 0) =~= Seq::<NodeV>::empty());
            lemma_prepend_empty(spec_stmts_program(dv, p0));
            assert(spec_stmts_program(dv, p0) == p_prepend(
                children_views(expressions@, 0),
                spec_stmts_program(dv, self.position as int),
            ));
        }
        loop
            invariant
                dv == old(self).tokens.deep_view(),
                p0 == old(self).position as int,
                self.tokens == old(self).tokens,
                self.position <= self.tokens@.len(),
                forall|j: int| 0 <= j < expressions@.len() ==> spec_parsed_wf(*expressions@[j]),
                spec_stmts_program(dv, p0) == p_prepend(
                    children_views(expressions@, 0),
                    spec_stmts_program(dv, self.position as int),
                ),
            ensures
                self.tokens == old(self).tokens,
                self.position <= self.tokens@.len(),
                forall|j: int| 0 <= j < expressions@.len() ==> spec_parsed_wf(*expressions@[j]),
                spec_stmts_program(dv, p0) == (PSeqStep {
                    out: Ok(children_views(expressions@, 0)),
                    next: self.position as int,
                }),
            decreases self.tokens@.len() - self.position,
        {
            let ghost entry = self.position as int;
            let ghost before = children_views(expressions@, 0);
            proof {
                lemma_token_deep_view(&self.tokens);
            }
            let t = self.current_token();
            proof {
                assert(spec_cur(dv, entry) == t@);
            }
            match t {
                Token::EOF => {
                    proof {
                        assert(spec_stmts_program(dv, entry) == (PSeqStep {
                            out: Ok(Seq::<NodeV>::empty()),
                            next: entry,
                        }));
                        assert(before + Seq::<NodeV>::empty() =~= before);
                    }
                    break ;
                },
                Token::Newline => {
                    self.advance();
                    proof {
                        assert(spec_stmts_program(dv, entry) == spec_stmts_program(
                            dv,
                            self.position as int,
                        ));
                    }
                },
                _ => {
                    let expr = match self.parse_expression() {
                        Ok(e) => e,
                        Err(e) => {
                            return Err(e);
                        },
                    };
                    let ghost av = node_view(*expr);
                    let ghost eb = expr;
                    let ghost before_boxes = expressions@;
                    expressions.push(expr);
                    proof {
                        lemma_children_views_push(before_boxes, eb);
                        assert(spec_stmts_program(dv, entry) == p_prepend(
                            seq![av],
                            spec_stmts_program(dv, self.position as int),
                        ));
                        lemma_prepend_cons(
                            before,
                            av,
                            spec_stmts_program(dv, self.position as int),
                        );
                    }
                },
            }
        }
        let node = Node::Base(expressions);
        proof {
            lemma_wf_seq_from_forall(node_children(node), 0);
        }
        Ok(Box::new(node))
    }

    /// Parse one statement: an `if` block, a `pays` expression, or an
    /// assignment `name = expr ;`.
    #[verifier::spinoff_prover]
    #[verifier::rlimit(100)]
    fn parse_expression(&mut self) -> (r: Result<ExprTree, ScriptingError>)
        requires
            old(self).position <= old(self).tokens@.len(),
        ensures
            final(self).tokens == old(self).tokens,
            old(self).position <= final(self).position <= old(self).tokens@.len(),
            r matches Ok(t) ==> spec_parsed_wf(*t) && old(self).position < final(self).position,
            parse_matches(
                spec_parse_expression(old(self).tokens.deep_view(), old(self).position as int),
                r,
                final(self).position as int,
            ),
        decreases old(self).tokens@.len() + 1 - old(self).position, 10int,
    {
        proof {
            reveal(spec_parse_expression);
            lemma_token_deep_view(&self.tokens);
        }
        let ghost dv = self.tokens.deep_view();
        let ghost p0 = self.position as int;
        let t = self.current_token();
        proof {
            assert(spec_cur(dv, p0) == t@);
        }
        match t {
            Token::If => self.parse_if(),
            Token::Pays => self.parse_pays(),
            Token::EOF => Err(self.invalid_syntax_err("Unexpected end of expression")),
            _ => {
                let lhs = match self.parse_variable() {
                    Ok(v) => v,
                    Err(e) => {
                        return Err(e);
                    },
                };
                proof {
                    lemma_token_deep_view(&self.tokens);
                }
                let t2 = self.current_token();
                proof {
                    assert(spec_cur(dv, self.position as int) == t2@);
                }
                match t2 {
                    Token::Assign => self.parse_assign(lhs),
                    Token::EOF => Err(self.invalid_syntax_err("Unexpected end of expression")),
                    Token::Newline => Err(self.invalid_syntax_err("Unexpected newline")),
                    _ => Err(self.invalid_syntax_err("Unexpected token")),
                }
            },
        }
    }

    /// Parse `pays <expr>*`: the trailing amount expressions up to the end
    /// of input become the children of a `Pays` node.
    #[verifier::spinoff_prover]
    #[verifier::rlimit(100)]
    fn parse_pays(&mut self) -> (r: Result<ExprTree, ScriptingError>)
        requires
            old(self).position <= old(self).tokens@.len(),
            spec_current(old(self))@ == Token::Pays@,
        ensures
            final(self).tokens == old(self).tokens,
            old(self).position <= final(self).position <= old(self).tokens@.len(),
            r matches Ok(t) ==> spec_parsed_wf(*t) && old(self).position < final(self).position,
            parse_matches(
                spec_parse_pays(old(self).tokens.deep_view(), old(self).position as int),
                r,
                final(self).position as int,
            ),
        decreases old(self).tokens@.len() + 1 - old(self).position, 9int,
    {
        proof {
            lemma_token_deep_view(&self.tokens);
        }
        let ghost dv = self.tokens.deep_view();
        let ghost p0 = self.position as int;
        self.advance();
        let ghost p_body = self.position as int;
        let mut pays: Vec<ExprTree> = Vec::new();
        proof {
            assert(children_views(pays@, 0) =~= Seq::<NodeV>::empty());
            lemma_prepend_empty(spec_pays_body(dv, p_body));
            assert(spec_pays_body(dv, p_body) == p_prepend(
                children_views(pays@, 0),
                spec_pays_body(dv, self.position as int),
            ));
        }
        loop
            invariant
                dv == old(self).tokens.deep_view(),
                p0 == old(self).position as int,
                p_body == spec_advance_tok(dv, p0),
                self.tokens == old(self).tokens,
                p0 < self.position <= self.tokens@.len(),
                forall|j: int| 0 <= j < pays@.len() ==> spec_parsed_wf(*pays@[j]),
                spec_pays_body(dv, p_body) == p_prepend(
                    children_views(pays@, 0),
                    spec_pays_body(dv, self.position as int),
                ),
            ensures
                self.tokens == old(self).tokens,
                p0 < self.position <= self.tokens@.len(),
                forall|j: int| 0 <= j < pays@.len() ==> spec_parsed_wf(*pays@[j]),
                spec_pays_body(dv, p_body) == (PSeqStep {
                    out: Ok(children_views(pays@, 0)),
                    next: self.position as int,
                }),
            decreases self.tokens@.len() - self.position,
        {
            let ghost entry = self.position as int;
            let ghost before = children_views(pays@, 0);
            proof {
                lemma_token_deep_view(&self.tokens);
            }
            let t = self.current_token();
            proof {
                assert(spec_cur(dv, entry) == t@);
            }
            match t {
                Token::EOF => {
                    proof {
                        assert(spec_pays_body(dv, entry) == (PSeqStep {
                            out: Ok(Seq::<NodeV>::empty()),
                            next: entry,
                        }));
                        assert(before + Seq::<NodeV>::empty() =~= before);
                    }
                    break ;
                },
                _ => {},
            }
            let expr = match self.parse_expr() {
                Ok(e) => e,
                Err(e) => {
                    return Err(e);
                },
            };
            let ghost av = node_view(*expr);
            let ghost eb = expr;
            let ghost before_boxes = pays@;
            pays.push(expr);
            proof {
                lemma_children_views_push(before_boxes, eb);
                assert(spec_pays_body(dv, entry) == p_prepend(
                    seq![av],
                    spec_pays_body(dv, self.position as int),
                ));
                lemma_prepend_cons(before, av, spec_pays_body(dv, self.position as int));
            }
        }
        let node = Node::Pays(pays, None);
        proof {
            lemma_wf_seq_from_forall(node_children(node), 0);
        }
        Ok(Box::new(node))
    }

    /// Parse an `if` block: one or more `and`/`or`-joined comparisons, a
    /// brace-delimited then-block, and an optional brace-delimited
    /// else-block; everything is packed flat into one children list with
    /// the else start recorded.
    #[verifier::spinoff_prover]
    #[verifier::rlimit(100)]
    fn parse_if(&mut self) -> (r: Result<ExprTree, ScriptingError>)
        requires
            old(self).position <= old(self).tokens@.len(),
            spec_current(old(self))@ == Token::If@,
        ensures
            final(self).tokens == old(self).tokens,
            old(self).position <= final(self).position <= old(self).tokens@.len(),
            r matches Ok(t) ==> spec_parsed_wf(*t) && old(self).position < final(self).position,
            parse_matches(
                spec_parse_if(old(self).tokens.deep_view(), old(self).position as int),
                r,
                final(self).position as int,
            ),
        decreases old(self).tokens@.len() + 1 - old(self).position, 9int,
    {
        proof {
            reveal(spec_parse_if);
            lemma_token_deep_view(&self.tokens);
        }
        let ghost dv = self.tokens.deep_view();
        let ghost p0 = self.position as int;
        self.advance();
        let condition = match self.parse_conditions() {
            Ok(c) => c,
            Err(e) => {
                return Err(e);
            },
        };
        let ghost condv = children_views(condition@, 0);
        let ghost p_cond_end = self.position as int;
        proof {
            lemma_token_deep_view(&self.tokens);
            assert(spec_cur(dv, p_cond_end) == spec_current(self)@);
        }
        match self.expect_token(&Token::OpenCurlyParen) {
            Ok(()) => {},
            Err(e) => {
                return Err(e);
            },
        }
        self.advance();
        let ghost p_then = self.position as int;
        let mut if_body: Vec<ExprTree> = Vec::new();
        proof {
            assert(children_views(if_body@, 0) =~= Seq::<NodeV>::empty());
            lemma_prepend_empty(spec_block_body(dv, p_then, false));
            assert(spec_block_body(dv, p_then, false) == p_prepend(
                children_views(if_body@, 0),
                spec_block_body(dv, self.position as int, false),
            ));
        }
        loop
            invariant
                dv == old(self).tokens.deep_view(),
                p0 == old(self).position as int,
                self.tokens == old(self).tokens,
                p0 < self.position <= self.tokens@.len(),
                forall|j: int| 0 <= j < if_body@.len() ==> spec_parsed_wf(*if_body@[j]),
                spec_parse_conditions(dv, spec_advance_tok(dv, p0)) == (PSeqStep {
                    out: Ok(condv),
                    next: p_cond_end,
                }),
                spec_cur(dv, p_cond_end) == TokenV::OpenCurlyParen,
                p0 < p_cond_end <= dv.len(),
                p_then == spec_advance_tok(dv, p_cond_end),
                spec_block_body(dv, p_then, false) == p_prepend(
                    children_views(if_body@, 0),
                    spec_block_body(dv, self.position as int, false),
                ),
            ensures
                self.tokens == old(self).tokens,
                p0 < self.position,
                self.position < self.tokens@.len(),
                forall|j: int| 0 <= j < if_body@.len() ==> spec_parsed_wf(*if_body@[j]),
                spec_block_body(dv, p_then, false) == (PSeqStep {
                    out: Ok(children_views(if_body@, 0)),
                    next: self.position as int,
                }),
            decreases self.tokens@.len() - self.position,
        {
            let ghost entry = self.position as int;
            let ghost before = children_views(if_body@, 0);
            proof {
                lemma_token_deep_view(&self.tokens);
            }
            let t = self.current_token();
            proof {
                assert(spec_cur(dv, entry) == t@);
            }
            match t {
                Token::CloseCurlyParen => {
                    proof {
                        assert(spec_block_body(dv, entry, false) == (PSeqStep {
                            out: Ok(Seq::<NodeV>::empty()),
                            next: entry,
                        }));
                        assert(before + Seq::<NodeV>::empty() =~= before);
                    }
                    break ;
                },
                Token::EOF => {
                    proof {
                        let ev = ErrorV::InvalidSyntax("Unexpected end of input in if body"@);
                        assert(spec_block_body(dv, entry, false).out == Err::<Seq<NodeV>, ErrorV>(
                            ev,
                        ));
                        assert(spec_block_body(dv, p_then, false).out == Err::<Seq<NodeV>, ErrorV>(
                            ev,
                        ));
                        lemma_if_err_in_then(dv, p0, condv, p_cond_end, ev);
                    }
                    return Err(self.invalid_syntax_err("Unexpected end of input in if body"));
                },
                _ => {},
            }
            let expr = match self.parse_expression() {
                Ok(e) => e,
                Err(e) => {
                    proof {
                        assert(spec_block_body(dv, entry, false).out == Err::<Seq<NodeV>, ErrorV>(
                            e@,
                        ));
                        assert(spec_block_body(dv, p_then, false).out == Err::<Seq<NodeV>, ErrorV>(
                            e@,
                        ));
                        lemma_if_err_in_then(dv, p0, condv, p_cond_end, e@);
                    }
                    return Err(e);
                },
            };
            let ghost av = node_view(*expr);
            let ghost eb = expr;
            let ghost before_boxes = if_body@;
            if_body.push(expr);
            proof {
                lemma_children_views_push(before_boxes, eb);
                assert(spec_block_body(dv, entry, false) == p_prepend(
                    seq![av],
                    spec_block_body(dv, self.position as int, false),
                ));
                lemma_prepend_cons(before, av, spec_block_body(dv, self.position as int, false));
            }
        }
        let ghost then_views = children_views(if_body@, 0);
        let ghost p_close = self.position as int;
        self.advance();
        let ghost p_after = self.position as int;
        let mut else_index: Option<usize> = None;
        let mut else_body: Vec<ExprTree> = Vec::new();
        proof {
            lemma_token_deep_view(&self.tokens);
        }
        let t_else = self.current_token();
        proof {
            assert(spec_cur(dv, p_after) == t_else@);
        }
        match t_else {
            Token::Else => {
                self.advance();
                let ghost p_brace = self.position as int;
                proof {
                    lemma_token_deep_view(&self.tokens);
                    assert(spec_cur(dv, p_brace) == spec_current(self)@);
                }
                match self.expect_token(&Token::OpenCurlyParen) {
                    Ok(()) => {},
                    Err(e) => {
                        return Err(e);
                    },
                }
                self.advance();
                else_index = Some(if_body.len());
                let ghost p_else = self.position as int;
                proof {
                    assert(children_views(else_body@, 0) =~= Seq::<NodeV>::empty());
                    lemma_prepend_empty(spec_block_body(dv, p_else, true));
                    assert(spec_block_body(dv, p_else, true) == p_prepend(
                        children_views(else_body@, 0),
                        spec_block_body(dv, self.position as int, true),
                    ));
                }
                loop
                    invariant
                        dv == old(self).tokens.deep_view(),
                        p0 == old(self).position as int,
                        self.tokens == old(self).tokens,
                        p0 < self.position <= self.tokens@.len(),
                        forall|j: int|
                            0 <= j < else_body@.len() ==> spec_parsed_wf(*else_body@[j]),
                        spec_parse_conditions(dv, spec_advance_tok(dv, p0)) == (PSeqStep {
                            out: Ok(condv),
                            next: p_cond_end,
                        }),
                        spec_cur(dv, p_cond_end) == TokenV::OpenCurlyParen,
                        p0 < p_cond_end <= dv.len(),
                        p_then == spec_advance_tok(dv, p_cond_end),
                        spec_block_body(dv, p_then, false) == (PSeqStep {
                            out: Ok(then_views),
                            next: p_close,
                        }),
                        p_after == spec_advance_tok(dv, p_close),
                        spec_cur(dv, p_after) == TokenV::Else,
                        p_brace == spec_advance_tok(dv, p_after),
                        spec_cur(dv, p_brace) == TokenV::OpenCurlyParen,
                        p_else == spec_advance_tok(dv, p_brace),
                        p0 < p_else <= dv.len(),
                        spec_block_body(dv, p_else, true) == p_prepend(
                            children_views(else_body@, 0),
                            spec_block_body(dv, self.position as int, true),
                        ),
                    ensures
                        self.tokens == old(self).tokens,
                        p0 < self.position,
                        self.position < self.tokens@.len(),
                        forall|j: int|
                            0 <= j < else_body@.len() ==> spec_parsed_wf(*else_body@[j]),
                        spec_block_body(dv, p_else, true) == (PSeqStep {
                            out: Ok(children_views(else_body@, 0)),
                            next: self.position as int,
                        }),
                    decreases self.tokens@.len() - self.position,
                {
                    let ghost entry = self.position as int;
                    let ghost before = children_views(else_body@, 0);
                    proof {
                        lemma_token_deep_view(&self.tokens);
                    }
                    let t = self.current_token();
                    proof {
                        assert(spec_cur(dv, entry) == t@);
                    }
                    match t {
                        Token::CloseCurlyParen => {
                            proof {
                                assert(spec_block_body(dv, entry, true) == (PSeqStep {
                                    out: Ok(Seq::<NodeV>::empty()),
                                    next: entry,
                                }));
                                assert(before + Seq::<NodeV>::empty() =~= before);
                            }
                            break ;
                        },
                        Token::EOF => {
                            proof {
                                let ev = ErrorV::InvalidSyntax(
                                    "Unexpected end of input in else body"@,
                                );
                                assert(spec_block_body(dv, entry, true).out == Err::<
                                    Seq<NodeV>,
                                    ErrorV,
                                >(ev));
                                assert(spec_block_body(dv, p_else, true).out == Err::<
                                    Seq<NodeV>,
                                    ErrorV,
                                >(ev));
                                lemma_if_err_in_else(
                                    dv,
                                    p0,
                                    condv,
                                    p_cond_end,
                                    then_views,
                                    p_close,
                                    ev,
                                );
                            }
                            return Err(
                                self.invalid_syntax_err("Unexpected end of input in else body"),
                            );
                        },
                        _ => {},
                    }
                    let expr = match self.parse_expression() {
                        Ok(e) => e,
                        Err(e) => {
                            proof {
                                assert(spec_block_body(dv, entry, true).out == Err::<
                                    Seq<NodeV>,
                                    ErrorV,
                                >(e@));
                                assert(spec_block_body(dv, p_else, true).out == Err::<
                                    Seq<NodeV>,
                                    ErrorV,
                                >(e@));
                                lemma_if_err_in_else(
                                    dv,
                                    p0,
                                    condv,
                                    p_cond_end,
                                    then_views,
                                    p_close,
                                    e@,
                                );
                            }
                            return Err(e);
                        },
                    };
                    let ghost av = node_view(*expr);
                    let ghost eb = expr;
                    let ghost before_boxes = else_body@;
                    else_body.push(expr);
                    proof {
                        lemma_children_views_push(before_boxes, eb);
                        assert(spec_block_body(dv, entry, true) == p_prepend(
                            seq![av],
                            spec_block_body(dv, self.position as int, true),
                        ));
                        lemma_prepend_cons(
                            before,
                            av,
                            spec_block_body(dv, self.position as int, true),
                        );
                    }
                }
                self.advance();
            },
            _ => {},
        }
        let ghost else_views = children_views(else_body@, 0);
        let mut nodes = condition;
        let ghost pre_nodes = nodes@;
        let ghost pre_then = if_body@;
        nodes.append(&mut if_body);
        proof {
            assert(nodes@ == pre_nodes + pre_then);
            lemma_children_views_concat(pre_nodes, pre_then);
        }
        let ghost mid_nodes = nodes@;
        let ghost pre_else = else_body@;
        nodes.append(&mut else_body);
        proof {
            assert(nodes@ == mid_nodes + pre_else);
            lemma_children_views_concat(mid_nodes, pre_else);
            assert(children_views(nodes@, 0) =~= condv + then_views + else_views);
            lemma_children_views_index(pre_then, 0);
            assert(forall|j: int| 0 <= j < nodes@.len() ==> spec_parsed_wf(*nodes@[j]));
        }
        let shifted = match else_index {
            Some(k) => {
                if k > usize::MAX - 1 {
                    return Err(self.invalid_syntax_err("If block too large"));
                }
                Some(k + 1)
            },
            None => None,
        };
        proof {
            if else_index is None {
                assert(else_views =~= Seq::<NodeV>::empty());
                assert(condv + then_views + else_views =~= condv + then_views);
            }
        }
        let node = Node::If(nodes, shifted);
        proof {
            lemma_wf_seq_from_forall(node_children(node), 0);
        }
        Ok(Box::new(node))
    }

    /// Parse a bare identifier into a fresh variable node; reserved words
    /// are rejected at the point of use.  Succeeds exactly on a
    /// non-reserved identifier.
    fn parse_variable(&mut self) -> (r: Result<ExprTree, ScriptingError>)
        requires
            old(self).position <= old(self).tokens@.len(),
        ensures
            final(self).tokens == old(self).tokens,
            old(self).position <= final(self).position <= old(self).tokens@.len(),
            r matches Ok(t) ==> spec_parsed_wf(*t) && old(self).position < final(self).position
                && (*t matches Node::Variable(vc, _, vslot) && vc@.len() == 0 && vslot is None),
            match r {
                Ok(t) => spec_current(old(self))@ matches TokenV::Identifier(nm)
                    && !spec_reserved(nm) && (*t matches Node::Variable(_, name, _) && name@
                    == nm),
                Err(e) => match spec_current(old(self))@ {
                    TokenV::Identifier(nm) => spec_reserved(nm) && e@
                        == crate::errors::ErrorV::InvalidSyntax("Reserved keyword"@),
                    _ => e@ is UnexpectedToken,
                },
            },
            parse_matches(
                spec_parse_variable(old(self).tokens.deep_view(), old(self).position as int),
                r,
                final(self).position as int,
            ),
        decreases old(self).tokens@.len() + 1 - old(self).position, 1int,
    {
        proof {
            lemma_token_deep_view(&self.tokens);
        }
        let t = self.current_token();
        match t {
            Token::Identifier(name) => {
                if is_reserved_word(&name) {
                    return Err(self.invalid_syntax_err("Reserved keyword"));
                }
                self.advance();
                let ghost nm = name@;
                let node = Node::Variable(Vec::new(), name, None);
                proof {
                    assert(children_views(node_children(node), 0) =~= Seq::<NodeV>::empty());
                    assert(node_view(node) == NodeV::Variable(Seq::empty(), nm, None));
                }
                Ok(Box::new(node))
            },
            _ => Err(self.unexpected_token_err()),
        }
    }

    /// Parse a string literal node.  Succeeds exactly on a string token,
    /// whose text the node keeps.
    fn parse_string(&mut self) -> (r: Result<ExprTree, ScriptingError>)
        requires
            old(self).position <= old(self).tokens@.len(),
        ensures
            final(self).tokens == old(self).tokens,
            old(self).position <= final(self).position <= old(self).tokens@.len(),
            r matches Ok(t) ==> spec_parsed_wf(*t) && old(self).position < final(self).position
                && *t is String,
            match r {
                Ok(t) => spec_current(old(self))@ matches TokenV::StringLit(text) && (*t
                    matches Node::String(s) && s@ == text),
                Err(e) => !(spec_current(old(self))@ is StringLit) && e@
                    == crate::errors::ErrorV::InvalidSyntax(
                    "Invalid string, expected string literal"@,
                ),
            },
            parse_matches(
                spec_parse_string(old(self).tokens.deep_view(), old(self).position as int),
                r,
                final(self).position as int,
            ),
        decreases old(self).tokens@.len() + 1 - old(self).position, 1int,
    {
        proof {
            lemma_token_deep_view(&self.tokens);
        }
        let t = self.current_token();
        match t {
            Token::String(text) => {
                self.advance();
                Ok(Box::new(Node::String(text)))
            },
            _ => Err(self.invalid_syntax_err("Invalid string, expected string literal")),
        }
    }

    /// Parse `lhs = expr ;` into an assignment node.
    #[verifier::spinoff_prover]
    #[verifier::rlimit(100)]
    fn parse_assign(&mut self, lhs: ExprTree) -> (r: Result<ExprTree, ScriptingError>)
        requires
            old(self).position <= old(self).tokens@.len(),
            spec_current(old(self))@ == Token::Assign@,
            spec_parsed_wf(*lhs),
            *lhs matches Node::Variable(vc, _, vslot) && vc@.len() == 0 && vslot is None,
        ensures
            final(self).tokens == old(self).tokens,
            old(self).position <= final(self).position <= old(self).tokens@.len(),
            r matches Ok(t) ==> spec_parsed_wf(*t) && old(self).position < final(self).position,
            parse_matches(
                spec_parse_assign(
                    old(self).tokens.deep_view(),
                    old(self).position as int,
                    node_view(*lhs),
                ),
                r,
                final(self).position as int,
            ),
        decreases old(self).tokens@.len() + 1 - old(self).position, 8int,
    {
        proof {
            lemma_token_deep_view(&self.tokens);
        }
        let ghost dv = self.tokens.deep_view();
        let ghost p0 = self.position as int;
        let ghost lv = node_view(*lhs);
        self.advance();
        let rhs = match self.parse_expr() {
            Ok(e) => e,
            Err(e) => {
                return Err(e);
            },
        };
        proof {
            lemma_token_deep_view(&self.tokens);
            assert(spec_cur(dv, self.position as int) == spec_current(self)@);
        }
        match self.expect_token(&Token::Semicolon) {
            Ok(()) => {},
            Err(e) => {
                return Err(e);
            },
        }
        self.advance();
        let ghost rv = node_view(*rhs);
        let mut children: Vec<ExprTree> = Vec::new();
        children.push(lhs);
        children.push(rhs);
        proof {
            lemma_children_views_index(children@, 0);
            assert(children_views(children@, 0) =~= seq![lv, rv]);
        }
        let node = Node::Assign(children);
        proof {
            lemma_wf_seq_from_forall(node_children(node), 0);
        }
        Ok(Box::new(node))
    }

    /// Parse a numeric or boolean literal.  A boolean token becomes `True`
    /// or `False`; a numeric token keeps its bits.
    fn parse_constant(&mut self) -> (r: Result<ExprTree, ScriptingError>)
        requires
            old(self).position <= old(self).tokens@.len(),
        ensures
            final(self).tokens == old(self).tokens,
            old(self).position <= final(self).position <= old(self).tokens@.len(),
            r matches Ok(t) ==> spec_parsed_wf(*t) && old(self).position < final(self).position,
            match r {
                Ok(t) => match spec_current(old(self))@ {
                    TokenV::Value(_, Some(true)) => *t is True,
                    TokenV::Value(_, Some(false)) => *t is False,
                    TokenV::Value(Some(v), None) => *t == Node::Constant(v),
                    _ => false,
                },
                Err(e) => !(spec_current(old(self))@ matches TokenV::Value(v, b) && (b is Some
                    || v is Some)) && e@ == crate::errors::ErrorV::InvalidSyntax(
                    "Invalid constant"@,
                ),
            },
            parse_matches(
                spec_parse_constant(old(self).tokens.deep_view(), old(self).position as int),
                r,
                final(self).position as int,
            ),
        decreases old(self).tokens@.len() + 1 - old(self).position, 1int,
    {
        proof {
            lemma_token_deep_view(&self.tokens);
        }
        let t = self.current_token();
        match t {
            Token::Value(value, boolean) => {
                match boolean {
                    Some(true) => {
                        self.advance();
                        Ok(Box::new(Node::True))
                    },
                    Some(false) => {
                        self.advance();
                        Ok(Box::new(Node::False))
                    },
                    None => match value {
                        Some(v) => {
                            self.advance();
                            Ok(Box::new(Node::Constant(v)))
                        },
                        None => Err(self.invalid_syntax_err("Invalid constant")),
                    },
                }
            },
            _ => Err(self.invalid_syntax_err("Invalid constant")),
        }
    }

    /// Parse the condition list of an `if`: comparisons joined left to
    /// right by `and`/`or` into one boolean tree.
    #[verifier::spinoff_prover]
    #[verifier::rlimit(100)]
    fn parse_conditions(&mut self) -> (r: Result<Vec<ExprTree>, ScriptingError>)
        requires
            old(self).position <= old(self).tokens@.len(),
        ensures
            final(self).tokens == old(self).tokens,
            old(self).position <= final(self).position <= old(self).tokens@.len(),
            r matches Ok(c) ==> old(self).position < final(self).position && c@.len() == 1
                && spec_parsed_wf(*c@[0]),
            parse_matches_seq(
                spec_parse_conditions(old(self).tokens.deep_view(), old(self).position as int),
                r,
                final(self).position as int,
            ),
        decreases old(self).tokens@.len() + 1 - old(self).position, 8int,
    {
        proof {
            lemma_token_deep_view(&self.tokens);
        }
        let ghost dv = self.tokens.deep_view();
        let ghost p0 = self.position as int;
        let mut condition = match self.parse_condition_element() {
            Ok(c) => c,
            Err(e) => {
                return Err(e);
            },
        };
        proof {
            assert(spec_parse_conditions(dv, p0) == spec_conditions_rest(
                dv,
                self.position as int,
                node_view(*condition),
            ));
        }
        loop
            invariant
                dv == old(self).tokens.deep_view(),
                p0 == old(self).position as int,
                self.tokens == old(self).tokens,
                p0 < self.position <= self.tokens@.len(),
                spec_parsed_wf(*condition),
                spec_parse_conditions(dv, p0) == spec_conditions_rest(
                    dv,
                    self.position as int,
                    node_view(*condition),
                ),
            ensures
                self.tokens == old(self).tokens,
                p0 < self.position <= self.tokens@.len(),
                spec_parsed_wf(*condition),
                spec_parse_conditions(dv, p0) == (PSeqStep {
                    out: Ok(seq![node_view(*condition)]),
                    next: self.position as int,
                }),
            decreases self.tokens@.len() - self.position,
        {
            let ghost entry = self.position as int;
            let ghost lv = node_view(*condition);
            proof {
                lemma_token_deep_view(&self.tokens);
            }
            let t = self.current_token();
            let is_and = match t {
                Token::And => true,
                Token::Or => false,
                _ => {
                    break ;
                },
            };
            self.advance();
            let rhs = match self.parse_condition_element() {
                Ok(c) => c,
                Err(e) => {
                    return Err(e);
                },
            };
            let ghost rv = node_view(*rhs);
            let mut pair: Vec<ExprTree> = Vec::new();
            pair.push(condition);
            pair.push(rhs);
            proof {
                lemma_children_views_index(pair@, 0);
                assert(children_views(pair@, 0) =~= seq![lv, rv]);
            }
            let joined = if is_and {
                Node::And(pair)
            } else {
                Node::Or(pair)
            };
            proof {
                lemma_wf_seq_from_forall(node_children(joined), 0);
            }
            condition = Box::new(joined);
            proof {
                assert(spec_conditions_rest(dv, entry, lv) == spec_conditions_rest(
                    dv,
                    self.position as int,
                    node_view(*condition),
                ));
            }
        }
        let ghost cv = node_view(*condition);
        let mut conditions: Vec<ExprTree> = Vec::new();
        conditions.push(condition);
        proof {
            lemma_children_views_index(conditions@, 0);
            assert(children_views(conditions@, 0) =~= seq![cv]);
        }
        Ok(conditions)
    }

    /// Parse one comparison: `expr <cmp> expr`.
    #[verifier::spinoff_prover]
    #[verifier::rlimit(100)]
    fn parse_condition_element(&mut self) -> (r: Result<ExprTree, ScriptingError>)
        requires
            old(self).position <= old(self).tokens@.len(),
        ensures
            final(self).tokens == old(self).tokens,
            old(self).position <= final(self).position <= old(self).tokens@.len(),
            r matches Ok(t) ==> spec_parsed_wf(*t) && old(self).position < final(self).position,
            parse_matches(
                spec_parse_condition_element(
                    old(self).tokens.deep_view(),
                    old(self).position as int,
                ),
                r,
                final(self).position as int,
            ),
        decreases old(self).tokens@.len() + 1 - old(self).position, 7int,
    {
        proof {
            lemma_token_deep_view(&self.tokens);
        }
        let ghost dv = self.tokens.deep_view();
        let ghost p0 = self.position as int;
        let lhs = match self.parse_expr_l2() {
            Ok(e) => e,
            Err(e) => {
                return Err(e);
            },
        };
        let ghost lv = node_view(*lhs);
        proof {
            lemma_token_deep_view(&self.tokens);
        }
        let comparator = self.current_token();
        let kind: u8 = match comparator {
            Token::Equal => 0,
            Token::NotEqual => 1,
            Token::Superior => 2,
            Token::Inferior => 3,
            Token::SuperiorOrEqual => 4,
            Token::InferiorOrEqual => 5,
            _ => {
                return Err(self.invalid_syntax_err("Expected comparison operator"));
            },
        };
        self.advance();
        let rhs = match self.parse_expr_l2() {
            Ok(e) => e,
            Err(e) => {
                return Err(e);
            },
        };
        let ghost rv = node_view(*rhs);
        let mut pair: Vec<ExprTree> = Vec::new();
        pair.push(lhs);
        pair.push(rhs);
        proof {
            lemma_children_views_index(pair@, 0);
            assert(children_views(pair@, 0) =~= seq![lv, rv]);
        }
        let node = if kind == 0 {
            Node::Equal(pair)
        } else if kind == 1 {
            Node::NotEqual(pair)
        } else if kind == 2 {
            Node::Superior(pair)
        } else if kind == 3 {
            Node::Inferior(pair)
        } else if kind == 4 {
            Node::SuperiorOrEqual(pair)
        } else {
            Node::InferiorOrEqual(pair)
        };
        proof {
            lemma_wf_seq_from_forall(node_children(node), 0);
        }
        Ok(Box::new(node))
    }

    /// Parse a parenthesized, comma-separated argument list.
    #[verifier::spinoff_prover]
    #[verifier::rlimit(100)]
    fn parse_function_args(&mut self) -> (r: Result<Vec<ExprTree>, ScriptingError>)
        requires
            old(self).position <= old(self).tokens@.len(),
        ensures
            final(self).tokens == old(self).tokens,
            old(self).position <= final(self).position <= old(self).tokens@.len(),
            r matches Ok(c) ==> old(self).position < final(self).position && (forall|j: int|
                0 <= j < c@.len() ==> spec_parsed_wf(*c@[j])),
            parse_matches_seq(
                spec_parse_args(old(self).tokens.deep_view(), old(self).position as int),
                r,
                final(self).position as int,
            ),
        decreases old(self).tokens@.len() + 1 - old(self).position, 2int,
    {
        proof {
            lemma_token_deep_view(&self.tokens);
        }
        let ghost dv = self.tokens.deep_view();
        let ghost p0 = self.position as int;
        proof {
            assert(spec_cur(dv, p0) == spec_current(self)@);
        }
        match self.expect_token(&Token::OpenParen) {
            Ok(()) => {},
            Err(e) => {
                return Err(e);
            },
        }
        self.advance();
        let mut args: Vec<ExprTree> = Vec::new();
        proof {
            assert(children_views(args@, 0) =~= Seq::<NodeV>::empty());
            lemma_prepend_empty(spec_args_loop(dv, self.position as int));
            assert(spec_parse_args(dv, p0) == p_prepend(
                children_views(args@, 0),
                spec_args_loop(dv, self.position as int),
            ));
        }
        loop
            invariant
                dv == old(self).tokens.deep_view(),
                p0 == old(self).position as int,
                self.tokens == old(self).tokens,
                p0 < self.position <= self.tokens@.len(),
                forall|j: int| 0 <= j < args@.len() ==> spec_parsed_wf(*args@[j]),
                spec_parse_args(dv, p0) == p_prepend(
                    children_views(args@, 0),
                    spec_args_loop(dv, self.position as int),
                ),
            decreases self.tokens@.len() - self.position,
        {
            let ghost entry = self.position as int;
            let ghost before = children_views(args@, 0);
            proof {
                lemma_token_deep_view(&self.tokens);
            }
            let t = self.current_token();
            proof {
                assert(spec_cur(dv, entry) == t@);
            }
            match t {
                Token::CloseParen => {
                    proof {
                        assert(spec_args_loop(dv, entry) == (PSeqStep {
                            out: Ok(Seq::<NodeV>::empty()),
                            next: entry,
                        }));
                        assert(before + Seq::<NodeV>::empty() =~= before);
                    }
                    return Ok(args);
                },
                _ => {},
            }
            let arg = match self.parse_expr() {
                Ok(e) => e,
                Err(e) => {
                    return Err(e);
                },
            };
            let ghost av = node_view(*arg);
            let ghost argb = arg;
            let ghost mpos = self.position as int;
            let ghost before_boxes = args@;
            args.push(arg);
            proof {
                lemma_children_views_push(before_boxes, argb);
            }
            let t2 = self.current_token();
            proof {
                lemma_token_deep_view(&self.tokens);
                assert(spec_cur(dv, mpos) == t2@);
            }
            match t2 {
                Token::Comma => {
                    self.advance();
                    proof {
                        assert(spec_cur(dv, entry) != TokenV::CloseParen);
                        assert(spec_cur(dv, mpos) == TokenV::Comma);
                        assert(self.position as int == spec_advance_tok(dv, mpos));
                        assert(spec_args_loop(dv, entry) == p_prepend(
                            seq![av],
                            spec_args_loop(dv, self.position as int),
                        ));
                        lemma_prepend_cons(before, av, spec_args_loop(dv, self.position as int));
                    }
                },
                Token::CloseParen => {
                    proof {
                        assert(spec_cur(dv, entry) != TokenV::CloseParen);
                        assert(spec_cur(dv, mpos) == TokenV::CloseParen);
                        assert(spec_args_loop(dv, entry) == (PSeqStep {
                            out: Ok(seq![av]),
                            next: mpos,
                        }));
                        assert(before + seq![av] =~= children_views(args@, 0));
                    }
                    return Ok(args);
                },
                _ => {
                    return Err(self.invalid_syntax_err("Expected comma or closing parenthesis"));
                },
            }
        }
    }

    /// Parse an atom: a literal, a string, a call of `ln`, `exp`, `pow`,
    /// `min`, `max` or `spot`, or a variable.
    #[verifier::spinoff_prover]
    #[verifier::rlimit(100)]
    fn parse_var_const_func(&mut self) -> (r: Result<ExprTree, ScriptingError>)
        requires
            old(self).position <= old(self).tokens@.len(),
        ensures
            final(self).tokens == old(self).tokens,
            old(self).position <= final(self).position <= old(self).tokens@.len(),
            r matches Ok(t) ==> spec_parsed_wf(*t) && old(self).position < final(self).position,
            parse_matches(
                spec_parse_var_const_func(old(self).tokens.deep_view(), old(self).position as int),
                r,
                final(self).position as int,
            ),
        decreases old(self).tokens@.len() + 1 - old(self).position, 3int,
    {
        proof {
            lemma_token_deep_view(&self.tokens);
        }
        let ghost dv = self.tokens.deep_view();
        let ghost p0 = self.position as int;
        let t = self.current_token();
        proof {
            assert(spec_cur(dv, p0) == t@);
        }
        match t {
            Token::Value(_, _) => self.parse_constant(),
            Token::String(_) => self.parse_string(),
            Token::Identifier(name) => {
                // Function calls are told apart by the identifier's text at
                // atom position; each has its arity checked after parsing.
                let fn_kind: u8 = if str_is(&name, "ln") {
                    1
                } else if str_is(&name, "exp") {
                    2
                } else if str_is(&name, "pow") {
                    3
                } else if str_is(&name, "min") {
                    4
                } else if str_is(&name, "max") {
                    5
                } else if str_is(&name, "spot") {
                    6
                } else {
                    0
                };
                if fn_kind == 0 {
                    return self.parse_variable();
                }
                if fn_kind == 6 {
                    return self.parse_spot();
                }
                proof {
                    reveal_strlit("ln");
                    reveal_strlit("exp");
                    reveal_strlit("pow");
                    reveal_strlit("min");
                    reveal_strlit("max");
                    reveal_strlit("spot");
                    assert("ln"@.len() == 2);
                    assert("exp"@.len() == 3);
                    assert("pow"@.len() == 3);
                    assert("min"@.len() == 3);
                    assert("max"@.len() == 3);
                    assert("spot"@.len() == 4);
                    assert("exp"@[0] == 'e');
                    assert("pow"@[0] == 'p');
                    assert("min"@[0] == 'm');
                    assert("max"@[0] == 'm');
                    assert("min"@[1] == 'i');
                    assert("max"@[1] == 'a');
                    assert(name@ != "spot"@);
                }
                self.advance();
                let args = match self.parse_function_args() {
                    Ok(a) => a,
                    Err(e) => {
                        return Err(e);
                    },
                };
                let ghost apos = self.position as int;
                proof {
                    lemma_token_deep_view(&self.tokens);
                    lemma_children_views_index(args@, 0);
                    assert(spec_cur(dv, apos) == spec_current(self)@);
                }
                match self.expect_token(&Token::CloseParen) {
                    Ok(()) => {},
                    Err(e) => {
                        return Err(e);
                    },
                }
                self.advance();
                let min_args: usize = if fn_kind == 3 || fn_kind == 4 || fn_kind == 5 {
                    2
                } else {
                    1
                };
                let max_args: usize = if fn_kind == 4 || fn_kind == 5 {
                    100
                } else if fn_kind == 3 {
                    2
                } else {
                    1
                };
                if args.len() < min_args || args.len() > max_args {
                    return Err(self.invalid_syntax_err("Invalid number of arguments"));
                }
                let node = if fn_kind == 1 {
                    Node::Ln(args)
                } else if fn_kind == 2 {
                    Node::Exp(args)
                } else if fn_kind == 3 {
                    Node::Pow(args)
                } else if fn_kind == 4 {
                    Node::Min(args)
                } else {
                    Node::Max(args)
                };
                proof {
                    lemma_wf_seq_from_forall(node_children(node), 0);
                }
                Ok(Box::new(node))
            },
            _ => Err(self.unexpected_token_err()),
        }
    }

    /// Parse `spot("CCY")` into a market quote request for the named
    /// currency; a code that is not three uppercase letters is rejected.
    #[verifier::spinoff_prover]
    fn parse_spot(&mut self) -> (r: Result<ExprTree, ScriptingError>)
        requires
            old(self).position <= old(self).tokens@.len(),
        ensures
            final(self).tokens == old(self).tokens,
            old(self).position <= final(self).position <= old(self).tokens@.len(),
            r matches Ok(t) ==> spec_parsed_wf(*t) && old(self).position < final(self).position
                && (*t matches Node::Spot(cur, sl) && sl is None && cur.wf()),
            parse_matches(
                spec_parse_spot(old(self).tokens.deep_view(), old(self).position as int),
                r,
                final(self).position as int,
            ),
        decreases old(self).tokens@.len() + 1 - old(self).position, 2int,
    {
        proof {
            lemma_token_deep_view(&self.tokens);
        }
        let ghost dv = self.tokens.deep_view();
        let ghost p0 = self.position as int;
        let t = self.current_token();
        proof {
            assert(spec_cur(dv, p0) == t@);
        }
        match t {
            Token::Identifier(_) => {},
            _ => {
                return Err(self.unexpected_token_err());
            },
        }
        self.advance();
        let ghost p1 = self.position as int;
        proof {
            lemma_token_deep_view(&self.tokens);
            assert(spec_cur(dv, p1) == spec_current(self)@);
        }
        match self.expect_token(&Token::OpenParen) {
            Ok(()) => {},
            Err(e) => {
                return Err(e);
            },
        }
        self.advance();
        let text = match self.parse_string() {
            Ok(b) => b,
            Err(e) => {
                return Err(e);
            },
        };
        let ghost tpos = self.position as int;
        let ghost sv = node_view(*text);
        let code: String = match *text {
            Node::String(s2) => s2,
            _ => {
                return Err(self.invalid_syntax_err("Invalid argument, expected string"));
            },
        };
        let chars = chars_of_str(code.as_str());
        let currency = match Currency::from_code(&chars) {
            Some(c) => c,
            None => {
                return Err(self.invalid_syntax_err("Invalid currency"));
            },
        };
        proof {
            assert(sv == NodeV::StringLit(code@));
            assert(currency == (Currency { c0: code@[0], c1: code@[1], c2: code@[2] }));
        }
        proof {
            lemma_token_deep_view(&self.tokens);
            assert(spec_cur(dv, tpos) == spec_current(self)@);
        }
        match self.expect_token(&Token::CloseParen) {
            Ok(()) => {},
            Err(e) => {
                return Err(e);
            },
        }
        self.advance();
        Ok(Box::new(Node::Spot(currency, None)))
    }

    /// Parse additive precedence: `expr_l2 ((+ | - | and | or) expr_l2)*`,
    /// left associative.
    #[verifier::spinoff_prover]
    #[verifier::rlimit(100)]
    fn parse_expr(&mut self) -> (r: Result<ExprTree, ScriptingError>)
        requires
            old(self).position <= old(self).tokens@.len(),
        ensures
            final(self).tokens == old(self).tokens,
            old(self).position <= final(self).position <= old(self).tokens@.len(),
            r matches Ok(t) ==> spec_parsed_wf(*t) && old(self).position < final(self).position,
            parse_matches(
                spec_parse_expr(old(self).tokens.deep_view(), old(self).position as int),
                r,
                final(self).position as int,
            ),
        decreases old(self).tokens@.len() + 1 - old(self).position, 6int,
    {
        proof {
            lemma_token_deep_view(&self.tokens);
        }
        let ghost dv = self.tokens.deep_view();
        let ghost p0 = self.position as int;
        let mut lhs = match self.parse_expr_l2() {
            Ok(e) => e,
            Err(e) => {
                return Err(e);
            },
        };
        proof {
            assert(spec_parse_expr(dv, p0) == spec_expr_rest(dv, self.position as int, node_view(*lhs)));
        }
        loop
            invariant
                dv == old(self).tokens.deep_view(),
                p0 == old(self).position as int,
                self.tokens == old(self).tokens,
                p0 < self.position <= self.tokens@.len(),
                spec_parsed_wf(*lhs),
                spec_parse_expr(dv, p0) == spec_expr_rest(dv, self.position as int, node_view(*lhs)),
            ensures
                self.tokens == old(self).tokens,
                p0 < self.position <= self.tokens@.len(),
                spec_parsed_wf(*lhs),
                spec_parse_expr(dv, p0) == p_ok(node_view(*lhs), self.position as int),
            decreases self.tokens@.len() - self.position,
        {
            let ghost entry = self.position as int;
            let ghost lv = node_view(*lhs);
            proof {
                lemma_token_deep_view(&self.tokens);
            }
            let t = self.current_token();
            let kind: u8 = match t {
                Token::Plus => 0,
                Token::Minus => 1,
                Token::And => 2,
                Token::Or => 3,
                _ => {
                    break ;
                },
            };
            self.advance();
            let t2 = self.current_token();
            proof {
                lemma_token_deep_view(&self.tokens);
            }
            match t2 {
                Token::EOF => {
                    return Err(self.invalid_syntax_err("Unexpected end of expression"));
                },
                _ => {},
            }
            let rhs = match self.parse_expr_l2() {
                Ok(e) => e,
                Err(e) => {
                    return Err(e);
                },
            };
            let ghost rv = node_view(*rhs);
            let mut pair: Vec<ExprTree> = Vec::new();
            pair.push(lhs);
            pair.push(rhs);
            proof {
                lemma_children_views_index(pair@, 0);
                assert(children_views(pair@, 0) =~= seq![lv, rv]);
            }
            let node = if kind == 0 {
                Node::Add(pair)
            } else if kind == 1 {
                Node::Subtract(pair)
            } else if kind == 2 {
                Node::And(pair)
            } else {
                Node::Or(pair)
            };
            proof {
                lemma_wf_seq_from_forall(node_children(node), 0);
            }
            lhs = Box::new(node);
            proof {
                assert(spec_expr_rest(dv, entry, lv) == spec_expr_rest(
                    dv,
                    self.position as int,
                    node_view(*lhs),
                ));
            }
        }
        Ok(lhs)
    }

    /// Parse multiplicative precedence: `expr_l3 ((* | /) expr_l3)*`, left
    /// associative.
    #[verifier::spinoff_prover]
    #[verifier::rlimit(100)]
    fn parse_expr_l2(&mut self) -> (r: Result<ExprTree, ScriptingError>)
        requires
            old(self).position <= old(self).tokens@.len(),
        ensures
            final(self).tokens == old(self).tokens,
            old(self).position <= final(self).position <= old(self).tokens@.len(),
            r matches Ok(t) ==> spec_parsed_wf(*t) && old(self).position < final(self).position,
            parse_matches(
                spec_parse_expr_l2(old(self).tokens.deep_view(), old(self).position as int),
                r,
                final(self).position as int,
            ),
        decreases old(self).tokens@.len() + 1 - old(self).position, 5int,
    {
        proof {
            lemma_token_deep_view(&self.tokens);
        }
        let ghost dv = self.tokens.deep_view();
        let ghost p0 = self.position as int;
        let mut lhs = match self.parse_expr_l3() {
            Ok(e) => e,
            Err(e) => {
                return Err(e);
            },
        };
        proof {
            assert(spec_parse_expr_l2(dv, p0) == spec_l2_rest(dv, self.position as int, node_view(*lhs)));
        }
        loop
            invariant
                dv == old(self).tokens.deep_view(),
                p0 == old(self).position as int,
                self.tokens == old(self).tokens,
                p0 < self.position <= self.tokens@.len(),
                spec_parsed_wf(*lhs),
                spec_parse_expr_l2(dv, p0) == spec_l2_rest(dv, self.position as int, node_view(*lhs)),
            ensures
                self.tokens == old(self).tokens,
                p0 < self.position <= self.tokens@.len(),
                spec_parsed_wf(*lhs),
                spec_parse_expr_l2(dv, p0) == p_ok(node_view(*lhs), self.position as int),
            decreases self.tokens@.len() - self.position,
        {
            let ghost entry = self.position as int;
            let ghost lv = node_view(*lhs);
            proof {
                lemma_token_deep_view(&self.tokens);
            }
            let t = self.current_token();
            let is_mul = match t {
                Token::Multiply => true,
                Token::Divide => false,
                _ => {
                    break ;
                },
            };
            self.advance();
            let t2 = self.current_token();
            proof {
                lemma_token_deep_view(&self.tokens);
            }
            match t2 {
                Token::EOF => {
                    return Err(self.invalid_syntax_err("Unexpected end of expression"));
                },
                _ => {},
            }
            let rhs = match self.parse_expr_l3() {
                Ok(e) => e,
                Err(e) => {
                    return Err(e);
                },
            };
            let ghost rv = node_view(*rhs);
            let mut pair: Vec<ExprTree> = Vec::new();
            pair.push(lhs);
            pair.push(rhs);
            proof {
                lemma_children_views_index(pair@, 0);
                assert(children_views(pair@, 0) =~= seq![lv, rv]);
            }
            let node = if is_mul {
                Node::Multiply(pair)
            } else {
                Node::Divide(pair)
            };
            proof {
                lemma_wf_seq_from_forall(node_children(node), 0);
            }
            lhs = Box::new(node);
            proof {
                assert(spec_l2_rest(dv, entry, lv) == spec_l2_rest(
                    dv,
                    self.position as int,
                    node_view(*lhs),
                ));
            }
        }
        Ok(lhs)
    }

    /// Parse power precedence: `atom (** atom)*`, left associative by
    /// construction.
    #[verifier::spinoff_prover]
    #[verifier::rlimit(100)]
    fn parse_expr_l3(&mut self) -> (r: Result<ExprTree, ScriptingError>)
        requires
            old(self).position <= old(self).tokens@.len(),
        ensures
            final(self).tokens == old(self).tokens,
            old(self).position <= final(self).position <= old(self).tokens@.len(),
            r matches Ok(t) ==> spec_parsed_wf(*t) && old(self).position < final(self).position,
            parse_matches(
                spec_parse_expr_l3(old(self).tokens.deep_view(), old(self).position as int),
                r,
                final(self).position as int,
            ),
        decreases old(self).tokens@.len() + 1 - old(self).position, 4int,
    {
        proof {
            lemma_token_deep_view(&self.tokens);
        }
        let ghost dv = self.tokens.deep_view();
        let ghost p0 = self.position as int;
        let mut lhs = match self.parse_var_const_func() {
            Ok(e) => e,
            Err(e) => {
                return Err(e);
            },
        };
        proof {
            assert(spec_parse_expr_l3(dv, p0) == spec_l3_rest(dv, self.position as int, node_view(*lhs)));
        }
        loop
            invariant
                dv == old(self).tokens.deep_view(),
                p0 == old(self).position as int,
                self.tokens == old(self).tokens,
                p0 < self.position <= self.tokens@.len(),
                spec_parsed_wf(*lhs),
                spec_parse_expr_l3(dv, p0) == spec_l3_rest(dv, self.position as int, node_view(*lhs)),
            ensures
                self.tokens == old(self).tokens,
                p0 < self.position <= self.tokens@.len(),
                spec_parsed_wf(*lhs),
                spec_parse_expr_l3(dv, p0) == p_ok(node_view(*lhs), self.position as int),
            decreases self.tokens@.len() - self.position,
        {
            let ghost entry = self.position as int;
            let ghost lv = node_view(*lhs);
            proof {
                lemma_token_deep_view(&self.tokens);
            }
            let t = self.current_token();
            match t {
                Token::Power => {},
                _ => {
                    break ;
                },
            }
            self.advance();
            let t2 = self.current_token();
            proof {
                lemma_token_deep_view(&self.tokens);
            }
            match t2 {
                Token::EOF => {
                    return Err(self.invalid_syntax_err("Unexpected end of expression"));
                },
                _ => {},
            }
            let rhs = match self.parse_var_const_func() {
                Ok(e) => e,
                Err(e) => {
                    return Err(e);
                },
            };
            let ghost rv = node_view(*rhs);
            let mut pair: Vec<ExprTree> = Vec::new();
            pair.push(lhs);
            pair.push(rhs);
            proof {
                lemma_children_views_index(pair@, 0);
                assert(children_views(pair@, 0) =~= seq![lv, rv]);
            }
            let node = Node::Pow(pair);
            proof {
                lemma_wf_seq_from_forall(node_children(node), 0);
            }
            lhs = Box::new(node);
            proof {
                assert(spec_l3_rest(dv, entry, lv) == spec_l3_rest(
                    dv,
                    self.position as int,
                    node_view(*lhs),
                ));
            }
        }
        Ok(lhs)
    }
}

/// Parse a script's text into its expression tree: tokenize, then parse.
/// The result is exactly what the grammar model says of the lexer model's
/// tokens; either stage's rejection is handed through unchanged.
pub fn parse_script(script: String) -> (r: Result<ExprTree, ScriptingError>)
    ensures
        r matches Ok(t) ==> spec_parsed_wf(*t),
        match crate::lexer::spec_tokenize(script@, 0) {
            Err(ev) => (r matches Err(e) && e@ == ev),
            Ok(ts) => match (r, spec_parse_program(ts, 0).out) {
                (Ok(t), Ok(nv)) => node_view(*t) == nv,
                (Err(e), Err(ev)) => e@ == ev,
                _ => false,
            },
        },
{
    let mut lexer = crate::lexer::Lexer::new(script);
    let tokens = match lexer.tokenize() {
        Ok(ts) => ts,
        Err(e) => {
            return Err(e);
        },
    };
    let mut parser = Parser::new(tokens);
    parser.parse()
}

/// The token under a parser's cursor, in specification form.
pub open spec fn spec_current(p: &Parser) -> Token {
    if p.position < p.tokens@.len() {
        p.tokens@[p.position as int]
    } else {
        Token::EOF
    }
}

/// Whether the token is a newline separator.
fn is_newline(t: &Token) -> (r: bool)
    ensures
        r == (t@ == Token::Newline@),
{
    match t {
        Token::Newline => true,
        _ => false,
    }
}

/// Whether an owned identifier matches a keyword literal.
fn str_is(a: &String, b: &str) -> (r: bool)
    ensures
        r == (a@ == b@),
{
    a.eq(&b.to_owned())
}

/// The reserved words of the language, in specification form.
pub open spec fn spec_reserved(name: Seq<char>) -> bool {
    name == "if"@ || name == "else"@ || name == "and"@ || name == "or"@ || name == "true"@
        || name == "false"@ || name == "spot"@ || name == "pays"@ || name == "exp"@ || name
        == "ln"@ || name == "pow"@ || name == "min"@ || name == "max"@
}

/// The reserved words of the language, which cannot name variables.
fn is_reserved_word(name: &String) -> (r: bool)
    ensures
        r == spec_reserved(name@),
{
    str_is(name, "if") || str_is(name, "else") || str_is(name, "and") || str_is(name, "or")
        || str_is(name, "true") || str_is(name, "false") || str_is(name, "spot") || str_is(
        name,
        "pays",
    ) || str_is(name, "exp") || str_is(name, "ln") || str_is(name, "pow") || str_is(name, "min")
        || str_is(name, "max")
}

} // verus!
