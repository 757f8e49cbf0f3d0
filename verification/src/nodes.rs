use vstd::prelude::*;

use crate::market::Currency;

verus! {

pub type ExprTree = Box<Node>;

/// One node of the expression tree.  Parents exclusively own their children;
/// a tree has no sharing and no cycles.  `Variable`, `Spot` and `Pays` carry a
/// slot that starts out `None` and is written exactly once by the indexer.
///
/// `If` packs condition, then-block and else-block into one children list:
/// children[0] is the condition, children[1 .. else_index] (or to the end) is
/// the then-block, children[else_index ..] the else-block when present.
///
/// A `Constant` carries the bit pattern of an IEEE-754 double.
#[derive(Debug)]
pub enum Node {
    Base(Vec<ExprTree>),
    // variables
    Variable(Vec<ExprTree>, String, Option<usize>),
    Constant(u64),
    String(String),
    // financial
    Spot(Currency, Option<usize>),
    Pays(Vec<ExprTree>, Option<usize>),
    // math
    Add(Vec<ExprTree>),
    Subtract(Vec<ExprTree>),
    Multiply(Vec<ExprTree>),
    Divide(Vec<ExprTree>),
    Assign(Vec<ExprTree>),
    Min(Vec<ExprTree>),
    Max(Vec<ExprTree>),
    Exp(Vec<ExprTree>),
    Pow(Vec<ExprTree>),
    Ln(Vec<ExprTree>),
    // unary
    UnaryPlus(Vec<ExprTree>),
    UnaryMinus(Vec<ExprTree>),
    // logic
    True,
    False,
    Equal(Vec<ExprTree>),
    NotEqual(Vec<ExprTree>),
    And(Vec<ExprTree>),
    Or(Vec<ExprTree>),
    Not(Vec<ExprTree>),
    Superior(Vec<ExprTree>),
    Inferior(Vec<ExprTree>),
    SuperiorOrEqual(Vec<ExprTree>),
    InferiorOrEqual(Vec<ExprTree>),
    // control flow
    If(Vec<ExprTree>, Option<usize>),
}

/// The nodes that own a children list.  `Spot`, `True`, `False`, `Constant`
/// and `String` are leaves: they never hold children.
pub open spec fn spec_has_children(n: Node) -> bool {
    !(n matches Node::Spot(_, _) || n matches Node::True || n matches Node::False
        || n matches Node::Constant(_) || n matches Node::String(_))
}

/// The children list of a node, empty for leaves.
pub open spec fn node_children(n: Node) -> Seq<Box<Node>> {
    match n {
        Node::Base(c) => c@,
        Node::Variable(c, _, _) => c@,
        Node::Constant(_) => Seq::empty(),
        Node::String(_) => Seq::empty(),
        Node::Spot(_, _) => Seq::empty(),
        Node::Pays(c, _) => c@,
        Node::Add(c) => c@,
        Node::Subtract(c) => c@,
        Node::Multiply(c) => c@,
        Node::Divide(c) => c@,
        Node::Assign(c) => c@,
        Node::Min(c) => c@,
        Node::Max(c) => c@,
        Node::Exp(c) => c@,
        Node::Pow(c) => c@,
        Node::Ln(c) => c@,
        Node::UnaryPlus(c) => c@,
        Node::UnaryMinus(c) => c@,
        Node::True => Seq::empty(),
        Node::False => Seq::empty(),
        Node::Equal(c) => c@,
        Node::NotEqual(c) => c@,
        Node::And(c) => c@,
        Node::Or(c) => c@,
        Node::Not(c) => c@,
        Node::Superior(c) => c@,
        Node::Inferior(c) => c@,
        Node::SuperiorOrEqual(c) => c@,
        Node::InferiorOrEqual(c) => c@,
        Node::If(c, _) => c@,
    }
}

/// A node is structurally above its own children list.
pub proof fn lemma_node_children_decreases(n: Node)
    requires
        spec_has_children(n),
    ensures
        decreases_to!(n => node_children(n)),
{
    match n {
        Node::Base(c) => {
            assert(decreases_to!(n => n->Base_0));
            assert(decreases_to!(n->Base_0 => n->Base_0@));
        },
        Node::Variable(c, _, _) => {
            assert(decreases_to!(n => n->Variable_0));
            assert(decreases_to!(n->Variable_0 => n->Variable_0@));
        },
        Node::Constant(_) => {},
        Node::String(_) => {},
        Node::Spot(_, _) => {},
        Node::Pays(c, _) => {
            assert(decreases_to!(n => n->Pays_0));
            assert(decreases_to!(n->Pays_0 => n->Pays_0@));
        },
        Node::Add(c) => {
            assert(decreases_to!(n => n->Add_0));
            assert(decreases_to!(n->Add_0 => n->Add_0@));
        },
        Node::Subtract(c) => {
            assert(decreases_to!(n => n->Subtract_0));
            assert(decreases_to!(n->Subtract_0 => n->Subtract_0@));
        },
        Node::Multiply(c) => {
            assert(decreases_to!(n => n->Multiply_0));
            assert(decreases_to!(n->Multiply_0 => n->Multiply_0@));
        },
        Node::Divide(c) => {
            assert(decreases_to!(n => n->Divide_0));
            assert(decreases_to!(n->Divide_0 => n->Divide_0@));
        },
        Node::Assign(c) => {
            assert(decreases_to!(n => n->Assign_0));
            assert(decreases_to!(n->Assign_0 => n->Assign_0@));
        },
        Node::Min(c) => {
            assert(decreases_to!(n => n->Min_0));
            assert(decreases_to!(n->Min_0 => n->Min_0@));
        },
        Node::Max(c) => {
            assert(decreases_to!(n => n->Max_0));
            assert(decreases_to!(n->Max_0 => n->Max_0@));
        },
        Node::Exp(c) => {
            assert(decreases_to!(n => n->Exp_0));
            assert(decreases_to!(n->Exp_0 => n->Exp_0@));
        },
        Node::Pow(c) => {
            assert(decreases_to!(n => n->Pow_0));
            assert(decreases_to!(n->Pow_0 => n->Pow_0@));
        },
        Node::Ln(c) => {
            assert(decreases_to!(n => n->Ln_0));
            assert(decreases_to!(n->Ln_0 => n->Ln_0@));
        },
        Node::UnaryPlus(c) => {
            assert(decreases_to!(n => n->UnaryPlus_0));
            assert(decreases_to!(n->UnaryPlus_0 => n->UnaryPlus_0@));
        },
        Node::UnaryMinus(c) => {
            assert(decreases_to!(n => n->UnaryMinus_0));
            assert(decreases_to!(n->UnaryMinus_0 => n->UnaryMinus_0@));
        },
        Node::True => {},
        Node::False => {},
        Node::Equal(c) => {
            assert(decreases_to!(n => n->Equal_0));
            assert(decreases_to!(n->Equal_0 => n->Equal_0@));
        },
        Node::NotEqual(c) => {
            assert(decreases_to!(n => n->NotEqual_0));
            assert(decreases_to!(n->NotEqual_0 => n->NotEqual_0@));
        },
        Node::And(c) => {
            assert(decreases_to!(n => n->And_0));
            assert(decreases_to!(n->And_0 => n->And_0@));
        },
        Node::Or(c) => {
            assert(decreases_to!(n => n->Or_0));
            assert(decreases_to!(n->Or_0 => n->Or_0@));
        },
        Node::Not(c) => {
            assert(decreases_to!(n => n->Not_0));
            assert(decreases_to!(n->Not_0 => n->Not_0@));
        },
        Node::Superior(c) => {
            assert(decreases_to!(n => n->Superior_0));
            assert(decreases_to!(n->Superior_0 => n->Superior_0@));
        },
        Node::Inferior(c) => {
            assert(decreases_to!(n => n->Inferior_0));
            assert(decreases_to!(n->Inferior_0 => n->Inferior_0@));
        },
        Node::SuperiorOrEqual(c) => {
            assert(decreases_to!(n => n->SuperiorOrEqual_0));
            assert(decreases_to!(n->SuperiorOrEqual_0 => n->SuperiorOrEqual_0@));
        },
        Node::InferiorOrEqual(c) => {
            assert(decreases_to!(n => n->InferiorOrEqual_0));
            assert(decreases_to!(n->InferiorOrEqual_0 => n->InferiorOrEqual_0@));
        },
        Node::If(c, _) => {
            assert(decreases_to!(n => n->If_0));
            assert(decreases_to!(n->If_0 => n->If_0@));
        },
    }
}

/// A node is structurally above each child, so recursion over children
/// terminates.
pub proof fn lemma_node_child_decreases(n: Node, i: int)
    requires
        0 <= i < node_children(n).len(),
    ensures
        decreases_to!(n => *node_children(n)[i]),
{
    assert(spec_has_children(n));
    lemma_node_children_decreases(n);
    vstd::seq::axiom_seq_index_decreases(node_children(n), i);
    assert(decreases_to!(n => *node_children(n)[i]));
}

/// Deep structural equality of two trees: same variant, same payload, and
/// pairwise equal children.
pub open spec fn spec_tree_eq(a: Node, b: Node) -> bool
    decreases a,
{
    match (a, b) {
        (Node::Base(x), Node::Base(y)) => spec_children_eq(x@, y@, 0),
        (Node::Variable(x, n1, s1), Node::Variable(y, n2, s2)) => n1@ == n2@ && s1 == s2
            && spec_children_eq(x@, y@, 0),
        (Node::Constant(v1), Node::Constant(v2)) => v1 == v2,
        (Node::String(s1), Node::String(s2)) => s1@ == s2@,
        (Node::Spot(c1, s1), Node::Spot(c2, s2)) => c1 == c2 && s1 == s2,
        (Node::Pays(x, s1), Node::Pays(y, s2)) => s1 == s2 && spec_children_eq(x@, y@, 0),
        (Node::Add(x), Node::Add(y)) => spec_children_eq(x@, y@, 0),
        (Node::Subtract(x), Node::Subtract(y)) => spec_children_eq(x@, y@, 0),
        (Node::Multiply(x), Node::Multiply(y)) => spec_children_eq(x@, y@, 0),
        (Node::Divide(x), Node::Divide(y)) => spec_children_eq(x@, y@, 0),
        (Node::Assign(x), Node::Assign(y)) => spec_children_eq(x@, y@, 0),
        (Node::Min(x), Node::Min(y)) => spec_children_eq(x@, y@, 0),
        (Node::Max(x), Node::Max(y)) => spec_children_eq(x@, y@, 0),
        (Node::Exp(x), Node::Exp(y)) => spec_children_eq(x@, y@, 0),
        (Node::Pow(x), Node::Pow(y)) => spec_children_eq(x@, y@, 0),
        (Node::Ln(x), Node::Ln(y)) => spec_children_eq(x@, y@, 0),
        (Node::UnaryPlus(x), Node::UnaryPlus(y)) => spec_children_eq(x@, y@, 0),
        (Node::UnaryMinus(x), Node::UnaryMinus(y)) => spec_children_eq(x@, y@, 0),
        (Node::True, Node::True) => true,
        (Node::False, Node::False) => true,
        (Node::Equal(x), Node::Equal(y)) => spec_children_eq(x@, y@, 0),
        (Node::NotEqual(x), Node::NotEqual(y)) => spec_children_eq(x@, y@, 0),
        (Node::And(x), Node::And(y)) => spec_children_eq(x@, y@, 0),
        (Node::Or(x), Node::Or(y)) => spec_children_eq(x@, y@, 0),
        (Node::Not(x), Node::Not(y)) => spec_children_eq(x@, y@, 0),
        (Node::Superior(x), Node::Superior(y)) => spec_children_eq(x@, y@, 0),
        (Node::Inferior(x), Node::Inferior(y)) => spec_children_eq(x@, y@, 0),
        (Node::SuperiorOrEqual(x), Node::SuperiorOrEqual(y)) => spec_children_eq(x@, y@, 0),
        (Node::InferiorOrEqual(x), Node::InferiorOrEqual(y)) => spec_children_eq(x@, y@, 0),
        (Node::If(x, e1), Node::If(y, e2)) => e1 == e2 && spec_children_eq(x@, y@, 0),
        _ => false,
    }
}

/// Pairwise equality of two children lists from position `i` on.
pub open spec fn spec_children_eq(x: Seq<Box<Node>>, y: Seq<Box<Node>>, i: int) -> bool
    decreases x, x.len() - i,
{
    if x.len() != y.len() {
        false
    } else if i < 0 {
        false
    } else if i >= x.len() {
        true
    } else {
        spec_tree_eq(*x[i], *y[i]) && spec_children_eq(x, y, i + 1)
    }
}

pub proof fn lemma_children_eq_from(x: Seq<Box<Node>>, y: Seq<Box<Node>>, i: int)
    requires
        0 <= i <= x.len(),
    ensures
        spec_children_eq(x, y, i) <==> (x.len() == y.len() && forall|j: int|
            i <= j < x.len() ==> spec_tree_eq(*x[j], *y[j])),
    decreases x.len() - i,
{
    if x.len() == y.len() && i < x.len() {
        lemma_children_eq_from(x, y, i + 1);
    }
}

impl Node {
    /// Append a child to this node's children list.  Leaves cannot take
    /// children.
    pub fn add_child(&mut self, child: ExprTree)
        requires
            spec_has_children(*old(self)),
        ensures
            node_children(*final(self)) == node_children(*old(self)).push(child),
            same_shape(*old(self), *final(self)),
    {
        match self {
            Node::Base(children) => children.push(child),
            Node::Add(children) => children.push(child),
            Node::Subtract(children) => children.push(child),
            Node::Multiply(children) => children.push(child),
            Node::Divide(children) => children.push(child),
            Node::Variable(children, _, _) => children.push(child),
            Node::Assign(children) => children.push(child),
            Node::And(children) => children.push(child),
            Node::Or(children) => children.push(child),
            Node::Not(children) => children.push(child),
            Node::Superior(children) => children.push(child),
            Node::Inferior(children) => children.push(child),
            Node::SuperiorOrEqual(children) => children.push(child),
            Node::InferiorOrEqual(children) => children.push(child),
            Node::Equal(children) => children.push(child),
            Node::If(children, _) => children.push(child),
            Node::UnaryPlus(children) => children.push(child),
            Node::UnaryMinus(children) => children.push(child),
            Node::Min(children) => children.push(child),
            Node::Max(children) => children.push(child),
            Node::Exp(children) => children.push(child),
            Node::Ln(children) => children.push(child),
            Node::Pow(children) => children.push(child),
            Node::NotEqual(children) => children.push(child),
            Node::Pays(children, _) => children.push(child),
            Node::Spot(_, _) => unreached(),
            Node::True => unreached(),
            Node::False => unreached(),
            Node::Constant(_) => unreached(),
            Node::String(_) => unreached(),
        }
    }

    /// The children of this node.  Leaves have none to give.
    pub fn children(&self) -> (r: &Vec<ExprTree>)
        requires
            spec_has_children(*self),
        ensures
            r@ == node_children(*self),
    {
        match self {
            Node::Base(children) => children,
            Node::Add(children) => children,
            Node::Subtract(children) => children,
            Node::Multiply(children) => children,
            Node::Divide(children) => children,
            Node::Variable(children, _, _) => children,
            Node::Assign(children) => children,
            Node::And(children) => children,
            Node::Or(children) => children,
            Node::Not(children) => children,
            Node::Superior(children) => children,
            Node::Inferior(children) => children,
            Node::SuperiorOrEqual(children) => children,
            Node::InferiorOrEqual(children) => children,
            Node::Equal(children) => children,
            Node::If(children, _) => children,
            Node::UnaryPlus(children) => children,
            Node::UnaryMinus(children) => children,
            Node::Min(children) => children,
            Node::Max(children) => children,
            Node::Exp(children) => children,
            Node::Ln(children) => children,
            Node::Pow(children) => children,
            Node::NotEqual(children) => children,
            Node::Pays(children, _) => children,
            Node::Spot(_, _) => unreached(),
            Node::True => unreached(),
            Node::False => unreached(),
            Node::Constant(_) => unreached(),
            Node::String(_) => unreached(),
        }
    }

    /// Deep structural equality with another tree.
    pub fn tree_eq(&self, other: &Node) -> (r: bool)
        ensures
            r == spec_tree_eq(*self, *other),
        decreases *self, 1int,
    {
        match (self, other) {
            (Node::Base(x), Node::Base(y)) => children_eq(self, x, y),
            (Node::Variable(x, n1, s1), Node::Variable(y, n2, s2)) => n1.eq(n2) && opt_usize_eq(
                s1,
                s2,
            ) && children_eq(self, x, y),
            (Node::Constant(v1), Node::Constant(v2)) => v1 == v2,
            (Node::String(s1), Node::String(s2)) => s1.eq(s2),
            (Node::Spot(c1, s1), Node::Spot(c2, s2)) => c1 == c2 && opt_usize_eq(s1, s2),
            (Node::Pays(x, s1), Node::Pays(y, s2)) => opt_usize_eq(s1, s2) && children_eq(
                self,
                x,
                y,
            ),
            (Node::Add(x), Node::Add(y)) => children_eq(self, x, y),
            (Node::Subtract(x), Node::Subtract(y)) => children_eq(self, x, y),
            (Node::Multiply(x), Node::Multiply(y)) => children_eq(self, x, y),
            (Node::Divide(x), Node::Divide(y)) => children_eq(self, x, y),
            (Node::Assign(x), Node::Assign(y)) => children_eq(self, x, y),
            (Node::Min(x), Node::Min(y)) => children_eq(self, x, y),
            (Node::Max(x), Node::Max(y)) => children_eq(self, x, y),
            (Node::Exp(x), Node::Exp(y)) => children_eq(self, x, y),
            (Node::Pow(x), Node::Pow(y)) => children_eq(self, x, y),
            (Node::Ln(x), Node::Ln(y)) => children_eq(self, x, y),
            (Node::UnaryPlus(x), Node::UnaryPlus(y)) => children_eq(self, x, y),
            (Node::UnaryMinus(x), Node::UnaryMinus(y)) => children_eq(self, x, y),
            (Node::True, Node::True) => true,
            (Node::False, Node::False) => true,
            (Node::Equal(x), Node::Equal(y)) => children_eq(self, x, y),
            (Node::NotEqual(x), Node::NotEqual(y)) => children_eq(self, x, y),
            (Node::And(x), Node::And(y)) => children_eq(self, x, y),
            (Node::Or(x), Node::Or(y)) => children_eq(self, x, y),
            (Node::Not(x), Node::Not(y)) => children_eq(self, x, y),
            (Node::Superior(x), Node::Superior(y)) => children_eq(self, x, y),
            (Node::Inferior(x), Node::Inferior(y)) => children_eq(self, x, y),
            (Node::SuperiorOrEqual(x), Node::SuperiorOrEqual(y)) => children_eq(self, x, y),
            (Node::InferiorOrEqual(x), Node::InferiorOrEqual(y)) => children_eq(self, x, y),
            (Node::If(x, e1), Node::If(y, e2)) => opt_usize_eq(e1, e2) && children_eq(self, x, y),
            _ => false,
        }
    }
}

impl Node {
    pub fn new_base() -> (n: Node)
        ensures
            n matches Node::Base(c) && c@.len() == 0,
    {
        Node::Base(Vec::new())
    }

    pub fn new_add() -> (n: Node)
        ensures
            n matches Node::Add(c) && c@.len() == 0,
    {
        Node::Add(Vec::new())
    }

    pub fn new_subtract() -> (n: Node)
        ensures
            n matches Node::Subtract(c) && c@.len() == 0,
    {
        Node::Subtract(Vec::new())
    }

    pub fn new_multiply() -> (n: Node)
        ensures
            n matches Node::Multiply(c) && c@.len() == 0,
    {
        Node::Multiply(Vec::new())
    }

    pub fn new_divide() -> (n: Node)
        ensures
            n matches Node::Divide(c) && c@.len() == 0,
    {
        Node::Divide(Vec::new())
    }

    pub fn new_min() -> (n: Node)
        ensures
            n matches Node::Min(c) && c@.len() == 0,
    {
        Node::Min(Vec::new())
    }

    pub fn new_max() -> (n: Node)
        ensures
            n matches Node::Max(c) && c@.len() == 0,
    {
        Node::Max(Vec::new())
    }

    pub fn new_exp() -> (n: Node)
        ensures
            n matches Node::Exp(c) && c@.len() == 0,
    {
        Node::Exp(Vec::new())
    }

    pub fn new_ln() -> (n: Node)
        ensures
            n matches Node::Ln(c) && c@.len() == 0,
    {
        Node::Ln(Vec::new())
    }

    pub fn new_pow() -> (n: Node)
        ensures
            n matches Node::Pow(c) && c@.len() == 0,
    {
        Node::Pow(Vec::new())
    }

    pub fn new_assign() -> (n: Node)
        ensures
            n matches Node::Assign(c) && c@.len() == 0,
    {
        Node::Assign(Vec::new())
    }

    pub fn new_and() -> (n: Node)
        ensures
            n matches Node::And(c) && c@.len() == 0,
    {
        Node::And(Vec::new())
    }

    pub fn new_or() -> (n: Node)
        ensures
            n matches Node::Or(c) && c@.len() == 0,
    {
        Node::Or(Vec::new())
    }

    pub fn new_not() -> (n: Node)
        ensures
            n matches Node::Not(c) && c@.len() == 0,
    {
        Node::Not(Vec::new())
    }

    pub fn new_superior() -> (n: Node)
        ensures
            n matches Node::Superior(c) && c@.len() == 0,
    {
        Node::Superior(Vec::new())
    }

    pub fn new_inferior() -> (n: Node)
        ensures
            n matches Node::Inferior(c) && c@.len() == 0,
    {
        Node::Inferior(Vec::new())
    }

    pub fn new_superior_or_equal() -> (n: Node)
        ensures
            n matches Node::SuperiorOrEqual(c) && c@.len() == 0,
    {
        Node::SuperiorOrEqual(Vec::new())
    }

    pub fn new_equal() -> (n: Node)
        ensures
            n matches Node::Equal(c) && c@.len() == 0,
    {
        Node::Equal(Vec::new())
    }

    pub fn new_unary_plus() -> (n: Node)
        ensures
            n matches Node::UnaryPlus(c) && c@.len() == 0,
    {
        Node::UnaryPlus(Vec::new())
    }

    pub fn new_unary_minus() -> (n: Node)
        ensures
            n matches Node::UnaryMinus(c) && c@.len() == 0,
    {
        Node::UnaryMinus(Vec::new())
    }

    pub fn new_inferior_or_equal() -> (n: Node)
        ensures
            n matches Node::InferiorOrEqual(c) && c@.len() == 0,
    {
        Node::InferiorOrEqual(Vec::new())
    }

    pub fn new_not_equal() -> (n: Node)
        ensures
            n matches Node::NotEqual(c) && c@.len() == 0,
    {
        Node::NotEqual(Vec::new())
    }

    pub fn new_variable(name: String) -> (n: Node)
        ensures
            n matches Node::Variable(c, nm, slot) && c@.len() == 0 && nm == name && slot is None,
    {
        Node::Variable(Vec::new(), name, None)
    }

    pub fn new_variable_with_id(name: String, id: usize) -> (n: Node)
        ensures
            n matches Node::Variable(c, nm, slot) && c@.len() == 0 && nm == name && slot == Some(
                id,
            ),
    {
        Node::Variable(Vec::new(), name, Some(id))
    }

    pub fn new_constant(value: u64) -> (n: Node)
        ensures
            n == Node::Constant(value),
    {
        Node::Constant(value)
    }

    pub fn new_if() -> (n: Node)
        ensures
            n matches Node::If(c, e) && c@.len() == 0 && e is None,
    {
        Node::If(Vec::new(), None)
    }

    pub fn new_true() -> (n: Node)
        ensures
            n == Node::True,
    {
        Node::True
    }

    pub fn new_false() -> (n: Node)
        ensures
            n == Node::False,
    {
        Node::False
    }

    pub fn new_pays() -> (n: Node)
        ensures
            n matches Node::Pays(c, slot) && c@.len() == 0 && slot is None,
    {
        Node::Pays(Vec::new(), None)
    }
}

impl Clone for Node {
    /// A deep copy, structurally equal to the original.
    fn clone(&self) -> (res: Self)
        ensures
            spec_tree_eq(res, *self),
        decreases *self, 1int,
    {
        match self {
            Node::Base(c) => Node::Base(clone_children(self, c)),
            Node::Variable(c, name, slot) => Node::Variable(
                clone_children(self, c),
                name.clone(),
                clone_opt_usize(slot),
            ),
            Node::Constant(v) => Node::Constant(*v),
            Node::String(s) => Node::String(s.clone()),
            Node::Spot(cur, slot) => Node::Spot(*cur, clone_opt_usize(slot)),
            Node::Pays(c, slot) => Node::Pays(clone_children(self, c), clone_opt_usize(slot)),
            Node::Add(c) => Node::Add(clone_children(self, c)),
            Node::Subtract(c) => Node::Subtract(clone_children(self, c)),
            Node::Multiply(c) => Node::Multiply(clone_children(self, c)),
            Node::Divide(c) => Node::Divide(clone_children(self, c)),
            Node::Assign(c) => Node::Assign(clone_children(self, c)),
            Node::Min(c) => Node::Min(clone_children(self, c)),
            Node::Max(c) => Node::Max(clone_children(self, c)),
            Node::Exp(c) => Node::Exp(clone_children(self, c)),
            Node::Pow(c) => Node::Pow(clone_children(self, c)),
            Node::Ln(c) => Node::Ln(clone_children(self, c)),
            Node::UnaryPlus(c) => Node::UnaryPlus(clone_children(self, c)),
            Node::UnaryMinus(c) => Node::UnaryMinus(clone_children(self, c)),
            Node::True => Node::True,
            Node::False => Node::False,
            Node::Equal(c) => Node::Equal(clone_children(self, c)),
            Node::NotEqual(c) => Node::NotEqual(clone_children(self, c)),
            Node::And(c) => Node::And(clone_children(self, c)),
            Node::Or(c) => Node::Or(clone_children(self, c)),
            Node::Not(c) => Node::Not(clone_children(self, c)),
            Node::Superior(c) => Node::Superior(clone_children(self, c)),
            Node::Inferior(c) => Node::Inferior(clone_children(self, c)),
            Node::SuperiorOrEqual(c) => Node::SuperiorOrEqual(clone_children(self, c)),
            Node::InferiorOrEqual(c) => Node::InferiorOrEqual(clone_children(self, c)),
            Node::If(c, e) => Node::If(clone_children(self, c), clone_opt_usize(e)),
        }
    }
}

/// A copy of an optional slot value.
fn clone_opt_usize(o: &Option<usize>) -> (r: Option<usize>)
    ensures
        r == *o,
{
    match o {
        Some(x) => Some(*x),
        None => None,
    }
}

/// A deep copy of the children list of `parent`.
fn clone_children(parent: &Node, c: &Vec<ExprTree>) -> (r: Vec<ExprTree>)
    requires
        node_children(*parent) == c@,
    ensures
        r@.len() == c@.len(),
        spec_children_eq(r@, c@, 0),
    decreases *parent, 0int,
{
    let mut r: Vec<ExprTree> = Vec::new();
    let mut i: usize = 0;
    while i < c.len()
        invariant
            node_children(*parent) == c@,
            i <= c@.len(),
            r@.len() == i,
            forall|j: int| 0 <= j < i ==> spec_tree_eq(*r@[j], *c@[j]),
        decreases c@.len() - i,
    {
        proof {
            lemma_node_child_decreases(*parent, i as int);
        }
        let cloned: Node = (*c[i]).clone();
        r.push(Box::new(cloned));
        i = i + 1;
    }
    proof {
        lemma_children_eq_from(r@, c@, 0);
    }
    r
}

/// Whether two optional slots hold the same value.
fn opt_usize_eq(a: &Option<usize>, b: &Option<usize>) -> (r: bool)
    ensures
        r == (a == b),
{
    match (a, b) {
        (Some(x), Some(y)) => x == y,
        (None, None) => true,
        _ => false,
    }
}

/// Pairwise equality of the children lists of `parent` (which owns `x`) and
/// another node's list `y`.
fn children_eq(parent: &Node, x: &Vec<ExprTree>, y: &Vec<ExprTree>) -> (r: bool)
    requires
        node_children(*parent) == x@,
    ensures
        r == spec_children_eq(x@, y@, 0),
    decreases *parent, 0int,
{
    if x.len() != y.len() {
        return false;
    }
    let mut i: usize = 0;
    while i < x.len()
        invariant
            node_children(*parent) == x@,
            x@.len() == y@.len(),
            i <= x@.len(),
            forall|j: int| 0 <= j < i ==> spec_tree_eq(*x@[j], *y@[j]),
        decreases x@.len() - i,
    {
        proof {
            lemma_node_child_decreases(*parent, i as int);
        }
        if !x[i].tree_eq(&y[i]) {
            proof {
                lemma_children_eq_from(x@, y@, 0);
            }
            return false;
        }
        i = i + 1;
    }
    proof {
        lemma_children_eq_from(x@, y@, 0);
    }
    true
}

/// Everything but the children list is unchanged: same variant, and the
/// payload fields (name, slot, constant, currency, else-index) are kept.
pub open spec fn same_shape(a: Node, b: Node) -> bool {
    match (a, b) {
        (Node::Base(_), Node::Base(_)) => true,
        (Node::Variable(_, n1, s1), Node::Variable(_, n2, s2)) => n1 == n2 && s1 == s2,
        (Node::Constant(v1), Node::Constant(v2)) => v1 == v2,
        (Node::String(s1), Node::String(s2)) => s1 == s2,
        (Node::Spot(c1, s1), Node::Spot(c2, s2)) => c1 == c2 && s1 == s2,
        (Node::Pays(_, s1), Node::Pays(_, s2)) => s1 == s2,
        (Node::Add(_), Node::Add(_)) => true,
        (Node::Subtract(_), Node::Subtract(_)) => true,
        (Node::Multiply(_), Node::Multiply(_)) => true,
        (Node::Divide(_), Node::Divide(_)) => true,
        (Node::Assign(_), Node::Assign(_)) => true,
        (Node::Min(_), Node::Min(_)) => true,
        (Node::Max(_), Node::Max(_)) => true,
        (Node::Exp(_), Node::Exp(_)) => true,
        (Node::Pow(_), Node::Pow(_)) => true,
        (Node::Ln(_), Node::Ln(_)) => true,
        (Node::UnaryPlus(_), Node::UnaryPlus(_)) => true,
        (Node::UnaryMinus(_), Node::UnaryMinus(_)) => true,
        (Node::True, Node::True) => true,
        (Node::False, Node::False) => true,
        (Node::Equal(_), Node::Equal(_)) => true,
        (Node::NotEqual(_), Node::NotEqual(_)) => true,
        (Node::And(_), Node::And(_)) => true,
        (Node::Or(_), Node::Or(_)) => true,
        (Node::Not(_), Node::Not(_)) => true,
        (Node::Superior(_), Node::Superior(_)) => true,
        (Node::Inferior(_), Node::Inferior(_)) => true,
        (Node::SuperiorOrEqual(_), Node::SuperiorOrEqual(_)) => true,
        (Node::InferiorOrEqual(_), Node::InferiorOrEqual(_)) => true,
        (Node::If(_, e1), Node::If(_, e2)) => e1 == e2,
        _ => false,
    }
}


/// The mathematical shadow of [`Node`]: the same variants with children as
/// sequences and text as character sequences.  The grammar model speaks of
/// trees in this form.
pub ghost enum NodeV {
    Base(Seq<NodeV>),
    Variable(Seq<NodeV>, Seq<char>, Option<usize>),
    Constant(u64),
    StringLit(Seq<char>),
    Spot(Currency, Option<usize>),
    Pays(Seq<NodeV>, Option<usize>),
    Add(Seq<NodeV>),
    Subtract(Seq<NodeV>),
    Multiply(Seq<NodeV>),
    Divide(Seq<NodeV>),
    Assign(Seq<NodeV>),
    Min(Seq<NodeV>),
    Max(Seq<NodeV>),
    Exp(Seq<NodeV>),
    Pow(Seq<NodeV>),
    Ln(Seq<NodeV>),
    UnaryPlus(Seq<NodeV>),
    UnaryMinus(Seq<NodeV>),
    True,
    False,
    Equal(Seq<NodeV>),
    NotEqual(Seq<NodeV>),
    And(Seq<NodeV>),
    Or(Seq<NodeV>),
    Not(Seq<NodeV>),
    Superior(Seq<NodeV>),
    Inferior(Seq<NodeV>),
    SuperiorOrEqual(Seq<NodeV>),
    InferiorOrEqual(Seq<NodeV>),
    If(Seq<NodeV>, Option<usize>),
}

/// The shadow of a tree.
pub open spec fn node_view(n: Node) -> NodeV
    decreases n,
{
    match n {
        Node::Base(c) => NodeV::Base(children_views(c@, 0)),
        Node::Variable(c, name, slot) => NodeV::Variable(children_views(c@, 0), name@, slot),
        Node::Constant(v) => NodeV::Constant(v),
        Node::String(s) => NodeV::StringLit(s@),
        Node::Spot(cur, slot) => NodeV::Spot(cur, slot),
        Node::Pays(c, slot) => NodeV::Pays(children_views(c@, 0), slot),
        Node::Add(c) => NodeV::Add(children_views(c@, 0)),
        Node::Subtract(c) => NodeV::Subtract(children_views(c@, 0)),
        Node::Multiply(c) => NodeV::Multiply(children_views(c@, 0)),
        Node::Divide(c) => NodeV::Divide(children_views(c@, 0)),
        Node::Assign(c) => NodeV::Assign(children_views(c@, 0)),
        Node::Min(c) => NodeV::Min(children_views(c@, 0)),
        Node::Max(c) => NodeV::Max(children_views(c@, 0)),
        Node::Exp(c) => NodeV::Exp(children_views(c@, 0)),
        Node::Pow(c) => NodeV::Pow(children_views(c@, 0)),
        Node::Ln(c) => NodeV::Ln(children_views(c@, 0)),
        Node::UnaryPlus(c) => NodeV::UnaryPlus(children_views(c@, 0)),
        Node::UnaryMinus(c) => NodeV::UnaryMinus(children_views(c@, 0)),
        Node::True => NodeV::True,
        Node::False => NodeV::False,
        Node::Equal(c) => NodeV::Equal(children_views(c@, 0)),
        Node::NotEqual(c) => NodeV::NotEqual(children_views(c@, 0)),
        Node::And(c) => NodeV::And(children_views(c@, 0)),
        Node::Or(c) => NodeV::Or(children_views(c@, 0)),
        Node::Not(c) => NodeV::Not(children_views(c@, 0)),
        Node::Superior(c) => NodeV::Superior(children_views(c@, 0)),
        Node::Inferior(c) => NodeV::Inferior(children_views(c@, 0)),
        Node::SuperiorOrEqual(c) => NodeV::SuperiorOrEqual(children_views(c@, 0)),
        Node::InferiorOrEqual(c) => NodeV::InferiorOrEqual(children_views(c@, 0)),
        Node::If(c, e) => NodeV::If(children_views(c@, 0), e),
    }
}

/// The shadows of the children from position `i` on.
pub open spec fn children_views(c: Seq<Box<Node>>, i: int) -> Seq<NodeV>
    decreases c, c.len() - i,
{
    if 0 <= i < c.len() {
        seq![node_view(*c[i])] + children_views(c, i + 1)
    } else {
        Seq::empty()
    }
}

/// The shadow list indexes element-wise into the shadows of the children.
pub proof fn lemma_children_views_index(c: Seq<Box<Node>>, i: int)
    requires
        0 <= i <= c.len(),
    ensures
        children_views(c, i).len() == c.len() - i,
        forall|k: int|
            0 <= k < c.len() - i ==> #[trigger] children_views(c, i)[k] == node_view(*c[i + k]),
    decreases c.len() - i,
{
    if i < c.len() {
        lemma_children_views_index(c, i + 1);
        assert forall|k: int|
            0 <= k < c.len() - i implies #[trigger] children_views(c, i)[k] == node_view(
            *c[i + k],
        ) by {
            if k > 0 {
                assert(children_views(c, i)[k] == children_views(c, i + 1)[k - 1]);
            }
        }
    }
}

/// Appending a child appends its shadow.
pub proof fn lemma_children_views_push(c: Seq<Box<Node>>, x: Box<Node>)
    ensures
        children_views(c.push(x), 0) == children_views(c, 0).push(node_view(*x)),
{
    lemma_children_views_index(c, 0);
    lemma_children_views_index(c.push(x), 0);
    let lhs = children_views(c.push(x), 0);
    let rhs = children_views(c, 0).push(node_view(*x));
    assert forall|k: int| 0 <= k < lhs.len() implies lhs[k] == rhs[k] by {
        assert(lhs[k] == node_view(*c.push(x)[k]));
        if k < c.len() {
            assert(c.push(x)[k] == c[k]);
            assert(rhs[k] == children_views(c, 0)[k]);
            assert(children_views(c, 0)[k] == node_view(*c[k]));
        } else {
            assert(c.push(x)[k] == x);
        }
    }
    assert(lhs =~= rhs);
}

/// Concatenating children lists concatenates their shadows.
pub proof fn lemma_children_views_concat(a: Seq<Box<Node>>, b: Seq<Box<Node>>)
    ensures
        children_views(a + b, 0) == children_views(a, 0) + children_views(b, 0),
{
    lemma_children_views_index(a, 0);
    lemma_children_views_index(b, 0);
    lemma_children_views_index(a + b, 0);
    let lhs = children_views(a + b, 0);
    let rhs = children_views(a, 0) + children_views(b, 0);
    assert forall|k: int| 0 <= k < lhs.len() implies lhs[k] == rhs[k] by {
        assert(lhs[k] == node_view(*(a + b)[k]));
        if k < a.len() {
            assert((a + b)[k] == a[k]);
            assert(rhs[k] == children_views(a, 0)[k]);
            assert(children_views(a, 0)[k] == node_view(*a[k]));
        } else {
            assert((a + b)[k] == b[k - a.len()]);
            assert(rhs[k] == children_views(b, 0)[k - a.len()]);
            assert(children_views(b, 0)[k - a.len()] == node_view(*b[k - a.len()]));
        }
    }
    assert(lhs =~= rhs);
}

} // verus!
