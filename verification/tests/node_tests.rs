use lefi::market::Currency;
use lefi::nodes::Node;

fn vec_tree_eq(a: &Vec<Box<Node>>, b: &Vec<Box<Node>>) -> bool {
    a.len() == b.len() && a.iter().zip(b.iter()).all(|(x, y)| x.tree_eq(y))
}

fn currency(code: &str) -> Currency {
    let chars: Vec<char> = code.chars().collect();
    Currency::from_code(&chars).unwrap()
}

#[test]
fn test_new_base() {
    assert!(Node::new_base().tree_eq(&Node::Base(Vec::new())));
}

#[test]
fn test_new_add() {
    assert!(Node::new_add().tree_eq(&Node::Add(Vec::new())));
}

#[test]
fn test_new_subtract() {
    assert!(Node::new_subtract().tree_eq(&Node::Subtract(Vec::new())));
}

#[test]
fn test_new_multiply() {
    assert!(Node::new_multiply().tree_eq(&Node::Multiply(Vec::new())));
}

#[test]
fn test_new_divide() {
    assert!(Node::new_divide().tree_eq(&Node::Divide(Vec::new())));
}

#[test]
fn test_new_variable() {
    assert!(Node::new_variable("x".to_string()).tree_eq(&Node::Variable(
        Vec::new(),
        "x".to_string(),
        None
    )));
}

#[test]
fn test_new_variable_with_id() {
    assert!(Node::new_variable_with_id("x".to_string(), 42).tree_eq(&Node::Variable(
        Vec::new(),
        "x".to_string(),
        Some(42)
    )));
}

#[test]
fn test_new_min() {
    assert!(Node::new_min().tree_eq(&Node::Min(Vec::new())));
}

#[test]
fn test_new_max() {
    assert!(Node::new_max().tree_eq(&Node::Max(Vec::new())));
}

#[test]
fn test_new_exp() {
    assert!(Node::new_exp().tree_eq(&Node::Exp(Vec::new())));
}

#[test]
fn test_new_ln() {
    assert!(Node::new_ln().tree_eq(&Node::Ln(Vec::new())));
}

#[test]
fn test_new_pow() {
    assert!(Node::new_pow().tree_eq(&Node::Pow(Vec::new())));
}

#[test]
fn test_new_constant() {
    assert!(Node::new_constant(3.14f64.to_bits()).tree_eq(&Node::Constant(3.14f64.to_bits())));
}

#[test]
fn test_new_assign() {
    assert!(Node::new_assign().tree_eq(&Node::Assign(Vec::new())));
}

#[test]
fn test_new_and() {
    assert!(Node::new_and().tree_eq(&Node::And(Vec::new())));
}

#[test]
fn test_new_or() {
    assert!(Node::new_or().tree_eq(&Node::Or(Vec::new())));
}

#[test]
fn test_new_not() {
    assert!(Node::new_not().tree_eq(&Node::Not(Vec::new())));
}

#[test]
fn test_new_superior() {
    assert!(Node::new_superior().tree_eq(&Node::Superior(Vec::new())));
}

#[test]
fn test_new_inferior() {
    assert!(Node::new_inferior().tree_eq(&Node::Inferior(Vec::new())));
}

#[test]
fn test_new_superior_or_equal() {
    assert!(Node::new_superior_or_equal().tree_eq(&Node::SuperiorOrEqual(Vec::new())));
}

#[test]
fn test_new_equal() {
    assert!(Node::new_equal().tree_eq(&Node::Equal(Vec::new())));
}

#[test]
fn test_new_if() {
    assert!(Node::new_if().tree_eq(&Node::If(Vec::new(), None)));
}

#[test]
fn test_new_unary_plus() {
    assert!(Node::new_unary_plus().tree_eq(&Node::UnaryPlus(Vec::new())));
}

#[test]
fn test_new_unary_minus() {
    assert!(Node::new_unary_minus().tree_eq(&Node::UnaryMinus(Vec::new())));
}

#[test]
fn test_new_inferior_or_equal() {
    assert!(Node::new_inferior_or_equal().tree_eq(&Node::InferiorOrEqual(Vec::new())));
}

#[test]
fn test_new_not_equal() {
    assert!(Node::new_not_equal().tree_eq(&Node::NotEqual(Vec::new())));
}

#[test]
fn test_new_true() {
    assert!(Node::new_true().tree_eq(&Node::True));
}

#[test]
fn test_new_false() {
    assert!(Node::new_false().tree_eq(&Node::False));
}

#[test]
fn test_new_pays() {
    assert!(Node::new_pays().tree_eq(&Node::Pays(Vec::new(), None)));
}

#[test]
fn test_add_child_to_base() {
    let mut node = Node::new_base();
    let child = Box::new(Node::new_add());
    node.add_child(child.clone());
    assert!(vec_tree_eq(node.children(), &vec![child]));
}

#[test]
fn test_add_child_to_add() {
    let mut node = Node::new_add();
    let child = Box::new(Node::new_subtract());
    node.add_child(child.clone());
    assert!(vec_tree_eq(node.children(), &vec![child]));
}

#[test]
fn test_children_of_base() {
    let mut node = Node::new_base();
    let child = Box::new(Node::new_add());
    node.add_child(child.clone());
    assert!(vec_tree_eq(node.children(), &vec![child]));
}

#[test]
fn test_clone_is_deep_equal() {
    let tree = Node::Base(vec![
        Box::new(Node::Assign(vec![
            Box::new(Node::Variable(Vec::new(), "x".to_string(), Some(0))),
            Box::new(Node::Constant(2.5f64.to_bits())),
        ])),
        Box::new(Node::Spot(currency("EUR"), None)),
    ]);
    let copy = tree.clone();
    assert!(copy.tree_eq(&tree));
}

#[test]
fn test_tree_eq_detects_difference() {
    let a = Node::Constant(1.0f64.to_bits());
    let b = Node::Constant(2.0f64.to_bits());
    assert!(!a.tree_eq(&b));
    let v1 = Node::Variable(Vec::new(), "x".to_string(), None);
    let v2 = Node::Variable(Vec::new(), "x".to_string(), Some(0));
    assert!(!v1.tree_eq(&v2));
}
