use lefi::indexer::EventIndexer;
use lefi::market::{Currency, Date};
use lefi::nodes::Node;

fn currency(code: &str) -> Currency {
    let chars: Vec<char> = code.chars().collect();
    Currency::from_code(&chars).unwrap()
}

fn slot_of(indexer: &EventIndexer, name: &str) -> Option<usize> {
    indexer
        .get_variable_indexes()
        .iter()
        .find(|(n, _)| n == name)
        .map(|(_, i)| *i)
}

#[test]
fn indexer_test_expression_indexer() {
    let mut indexer = EventIndexer::new();
    let mut node = Node::new_variable("x".to_string());
    indexer.visit(&mut node).unwrap();
    assert_eq!(slot_of(&indexer, "x"), Some(0));
}

#[test]
fn indexer_test_expression_indexer_multiple() {
    let mut indexer = EventIndexer::new();
    let mut node = Node::new_variable("x".to_string());
    indexer.visit(&mut node).unwrap();
    let mut node = Node::new_variable("y".to_string());
    indexer.visit(&mut node).unwrap();
    assert_eq!(slot_of(&indexer, "x"), Some(0));
    assert_eq!(slot_of(&indexer, "y"), Some(1));
}

#[test]
fn indexer_test_spot_indexer() {
    let mut indexer = EventIndexer::new();
    let mut node = Node::Spot(currency("USD"), None);
    indexer.visit(&mut node).unwrap();
    let market_requests = indexer.get_market_requests();
    assert_eq!(market_requests.len(), 1);

    let request = market_requests.get(0).unwrap();
    assert_eq!(request.id(), 0);
    assert_eq!(request.fx().unwrap().first_currency(), currency("USD"));
    assert_eq!(request.fx().unwrap().second_currency(), None);
    assert_eq!(request.fx().unwrap().reference_date(), None);
}

#[test]
fn indexer_test_spot_indexer_multiple() {
    let mut indexer = EventIndexer::new();
    let mut node = Node::Spot(currency("USD"), None);
    indexer.visit(&mut node).unwrap();
    let mut node = Node::Spot(currency("EUR"), None);
    indexer.visit(&mut node).unwrap();
    let market_requests = indexer.get_market_requests();
    assert_eq!(market_requests.len(), 2);

    let request = market_requests.get(0).unwrap();
    assert_eq!(request.id(), 0);
    assert_eq!(request.fx().unwrap().first_currency(), currency("USD"));
    assert_eq!(request.fx().unwrap().second_currency(), None);
    assert_eq!(request.fx().unwrap().reference_date(), None);

    let request = market_requests.get(1).unwrap();
    assert_eq!(request.id(), 1);
    assert_eq!(request.fx().unwrap().first_currency(), currency("EUR"));
    assert_eq!(request.fx().unwrap().second_currency(), None);
    assert_eq!(request.fx().unwrap().reference_date(), None);
}

#[test]
fn test_event_indexer_with_event_date() {
    let date = Date::empty();
    let indexer = EventIndexer::new().with_event_date(date);
    assert_eq!(indexer.current_event_date(), Some(date));
}

#[test]
fn test_event_indexer_with_local_currency() {
    let c = currency("USD");
    let indexer = EventIndexer::new().with_local_currency(c);
    assert_eq!(indexer.local_currency, Some(c));
}

#[test]
fn test_get_variable_index() {
    let mut indexer = EventIndexer::new();
    let mut node = Node::new_variable("x".to_string());
    indexer.visit(&mut node).unwrap();
    assert_eq!(indexer.get_variable_index("x"), Some(0));
}

#[test]
fn test_get_variable_name() {
    let mut indexer = EventIndexer::new();
    let mut node = Node::new_variable("x".to_string());
    indexer.visit(&mut node).unwrap();
    assert_eq!(indexer.get_variable_name(0), Some("x".to_string()));
}

#[test]
fn test_get_variables() {
    let mut indexer = EventIndexer::new();
    let mut node = Node::new_variable("x".to_string());
    indexer.visit(&mut node).unwrap();
    let mut node = Node::new_variable("y".to_string());
    indexer.visit(&mut node).unwrap();
    let variables = indexer.get_variables();
    assert!(variables.contains(&"x".to_string()));
    assert!(variables.contains(&"y".to_string()));
}

#[test]
fn test_get_variable_indexes() {
    let mut indexer = EventIndexer::new();
    let mut node = Node::new_variable("x".to_string());
    indexer.visit(&mut node).unwrap();
    let mut node = Node::new_variable("y".to_string());
    indexer.visit(&mut node).unwrap();
    assert_eq!(slot_of(&indexer, "x"), Some(0));
    assert_eq!(slot_of(&indexer, "y"), Some(1));
}

#[test]
fn test_get_variables_size() {
    let mut indexer = EventIndexer::new();
    let mut node = Node::new_variable("x".to_string());
    indexer.visit(&mut node).unwrap();
    let mut node = Node::new_variable("y".to_string());
    indexer.visit(&mut node).unwrap();
    assert_eq!(indexer.get_variables_size(), 2);
}

#[test]
fn test_pays_indexer() {
    let mut indexer = EventIndexer::new().with_event_date(Date::empty());
    let mut node = Node::new_pays();
    indexer.visit(&mut node).unwrap();
    let requests = indexer.get_market_requests();
    assert_eq!(requests.len(), 1);

    let request = requests.get(0).unwrap();
    assert_eq!(request.numerarie().unwrap().reference_date(), Date::empty());
}

#[test]
fn test_pays_without_date_is_error() {
    let mut indexer = EventIndexer::new();
    let mut node = Node::new_pays();
    let r = indexer.visit(&mut node);
    assert!(r.is_err());
    assert_eq!(indexer.get_market_requests().len(), 0);
}

#[test]
fn test_indexing_twice_changes_nothing() {
    let script = "x = 1; y = x + z; z = spot(\"USD\");".to_string();
    let mut tree = *lefi::parser::parse_script(script).unwrap();
    let mut indexer = EventIndexer::new();
    indexer.visit(&mut tree).unwrap();
    let vars_once = indexer.get_variable_indexes();
    let reqs_once = indexer.get_market_requests();
    let snapshot = tree.clone();

    indexer.visit(&mut tree).unwrap();
    assert_eq!(indexer.get_variable_indexes(), vars_once);
    assert_eq!(indexer.get_market_requests(), reqs_once);
    assert!(tree.tree_eq(&snapshot));
}

#[test]
fn test_same_name_shares_slot() {
    let script = "x = 1; y = x; x = 2;".to_string();
    let mut tree = *lefi::parser::parse_script(script).unwrap();
    let mut indexer = EventIndexer::new();
    indexer.visit(&mut tree).unwrap();
    assert_eq!(indexer.get_variables_size(), 2);
    assert_eq!(indexer.get_variable_index("x"), Some(0));
    assert_eq!(indexer.get_variable_index("y"), Some(1));
}
