use labkit::circuit::{CircuitTree, MyError, Node, NodeFunction};

fn house() -> CircuitTree {
    let mut t = CircuitTree::new();
    t.add("-", Node::new("g1", NodeFunction::Generator(false))).unwrap();
    t.add("g1", Node::new("s1", NodeFunction::Switch(true))).unwrap();
    t.add("g1", Node::new("s2", NodeFunction::Switch(false))).unwrap();
    t.add("s1", Node::new("l1", NodeFunction::Light)).unwrap();
    t.add("s2", Node::new("l2", NodeFunction::Light)).unwrap();
    t
}

#[test]
fn node_toggles() {
    let mut n = Node::new("s", NodeFunction::Switch(false));
    assert!(!n.is_toggle_on());
    assert_eq!(n.toggle(), Ok(()));
    assert!(n.is_toggle_on());
    let mut g = Node::new("g", NodeFunction::Generator(true));
    assert_eq!(g.toggle(), Ok(()));
    assert!(!g.is_toggle_on());
    let mut l = Node::new("l", NodeFunction::Light);
    assert!(l.is_toggle_on());
    assert_eq!(l.toggle(), Err(MyError::OperationNotSupported));
    assert!(l.is_toggle_on());
}

#[test]
fn tree_finds_nodes_by_name() {
    let t = house();
    assert!(t.get("g1").is_some());
    assert!(t.get("l2").is_some());
    assert!(t.get("l3").is_none());
    assert!(t.get("-").is_none());
    assert!(!t.get("s2").unwrap().is_toggle_on());
}

#[test]
fn tree_refuses_a_node_under_a_parent_that_is_not_there() {
    let mut t = house();
    assert_eq!(
        t.add("nowhere", Node::new("x", NodeFunction::Light)),
        Err(MyError::NodeNotFound)
    );
    assert!(t.get("x").is_none());
}

#[test]
fn light_is_lit_when_all_before_it_is_on() {
    let mut t = house();
    assert_eq!(t.light_status("l1"), Ok(false));
    assert_eq!(t.light_status("l2"), Ok(false));
    assert_eq!(t.light_status("s1"), Err(MyError::OperationNotSupported));
    assert_eq!(t.light_status("none"), Err(MyError::NodeNotFound));
    assert_eq!(t.turn_light_on("l1"), Ok(()));
    assert_eq!(t.light_status("l1"), Ok(true));
    assert_eq!(t.light_status("l2"), Ok(false));
    assert!(t.get("g1").unwrap().is_toggle_on());
    assert!(t.get("s1").unwrap().is_toggle_on());
    assert!(!t.get("s2").unwrap().is_toggle_on());
    assert_eq!(t.turn_light_on("l2"), Ok(()));
    assert_eq!(t.light_status("l2"), Ok(true));
    assert_eq!(t.light_status("l1"), Ok(true));
}

#[test]
fn only_lights_are_turned_on() {
    let mut t = house();
    assert_eq!(t.turn_light_on("s2"), Err(MyError::OperationNotSupported));
    assert_eq!(t.turn_light_on("none"), Err(MyError::NodeNotFound));
    assert!(!t.get("g1").unwrap().is_toggle_on());
}

#[test]
fn a_light_without_anything_before_it_is_lit() {
    let mut t = CircuitTree::new();
    t.add("-", Node::new("l", NodeFunction::Light)).unwrap();
    assert_eq!(t.light_status("l"), Ok(true));
}

#[test]
fn of_two_nodes_with_one_name_the_later_is_found() {
    let mut t = house();
    t.add("s2", Node::new("l1", NodeFunction::Light)).unwrap();
    assert_eq!(t.light_status("l1"), Ok(false));
    t.turn_light_on("l1").unwrap();
    assert!(t.get("s2").unwrap().is_toggle_on());
    assert!(t.get("s1").unwrap().is_toggle_on());
}

#[test]
fn a_tree_is_built_from_a_text() {
    let text = "G g1 - off\nS s1 g1 on\nS s2 g1 off\r\nL l1 s1\n  L   l2\ts2 \n";
    let mut t = CircuitTree::from_text(text).unwrap();
    assert_eq!(t.light_status("l1"), Ok(false));
    assert!(t.get("s1").unwrap().is_toggle_on());
    assert!(!t.get("s2").unwrap().is_toggle_on());
    assert_eq!(t.turn_light_on("l2"), Ok(()));
    assert_eq!(t.light_status("l1"), Ok(true));
    assert_eq!(t.light_status("l2"), Ok(true));
    assert!(CircuitTree::from_text("").unwrap().get("g1").is_none());
}

#[test]
fn a_text_that_builds_no_tree_is_refused() {
    assert!(CircuitTree::from_text("G g1 -\n").is_none());
    assert!(CircuitTree::from_text("L l1\n").is_none());
    assert!(CircuitTree::from_text("X g1 - on\n").is_none());
    assert!(CircuitTree::from_text("G g1 - on\n\nL l1 g1\n").is_none());
    assert!(CircuitTree::from_text("L l1 g1\n").is_none());
    assert!(CircuitTree::from_text("g g1 - on\n").is_none());
}

#[test]
fn a_state_other_than_on_is_off() {
    let t = CircuitTree::from_text("G g1 - ON\nS s1 g1 yes more words\n").unwrap();
    assert!(!t.get("g1").unwrap().is_toggle_on());
    assert!(!t.get("s1").unwrap().is_toggle_on());
}
