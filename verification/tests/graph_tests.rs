use webcrawler::graph::Graph;
use webcrawler::page_node::NodeStatus;
use webcrawler::uri::Uri;

#[test]
fn add_node_is_at_most_once() {
    let mut g = Graph::new();
    let u: Uri = "https://h/a".parse().unwrap();
    assert!(g.add_node(u.clone()));
    assert!(!g.add_node(u.clone()));
    assert_eq!(g.len(), 1);
    assert!(g.get(&u).unwrap().node_status == NodeStatus::Enqueued);
}

#[test]
fn add_node_leaves_existing_status_alone() {
    let mut g = Graph::new();
    let u: Uri = "https://h/a".parse().unwrap();
    assert!(g.add_node(u.clone()));
    assert!(g.set_status(&u, NodeStatus::Success, 200, String::new()));
    assert!(!g.add_node(u.clone()));
    let n = g.get(&u).unwrap();
    assert!(n.node_status == NodeStatus::Success);
    assert_eq!(n.response_code, 200);
}

#[test]
fn set_status_needs_a_node() {
    let mut g = Graph::new();
    let u: Uri = "https://h/a".parse().unwrap();
    assert!(!g.set_status(&u, NodeStatus::Failure, 0, String::new()));
    assert!(g.get(&u).is_none());
}

#[test]
fn repeated_edge_is_recorded_once() {
    let mut g = Graph::new();
    let a: Uri = "https://h/a".parse().unwrap();
    let b: Uri = "https://h/b".parse().unwrap();
    let c: Uri = "https://h/c".parse().unwrap();
    g.add_neighbor(a.clone(), c.clone());
    g.add_neighbor(a.clone(), c.clone());
    let parents = g.parents(&c).unwrap();
    assert_eq!(parents.len(), 1);
    assert_eq!(parents[0], a);
    g.add_neighbor(b.clone(), c.clone());
    assert_eq!(g.parents(&c).unwrap().len(), 2);
}

#[test]
fn parents_empty_when_never_linked() {
    let mut g = Graph::new();
    let a: Uri = "https://h/a".parse().unwrap();
    assert!(g.parents(&a).is_none());
    g.add_node(a.clone());
    assert!(g.parents(&a).is_none());
}

#[test]
fn graph_len_and_is_empty() {
    let mut g = Graph::new();
    assert!(g.is_empty());
    assert_eq!(g.len(), 0);
    let a: Uri = "https://h/a".parse().unwrap();
    let b: Uri = "https://h/b".parse().unwrap();
    g.add_node(a);
    g.add_node(b);
    assert!(!g.is_empty());
    assert_eq!(g.len(), 2);
}

#[test]
fn get_mut_changes_a_record() {
    let mut g = Graph::new();
    let u: Uri = "https://h/a".parse().unwrap();
    g.add_node(u.clone());
    let n = g.get_mut(&u).unwrap();
    n.response_code = 42;
    assert_eq!(g.get(&u).unwrap().response_code, 42);
    let other: Uri = "https://h/b".parse().unwrap();
    assert!(g.get_mut(&other).is_none());
}
