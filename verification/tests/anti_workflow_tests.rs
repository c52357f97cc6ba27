use manager::create_anti_workflow;
use manager::process::{Process, Workflow};

fn p(service: &str, function: &str) -> Process {
    Process::new(service.to_string(), function.to_string())
}

#[test]
fn test_anti_workflow_empty() {
    let w = Workflow::new();
    let anti = create_anti_workflow(&w);
    assert!(anti.entries.is_empty());
}

#[test]
fn test_anti_workflow_chain() {
    let a = p("svc", "a");
    let b = p("svc", "b");
    let c = p("svc", "c");
    let mut w = Workflow::new();
    w.insert(a.clone(), vec![b.clone()]);
    w.insert(b.clone(), vec![c.clone()]);

    let anti = create_anti_workflow(&w);
    assert_eq!(anti.get(&b), Some(&vec![a.clone()]));
    assert_eq!(anti.get(&c), Some(&vec![b.clone()]));
    assert_eq!(anti.get(&a), None);
}

#[test]
fn test_anti_workflow_fan_in_accumulates() {
    let a = p("svc", "a");
    let b = p("svc", "b");
    let c = p("svc", "c");
    let mut w = Workflow::new();
    w.insert(a.clone(), vec![c.clone()]);
    w.insert(b.clone(), vec![c.clone()]);

    let anti = create_anti_workflow(&w);
    assert_eq!(anti.get(&c), Some(&vec![a.clone(), b.clone()]));
}

#[test]
fn test_anti_workflow_duplicate_edges_preserved() {
    let a = p("svc", "a");
    let b = p("svc", "b");
    let mut w = Workflow::new();
    w.insert(a.clone(), vec![b.clone(), b.clone()]);

    let anti = create_anti_workflow(&w);
    assert_eq!(anti.get(&b), Some(&vec![a.clone(), a.clone()]));
}

#[test]
fn test_anti_workflow_round_trip() {
    let a = p("svc", "a");
    let b = p("svc", "b");
    let c = p("svc", "c");
    let mut w = Workflow::new();
    w.insert(a.clone(), vec![b.clone()]);
    w.insert(b.clone(), vec![c.clone()]);

    let back = create_anti_workflow(&create_anti_workflow(&w));
    assert_eq!(back.get(&a), Some(&vec![b.clone()]));
    assert_eq!(back.get(&b), Some(&vec![c.clone()]));
    assert_eq!(back.get(&c), None);
}
