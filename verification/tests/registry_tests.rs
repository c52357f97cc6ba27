use manager::create_anti_workflow;
use manager::process::{Process, Workflow, WorkflowTriple};
use manager::registry::Workflows;

fn p(service: &str, function: &str) -> Process {
    Process::new(service.to_string(), function.to_string())
}

fn triple_with_edge(src: &Process, tgt: &Process, version: &str) -> WorkflowTriple {
    let mut w = Workflow::new();
    w.insert(src.clone(), vec![tgt.clone()]);
    let anti = create_anti_workflow(&w);
    WorkflowTriple::new(w, anti, version.to_string())
}

fn empty_triple(version: &str) -> WorkflowTriple {
    WorkflowTriple::new(Workflow::new(), Workflow::new(), version.to_string())
}

#[test]
fn test_register_first_wins() {
    let a = p("svc", "a");
    let b = p("svc", "b");
    let mut reg = Workflows::new();
    reg.register("flow".to_string(), triple_with_edge(&a, &b, "v1"));
    reg.register("flow".to_string(), empty_triple("v1"));

    let stored = reg.get(&"flow".to_string(), &"v1".to_string()).unwrap();
    assert_eq!(stored.workflow.get(&a), Some(&vec![b.clone()]));
}

#[test]
fn test_register_distinct_versions_survive() {
    let a = p("svc", "a");
    let b = p("svc", "b");
    let mut reg = Workflows::new();
    reg.register("flow".to_string(), triple_with_edge(&a, &b, "v1"));
    reg.register("flow".to_string(), empty_triple("v2"));

    let first = reg.get(&"flow".to_string(), &"v1".to_string()).unwrap();
    assert_eq!(first.workflow.get(&a), Some(&vec![b.clone()]));
    let second = reg.get(&"flow".to_string(), &"v2".to_string()).unwrap();
    assert_eq!(second.workflow.get(&a), None);
}

#[test]
fn test_latest_version_is_maximum() {
    let mut reg = Workflows::new();
    reg.register("flow".to_string(), empty_triple("v2"));
    reg.register("flow".to_string(), empty_triple("v3"));
    reg.register("flow".to_string(), empty_triple("v1"));

    assert_eq!(reg.latest_version(&"flow".to_string()), Some("v3".to_string()));
}

#[test]
fn test_latest_version_order_is_lexicographic() {
    let mut reg = Workflows::new();
    reg.register("flow".to_string(), empty_triple("v10"));
    reg.register("flow".to_string(), empty_triple("v2"));

    // Byte-wise lexicographic order: "v2" sorts after "v10".
    assert_eq!(reg.latest_version(&"flow".to_string()), Some("v2".to_string()));
}

#[test]
fn test_latest_version_unknown_name() {
    let mut reg = Workflows::new();
    reg.register("flow".to_string(), empty_triple("v1"));
    assert_eq!(reg.latest_version(&"other".to_string()), None);
}

#[test]
fn test_get_unknown_version() {
    let mut reg = Workflows::new();
    reg.register("flow".to_string(), empty_triple("v1"));
    assert!(reg.get(&"flow".to_string(), &"v2".to_string()).is_none());
}
