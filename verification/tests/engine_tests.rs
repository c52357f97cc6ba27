use manager::engine::{
    apply_edit, handle_edit_batch, handle_status_batch, handle_status_report, RollbackTable,
};
use manager::models::{InboundEdit, InboundReport, Status, ToManager, ToManagerEdits};
use manager::process::{Process, Workflow};
use manager::registry::Workflows;
use manager::ManagerConfiguration;

fn p(service: &str, function: &str) -> Process {
    Process::new(service.to_string(), function.to_string())
}

fn report(name: &str, version: Option<&str>, process: &Process, status: Status) -> ToManager {
    ToManager {
        uuid: "run-0001".to_string(),
        name: name.to_string(),
        version: version.map(|v| v.to_string()),
        process: process.clone(),
        status,
        schema: "s1".to_string(),
        data: "payload".to_string(),
    }
}

fn edit(name: &str, version: &str, workflow: Workflow) -> ToManagerEdits {
    ToManagerEdits {
        name: name.to_string(),
        version: version.to_string(),
        schema: "s1".to_string(),
        workflow,
    }
}

/// Registry with the chain a -> b -> c registered as ("flow", version).
fn chain_registry(version: &str) -> (Workflows, Process, Process, Process) {
    let a = p("svc", "a");
    let b = p("svc", "b");
    let c = p("svc", "c");
    let mut w = Workflow::new();
    w.insert(a.clone(), vec![b.clone()]);
    w.insert(b.clone(), vec![c.clone()]);
    let mut reg = Workflows::new();
    apply_edit(&mut reg, edit("flow", version, w));
    (reg, a, b, c)
}

#[test]
fn test_forward_fan_out() {
    let pr = p("svc", "p");
    let q = p("svc", "q");
    let r = p("svc", "r");
    let mut w = Workflow::new();
    w.insert(pr.clone(), vec![q.clone(), r.clone()]);
    let mut reg = Workflows::new();
    apply_edit(&mut reg, edit("flow", "v1", w));

    let table = RollbackTable::new();
    let msg = report("flow", Some("v1"), &pr, Status::Success);
    let triggers = handle_status_report(&reg, &table, &msg);

    assert_eq!(triggers.len(), 2);
    assert_eq!(triggers[0].process, q);
    assert_eq!(triggers[1].process, r);
    for t in &triggers {
        assert_eq!(t.uuid, "run-0001");
        assert_eq!(t.name, "flow");
        assert_eq!(t.version, "v1");
        assert_eq!(t.data, "payload");
    }
}

#[test]
fn test_explicit_version_wins_over_later() {
    let a = p("svc", "a");
    let b = p("svc", "b");
    let c = p("svc", "c");
    let mut w1 = Workflow::new();
    w1.insert(a.clone(), vec![b.clone()]);
    let mut w2 = Workflow::new();
    w2.insert(a.clone(), vec![c.clone()]);
    let mut reg = Workflows::new();
    apply_edit(&mut reg, edit("flow", "v1", w1));
    apply_edit(&mut reg, edit("flow", "v2", w2));

    let table = RollbackTable::new();
    let msg = report("flow", Some("v1"), &a, Status::Success);
    let triggers = handle_status_report(&reg, &table, &msg);
    assert_eq!(triggers.len(), 1);
    assert_eq!(triggers[0].process, b);
    assert_eq!(triggers[0].version, "v1");
}

#[test]
fn test_missing_version_resolves_to_latest() {
    let a = p("svc", "a");
    let b = p("svc", "b");
    let c = p("svc", "c");
    let mut w1 = Workflow::new();
    w1.insert(a.clone(), vec![b.clone()]);
    let mut w2 = Workflow::new();
    w2.insert(a.clone(), vec![c.clone()]);
    let mut reg = Workflows::new();
    apply_edit(&mut reg, edit("flow", "v1", w1));
    apply_edit(&mut reg, edit("flow", "v2", w2));

    let table = RollbackTable::new();
    let msg = report("flow", None, &a, Status::Success);
    let triggers = handle_status_report(&reg, &table, &msg);
    assert_eq!(triggers.len(), 1);
    assert_eq!(triggers[0].process, c);
    assert_eq!(triggers[0].version, "v2");
}

#[test]
fn test_compensation_cascade_order() {
    let (reg, a, b, c) = chain_registry("v1");
    let mut table = RollbackTable::new();
    table.insert(a.clone(), p("svc", "undo_a"));
    table.insert(b.clone(), p("svc", "undo_b"));

    let msg = report("flow", Some("v1"), &c, Status::Failed);
    let triggers = handle_status_report(&reg, &table, &msg);

    assert_eq!(triggers.len(), 2);
    assert_eq!(triggers[0].process, p("svc", "undo_b"));
    assert_eq!(triggers[1].process, p("svc", "undo_a"));
    for t in &triggers {
        assert_eq!(t.uuid, "run-0001");
        assert_eq!(t.name, "flow");
        assert_eq!(t.version, "v1");
        assert_eq!(t.data, "payload");
    }
}

#[test]
fn test_compensation_missing_rollback_entry_traverses_on() {
    let (reg, _, b, c) = chain_registry("v1");
    let mut table = RollbackTable::new();
    // No entry for a: it is still visited, but nothing is emitted for it.
    table.insert(b.clone(), p("svc", "undo_b"));

    let msg = report("flow", Some("v1"), &c, Status::Failed);
    let triggers = handle_status_report(&reg, &table, &msg);

    assert_eq!(triggers.len(), 1);
    assert_eq!(triggers[0].process, p("svc", "undo_b"));
}

#[test]
fn test_compensation_cycle_terminates() {
    let a = p("svc", "a");
    let b = p("svc", "b");
    let mut w = Workflow::new();
    w.insert(a.clone(), vec![b.clone()]);
    w.insert(b.clone(), vec![a.clone()]);
    let mut reg = Workflows::new();
    apply_edit(&mut reg, edit("flow", "v1", w));

    let mut table = RollbackTable::new();
    table.insert(a.clone(), p("svc", "undo_a"));
    table.insert(b.clone(), p("svc", "undo_b"));

    let msg = report("flow", Some("v1"), &a, Status::Failed);
    let triggers = handle_status_report(&reg, &table, &msg);

    // The failed process itself is never compensated; each node once.
    assert_eq!(triggers.len(), 1);
    assert_eq!(triggers[0].process, p("svc", "undo_b"));
}

#[test]
fn test_compensation_diamond_compensates_once() {
    let a = p("svc", "a");
    let b = p("svc", "b");
    let c = p("svc", "c");
    let d = p("svc", "d");
    let mut w = Workflow::new();
    w.insert(a.clone(), vec![b.clone(), c.clone()]);
    w.insert(b.clone(), vec![d.clone()]);
    w.insert(c.clone(), vec![d.clone()]);
    let mut reg = Workflows::new();
    apply_edit(&mut reg, edit("flow", "v1", w));

    let mut table = RollbackTable::new();
    table.insert(a.clone(), p("svc", "undo_a"));
    table.insert(b.clone(), p("svc", "undo_b"));
    table.insert(c.clone(), p("svc", "undo_c"));

    let msg = report("flow", Some("v1"), &d, Status::Failed);
    let triggers = handle_status_report(&reg, &table, &msg);

    assert_eq!(triggers.len(), 3);
    assert_eq!(triggers[0].process, p("svc", "undo_b"));
    assert_eq!(triggers[1].process, p("svc", "undo_c"));
    assert_eq!(triggers[2].process, p("svc", "undo_a"));
}

#[test]
fn test_in_progress_emits_nothing() {
    let (reg, a, _, _) = chain_registry("v1");
    let table = RollbackTable::new();
    let msg = report("flow", Some("v1"), &a, Status::InProgress);
    assert!(handle_status_report(&reg, &table, &msg).is_empty());
}

#[test]
fn test_unregistered_name_is_skipped() {
    let (reg, a, b, _) = chain_registry("v1");
    let table = RollbackTable::new();

    let miss = report("other", Some("v1"), &a, Status::Success);
    assert!(handle_status_report(&reg, &table, &miss).is_empty());

    // Subsequent messages are still processed.
    let ok = report("flow", Some("v1"), &a, Status::Success);
    let triggers = handle_status_report(&reg, &table, &ok);
    assert_eq!(triggers.len(), 1);
    assert_eq!(triggers[0].process, b);
}

#[test]
fn test_unknown_version_is_skipped() {
    let (reg, a, _, _) = chain_registry("v1");
    let table = RollbackTable::new();
    let msg = report("flow", Some("v9"), &a, Status::Success);
    assert!(handle_status_report(&reg, &table, &msg).is_empty());
}

#[test]
fn test_unknown_process_node_is_skipped() {
    let (reg, _, _, _) = chain_registry("v1");
    let table = RollbackTable::new();
    let msg = report("flow", Some("v1"), &p("svc", "stranger"), Status::Success);
    assert!(handle_status_report(&reg, &table, &msg).is_empty());
}

#[test]
fn test_no_version_and_no_registration_is_skipped() {
    let reg = Workflows::new();
    let table = RollbackTable::new();
    let msg = report("flow", None, &p("svc", "a"), Status::Success);
    assert!(handle_status_report(&reg, &table, &msg).is_empty());
}

#[test]
fn test_malformed_message_in_batch() {
    let (reg, a, b, _) = chain_registry("v1");
    let table = RollbackTable::new();

    let batch = vec![
        InboundReport::Report(report("flow", Some("v1"), &a, Status::Success)),
        InboundReport::Malformed,
        InboundReport::Report(report("flow", Some("v1"), &b, Status::Success)),
    ];
    let triggers = handle_status_batch(&reg, &table, &batch);

    assert_eq!(triggers.len(), 2);
    assert_eq!(triggers[0].process, b);
    assert_eq!(triggers[1].process, p("svc", "c"));
}

#[test]
fn test_edit_batch_registers_and_skips_malformed() {
    let a = p("svc", "a");
    let b = p("svc", "b");
    let mut w1 = Workflow::new();
    w1.insert(a.clone(), vec![b.clone()]);
    let mut w2 = Workflow::new();
    w2.insert(b.clone(), vec![a.clone()]);

    let mut reg = Workflows::new();
    let batch = vec![
        InboundEdit::Edit(edit("flow", "v1", w1)),
        InboundEdit::Malformed,
        // Same (name, version) again: the first registration wins.
        InboundEdit::Edit(edit("flow", "v1", w2)),
    ];
    handle_edit_batch(&mut reg, batch);

    let stored = reg.get(&"flow".to_string(), &"v1".to_string()).unwrap();
    assert_eq!(stored.workflow.get(&a), Some(&vec![b.clone()]));
    assert_eq!(stored.workflow.get(&b), None);
    // The derived compensation graph was registered along with it.
    assert_eq!(stored.anti_workflow.get(&b), Some(&vec![a.clone()]));
}

#[test]
fn test_configuration_holds_rollback_table() {
    let a = p("svc", "a");
    let mut table = RollbackTable::new();
    table.insert(a.clone(), p("svc", "undo_a"));
    let config = ManagerConfiguration {
        hosts: vec!["localhost:9092".to_string()],
        rollback_functions: table,
    };
    assert_eq!(config.hosts.len(), 1);
    assert_eq!(config.rollback_functions.get(&a), Some(&p("svc", "undo_a")));
}
