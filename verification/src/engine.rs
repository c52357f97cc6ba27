use vstd::prelude::*;

use crate::anti_workflow::{anti_spec, create_anti_workflow};
use crate::models::{
    FromManager, FromManagerView, InboundEdit, InboundReport, Status, ToManager, ToManagerEdits,
    ToManagerEditsView, ToManagerView, triggers_view,
};
use crate::process::{procs_view, wf_lookup, Process, ProcessView, TripleView, Workflow, WorkflowView, WorkflowTriple};
use crate::registry::{latest_spec, reg_lookup, register_spec, RegistryView, Workflows};

verus! {

/// Mathematical model of the rollback function table: the configured pairs
/// in order, each mapping a process to its compensating process.
pub type RollbackTableView = Seq<(ProcessView, ProcessView)>;

/// The compensating process configured for `p`, if any: the first matching
/// entry decides.
pub open spec fn table_lookup(t: RollbackTableView, p: ProcessView) -> Option<ProcessView>
    decreases t.len(),
{
    if t.len() == 0 {
        None
    } else if t[0].0 == p {
        Some(t[0].1)
    } else {
        table_lookup(t.drop_first(), p)
    }
}

/// The static mapping from a process to its single compensating process,
/// loaded once from configuration and read-only afterwards.  A process
/// without an entry has no defined compensation; lookups degrade gracefully.
#[derive(Debug)]
pub struct RollbackTable {
    pub entries: Vec<(Process, Process)>,
}

impl View for RollbackTable {
    type V = RollbackTableView;

    open spec fn view(&self) -> RollbackTableView {
        self.entries@.map_values(|e: (Process, Process)| (e.0@, e.1@))
    }
}

impl RollbackTable {
    /// An empty table.
    pub fn new() -> (t: RollbackTable)
        ensures
            t@ == RollbackTableView::empty(),
    {
        RollbackTable { entries: Vec::new() }
    }

    /// Appends the pair mapping `from` to its compensating process `to`.
    pub fn insert(&mut self, from: Process, to: Process)
        ensures
            final(self)@ == old(self)@.push((from@, to@)),
    {
        let ghost t0 = self@;
        self.entries.push((from, to));
        proof {
            assert(self@ =~= t0.push((self.entries@.last().0@, self.entries@.last().1@)));
        }
    }

    /// Looks up the compensating process of `p`.
    #[verifier::loop_isolation(false)]
    pub fn get(&self, p: &Process) -> (r: Option<&Process>)
        ensures
            match r {
                Some(c) => table_lookup(self@, p@) == Some(c@),
                None => table_lookup(self@, p@) is None,
            },
    {
        proof {
            assert(self@.skip(0) =~= self@);
        }
        let mut i: usize = 0;
        while i < self.entries.len()
            invariant
                i <= self.entries.len(),
                table_lookup(self@, p@) == table_lookup(self@.skip(i as int), p@),
            decreases self.entries.len() - i,
        {
            proof {
                assert(self@.skip(i as int).drop_first() =~= self@.skip(i as int + 1));
                assert(self@.skip(i as int)[0] == self@[i as int]);
            }
            if self.entries[i].0 == *p {
                return Some(&self.entries[i].1);
            }
            i = i + 1;
        }
        None
    }
}

/// The total number of edge slots of a graph: the summed lengths of all
/// target lists.  A breadth-first compensation traversal with a visited set
/// enqueues each entry's target list at most once, so it dequeues at most
/// this many nodes in all.
pub open spec fn target_count(w: WorkflowView) -> nat
    decreases w.len(),
{
    if w.len() == 0 {
        0
    } else {
        w[0].1.len() + target_count(w.drop_first())
    }
}

/// The fuel that lets the compensation traversal of `w` run to completion:
/// one more step than the traversal can ever take.
pub open spec fn traversal_fuel(w: WorkflowView) -> nat {
    target_count(w) + 1
}

/// The compensation processes emitted by the breadth-first traversal of the
/// compensation graph `anti`, in emission order.  The head of `queue` is
/// dequeued; a node seen before is skipped, otherwise it is marked visited,
/// its configured rollback process (if any) is emitted, and its own
/// predecessors are enqueued.  `fuel` only forces the recursion to bottom
/// out; with the fuel of [`traversal_fuel`] the queue always empties first.
pub open spec fn bfs_emit(
    anti: WorkflowView,
    table: RollbackTableView,
    queue: Seq<ProcessView>,
    visited: Seq<ProcessView>,
    fuel: nat,
) -> Seq<ProcessView>
    decreases fuel,
{
    if fuel == 0 || queue.len() == 0 {
        Seq::empty()
    } else {
        let cur = queue[0];
        let rest = queue.drop_first();
        if visited.contains(cur) {
            bfs_emit(anti, table, rest, visited, (fuel - 1) as nat)
        } else {
            let preds = match wf_lookup(anti, cur) {
                Some(ps) => ps,
                None => Seq::empty(),
            };
            let tail = bfs_emit(anti, table, rest + preds, visited.push(cur), (fuel - 1) as nat);
            match table_lookup(table, cur) {
                Some(c) => seq![c] + tail,
                None => tail,
            }
        }
    }
}

/// The compensation processes triggered by a failure of `failed`: its
/// predecessors in the workflow, and theirs in turn, each compensated at
/// most once, the failed process itself never.
pub open spec fn compensation_emits(
    anti: WorkflowView,
    table: RollbackTableView,
    failed: ProcessView,
) -> Seq<ProcessView> {
    let q0 = match wf_lookup(anti, failed) {
        Some(ps) => ps,
        None => Seq::empty(),
    };
    bfs_emit(anti, table, q0, seq![failed], traversal_fuel(anti))
}

/// Membership in a pushed sequence.
proof fn lemma_contains_push(s: Seq<ProcessView>, v: ProcessView, x: ProcessView)
    ensures
        s.push(v).contains(x) == (s.contains(x) || v == x),
{
    if s.push(v).contains(x) {
        let i = choose|i: int| 0 <= i < s.push(v).len() && s.push(v)[i] == x;
        if i < s.len() {
            assert(s[i] == x);
        }
    }
    if s.contains(x) {
        let i = choose|i: int| 0 <= i < s.len() && s[i] == x;
        assert(s.push(v)[i] == x);
    }
    if v == x {
        assert(s.push(v)[s.len() as int] == x);
    }
}

/// The edge slots the traversal has not used up yet: the summed target-list
/// lengths of the entries whose key is not visited, shadowed duplicate
/// entries never counted.
spec fn remaining(anti: WorkflowView, vis: Seq<ProcessView>) -> nat
    decreases anti.len(),
{
    if anti.len() == 0 {
        0
    } else {
        (if vis.contains(anti[0].0) {
            0
        } else {
            anti[0].1.len()
        }) + remaining(anti.drop_first(), vis.push(anti[0].0))
    }
}

/// `remaining` depends only on which processes are visited.
proof fn lemma_remaining_same_members(anti: WorkflowView, vis1: Seq<ProcessView>, vis2: Seq<ProcessView>)
    requires
        forall|x: ProcessView| vis1.contains(x) == vis2.contains(x),
    ensures
        remaining(anti, vis1) == remaining(anti, vis2),
    decreases anti.len(),
{
    if anti.len() > 0 {
        let k = anti[0].0;
        assert forall|x: ProcessView|
            vis1.push(k).contains(x) == vis2.push(k).contains(x) by {
            lemma_contains_push(vis1, k, x);
            lemma_contains_push(vis2, k, x);
        }
        lemma_remaining_same_members(anti.drop_first(), vis1.push(k), vis2.push(k));
    }
}

/// The length of the out-edge list of `p`, zero when `p` has no entry.
spec fn lookup_len(anti: WorkflowView, p: ProcessView) -> nat {
    match wf_lookup(anti, p) {
        Some(ps) => ps.len(),
        None => 0,
    }
}

/// Visiting one more process frees exactly that process's edge slots.
proof fn lemma_remaining_insert(anti: WorkflowView, vis: Seq<ProcessView>, cur: ProcessView)
    requires
        !vis.contains(cur),
    ensures
        remaining(anti, vis.push(cur)) + lookup_len(anti, cur) == remaining(anti, vis),
    decreases anti.len(),
{
    if anti.len() > 0 {
        let k = anti[0].0;
        lemma_contains_push(vis, cur, k);
        if k == cur {
            assert forall|x: ProcessView|
                vis.push(cur).push(cur).contains(x) == vis.push(cur).contains(x) by {
                lemma_contains_push(vis.push(cur), cur, x);
            }
            lemma_remaining_same_members(
                anti.drop_first(),
                vis.push(cur).push(cur),
                vis.push(cur),
            );
        } else {
            lemma_contains_push(vis, k, cur);
            lemma_remaining_insert(anti.drop_first(), vis.push(k), cur);
            assert forall|x: ProcessView|
                vis.push(k).push(cur).contains(x) == vis.push(cur).push(k).contains(x) by {
                lemma_contains_push(vis.push(k), cur, x);
                lemma_contains_push(vis, k, x);
                lemma_contains_push(vis.push(cur), k, x);
                lemma_contains_push(vis, cur, x);
            }
            lemma_remaining_same_members(
                anti.drop_first(),
                vis.push(k).push(cur),
                vis.push(cur).push(k),
            );
        }
    }
}

/// No traversal state has more edge slots left than the graph has at all.
proof fn lemma_remaining_le_target_count(anti: WorkflowView, vis: Seq<ProcessView>)
    ensures
        remaining(anti, vis) <= target_count(anti),
    decreases anti.len(),
{
    if anti.len() > 0 {
        lemma_remaining_le_target_count(anti.drop_first(), vis.push(anti[0].0));
    }
}

/// With fuel at least the queued work plus the unused edge slots, the
/// emitted sequence does not depend on the fuel: the queue drains first.
proof fn lemma_bfs_fuel_irrelevant(
    anti: WorkflowView,
    table: RollbackTableView,
    queue: Seq<ProcessView>,
    vis: Seq<ProcessView>,
    fuel1: nat,
    fuel2: nat,
)
    requires
        fuel1 >= queue.len() + remaining(anti, vis),
        fuel2 >= queue.len() + remaining(anti, vis),
    ensures
        bfs_emit(anti, table, queue, vis, fuel1) == bfs_emit(anti, table, queue, vis, fuel2),
    decreases fuel1,
{
    if queue.len() > 0 {
        let cur = queue[0];
        let rest = queue.drop_first();
        if vis.contains(cur) {
            lemma_bfs_fuel_irrelevant(
                anti,
                table,
                rest,
                vis,
                (fuel1 - 1) as nat,
                (fuel2 - 1) as nat,
            );
        } else {
            let preds = match wf_lookup(anti, cur) {
                Some(ps) => ps,
                None => Seq::<ProcessView>::empty(),
            };
            lemma_remaining_insert(anti, vis, cur);
            assert(preds.len() == lookup_len(anti, cur));
            lemma_bfs_fuel_irrelevant(
                anti,
                table,
                rest + preds,
                vis.push(cur),
                (fuel1 - 1) as nat,
                (fuel2 - 1) as nat,
            );
        }
    }
}

/// The compensation cascade is complete: [`traversal_fuel`] always lets the
/// traversal drain its queue, so giving it any more fuel changes nothing,
/// and every upstream process the compensation graph reaches is reached.
pub proof fn lemma_compensation_complete(
    anti: WorkflowView,
    table: RollbackTableView,
    failed: ProcessView,
    fuel: nat,
)
    requires
        fuel >= traversal_fuel(anti),
    ensures
        ({
            let q0 = match wf_lookup(anti, failed) {
                Some(ps) => ps,
                None => Seq::<ProcessView>::empty(),
            };
            bfs_emit(anti, table, q0, seq![failed], fuel) == compensation_emits(
                anti,
                table,
                failed,
            )
        }),
{
    let q0 = match wf_lookup(anti, failed) {
        Some(ps) => ps,
        None => Seq::<ProcessView>::empty(),
    };
    let nobody = Seq::<ProcessView>::empty();
    assert(!nobody.contains(failed));
    assert(seq![failed] =~= nobody.push(failed));
    lemma_remaining_insert(anti, nobody, failed);
    assert(q0.len() == lookup_len(anti, failed));
    lemma_remaining_le_target_count(anti, nobody);
    lemma_bfs_fuel_irrelevant(anti, table, q0, seq![failed], fuel, traversal_fuel(anti));
}

/// Computes [`traversal_fuel`] of the graph.
#[verifier::loop_isolation(false)]
fn fuel_of(w: &Workflow) -> (f: u128)
    ensures
        f as nat == traversal_fuel(w@),
{
    proof {
        assert(w@.skip(0) =~= w@);
    }
    let ghost cap: u128 = usize::MAX as u128;
    let mut acc: u128 = 0;
    let mut i: usize = 0;
    while i < w.entries.len()
        invariant
            i <= w.entries.len(),
            acc as nat + target_count(w@.skip(i as int)) == target_count(w@),
            acc <= (i as u128) * cap,
        decreases w.entries.len() - i,
    {
        proof {
            assert(w@.skip(i as int).drop_first() =~= w@.skip(i as int + 1));
            assert(w@.skip(i as int)[0] == w@[i as int]);
            assert(w@[i as int].1 == procs_view(w.entries@[i as int].1@));
            assert((i as u128 + 1) * cap == i as u128 * cap + cap) by (nonlinear_arith);
            assert(i as u128 * cap + cap <= cap * cap + cap) by (nonlinear_arith)
                requires
                    i as u128 <= cap,
                    cap >= 0,
            ;
            assert(cap * cap + cap < u128::MAX) by (nonlinear_arith)
                requires
                    cap <= u64::MAX as u128,
            ;
        }
        let n = w.entries[i].1.len();
        acc = acc + (n as u128);
        i = i + 1;
    }
    proof {
        assert(w@.skip(w.entries@.len() as int) =~= WorkflowView::empty());
        assert(acc as nat == target_count(w@));
        assert(cap <= u64::MAX as u128);
        assert(i as u128 * cap <= cap * cap) by (nonlinear_arith)
            requires
                i as u128 <= cap,
                cap >= 0,
        ;
        assert(cap * cap < u128::MAX) by (nonlinear_arith)
            requires
                cap <= u64::MAX as u128,
        ;
    }
    acc + 1
}

/// Is `p` among the processes of `v`?
#[verifier::loop_isolation(false)]
fn contains_process(v: &Vec<Process>, p: &Process) -> (r: bool)
    ensures
        r == procs_view(v@).contains(p@),
{
    let mut i: usize = 0;
    while i < v.len()
        invariant
            i <= v.len(),
            forall|j: int| 0 <= j < i ==> procs_view(v@)[j] != p@,
        decreases v.len() - i,
    {
        if v[i] == *p {
            proof {
                assert(procs_view(v@)[i as int] == p@);
            }
            return true;
        }
        i = i + 1;
    }
    proof {
        assert forall|j: int| 0 <= j < v@.len() implies procs_view(v@)[j] != p@ by {}
        if procs_view(v@).contains(p@) {
            let j = choose|j: int| 0 <= j < procs_view(v@).len() && procs_view(v@)[j] == p@;
            assert(procs_view(v@)[j] != p@);
        }
    }
    false
}

/// Walks the compensation graph breadth-first from the failed process and
/// collects the configured rollback process of every process reached, in
/// traversal order.  Each process is visited at most once, so the walk
/// terminates on cyclic graphs as well; a process without a rollback entry
/// is traversed through without an emission.
#[verifier::loop_isolation(false)]
fn compensation_processes(anti: &Workflow, rollback_functions: &RollbackTable, failed: &Process) -> (r:
    Vec<Process>)
    ensures
        procs_view(r@) == compensation_emits(anti@, rollback_functions@, failed@),
{
    let mut fuel: u128 = fuel_of(anti);
    let mut queue: Vec<Process> = Vec::new();
    match anti.get(failed) {
        Some(ps) => {
            let mut j: usize = 0;
            while j < ps.len()
                invariant
                    j <= ps.len(),
                    procs_view(queue@) =~= procs_view(ps@).take(j as int),
                decreases ps.len() - j,
            {
                queue.push(ps[j].clone());
                proof {
                    assert(procs_view(queue@) =~= procs_view(queue@.drop_last()).push(
                        queue@.last()@,
                    ));
                    assert(procs_view(ps@).take(j as int + 1) =~= procs_view(ps@).take(
                        j as int,
                    ).push(procs_view(ps@)[j as int]));
                }
                j = j + 1;
            }
            proof {
                assert(procs_view(ps@).take(ps@.len() as int) =~= procs_view(ps@));
            }
        },
        None => {},
    }
    let mut visited: Vec<Process> = Vec::new();
    visited.push(failed.clone());
    proof {
        assert(procs_view(visited@) =~= seq![failed@]);
    }
    let mut out: Vec<Process> = Vec::new();
    let mut head: usize = 0;
    let ghost goal = compensation_emits(anti@, rollback_functions@, failed@);
    proof {
        assert(procs_view(queue@).skip(0) =~= procs_view(queue@));
        assert(procs_view(out@) =~= Seq::<ProcessView>::empty());
        assert(goal =~= procs_view(out@) + bfs_emit(
            anti@,
            rollback_functions@,
            procs_view(queue@).skip(head as int),
            procs_view(visited@),
            fuel as nat,
        ));
    }
    while fuel > 0 && head < queue.len()
        invariant
            head <= queue.len(),
            goal == procs_view(out@) + bfs_emit(
                anti@,
                rollback_functions@,
                procs_view(queue@).skip(head as int),
                procs_view(visited@),
                fuel as nat,
            ),
        decreases fuel,
    {
        let ghost pending = procs_view(queue@).skip(head as int);
        let ghost vis0 = procs_view(visited@);
        proof {
            assert(pending[0] == procs_view(queue@)[head as int]);
            assert(pending.drop_first() =~= procs_view(queue@).skip(head as int + 1));
        }
        let cur = queue[head].clone();
        head = head + 1;
        fuel = fuel - 1;
        if !contains_process(&visited, &cur) {
            visited.push(cur.clone());
            proof {
                assert(procs_view(visited@) =~= vis0.push(cur@));
            }
            match rollback_functions.get(&cur) {
                Some(c) => {
                    let ghost out0 = procs_view(out@);
                    out.push(c.clone());
                    proof {
                        assert(procs_view(out@) =~= out0.push(table_lookup(
                            rollback_functions@,
                            cur@,
                        )->0));
                    }
                },
                None => {},
            }
            let ghost q0 = procs_view(queue@);
            let ghost preds = match wf_lookup(anti@, cur@) {
                Some(ps) => ps,
                None => Seq::<ProcessView>::empty(),
            };
            match anti.get(&cur) {
                Some(ps) => {
                    proof {
                        assert(preds == procs_view(ps@));
                    }
                    let mut j: usize = 0;
                    while j < ps.len()
                        invariant
                            j <= ps.len(),
                            procs_view(queue@) =~= q0 + preds.take(j as int),
                        decreases ps.len() - j,
                    {
                        let c = ps[j].clone();
                        let ghost qa = queue@;
                        queue.push(c);
                        proof {
                            assert(procs_view(queue@) =~= procs_view(qa).push(ps@[j as int]@));
                            assert(preds[j as int] == ps@[j as int]@);
                            assert(preds.take(j as int + 1) =~= preds.take(j as int).push(
                                preds[j as int],
                            ));
                        }
                        j = j + 1;
                    }
                    proof {
                        assert(preds.take(ps@.len() as int) =~= preds);
                    }
                },
                None => {
                    proof {
                        assert(q0 + preds =~= q0);
                    }
                },
            }
            proof {
                assert(procs_view(queue@) =~= q0 + preds);
                assert(procs_view(queue@).skip(head as int) =~= pending.drop_first() + preds);
            }
        }
        proof {
            if procs_view(visited@).contains(cur@) && vis0.contains(cur@) {
                assert(procs_view(queue@).skip(head as int) =~= pending.drop_first());
            }
            assert(goal == procs_view(out@) + bfs_emit(
                anti@,
                rollback_functions@,
                procs_view(queue@).skip(head as int),
                procs_view(visited@),
                fuel as nat,
            ));
        }
    }
    proof {
        assert(bfs_emit(
            anti@,
            rollback_functions@,
            procs_view(queue@).skip(head as int),
            procs_view(visited@),
            fuel as nat,
        ) =~= Seq::<ProcessView>::empty());
        assert(procs_view(out@) + Seq::<ProcessView>::empty() =~= procs_view(out@));
    }
    out
}

/// The version a status report is handled under: the one the report itself
/// carries, or else the latest version registered under the report's
/// workflow name.
pub open spec fn resolved_version(rs: RegistryView, msg: ToManagerView) -> Option<Seq<char>> {
    match msg.version {
        Some(v) => Some(v),
        None => latest_spec(rs, msg.name),
    }
}

/// The trigger message sent to `p` on behalf of the report `msg`, carrying
/// the report's instance id, workflow name and data payload unchanged, under
/// the resolved `version`.
pub open spec fn trigger_of(msg: ToManagerView, version: Seq<char>, p: ProcessView) -> FromManagerView {
    FromManagerView {
        uuid: msg.uuid,
        name: msg.name,
        version: version,
        process: p,
        schema: msg.schema,
        data: msg.data,
    }
}

/// One trigger per listed process, in list order.
pub open spec fn triggers_for(
    msg: ToManagerView,
    version: Seq<char>,
    procs: Seq<ProcessView>,
) -> Seq<FromManagerView> {
    procs.map_values(|p: ProcessView| trigger_of(msg, version, p))
}

/// Everything the execution control loop publishes for one status report:
/// nothing when no version resolves or a lookup misses, the forward fan-out
/// to the out-edges of the reporting process on `Success`, nothing on
/// `InProgress`, and the compensation cascade on `Failed`.
pub open spec fn status_response(
    rs: RegistryView,
    table: RollbackTableView,
    msg: ToManagerView,
) -> Seq<FromManagerView> {
    match resolved_version(rs, msg) {
        None => Seq::empty(),
        Some(v) => match msg.status {
            Status::InProgress => Seq::empty(),
            Status::Success => match reg_lookup(rs, msg.name, v) {
                None => Seq::empty(),
                Some(t) => match wf_lookup(t.workflow, msg.process) {
                    None => Seq::empty(),
                    Some(nexts) => triggers_for(msg, v, nexts),
                },
            },
            Status::Failed => match reg_lookup(rs, msg.name, v) {
                None => Seq::empty(),
                Some(t) => triggers_for(
                    msg,
                    v,
                    compensation_emits(t.anti_workflow, table, msg.process),
                ),
            },
        },
    }
}

/// Builds the trigger messages for `procs`, carrying over the report's
/// instance id, name, schema and data under the resolved version.
#[verifier::loop_isolation(false)]
fn make_triggers(message: &ToManager, version: &String, procs: &Vec<Process>) -> (out: Vec<
    FromManager,
>)
    ensures
        triggers_view(out@) == triggers_for(message@, version@, procs_view(procs@)),
{
    let mut out: Vec<FromManager> = Vec::new();
    let mut j: usize = 0;
    while j < procs.len()
        invariant
            j <= procs.len(),
            out@.len() == j,
            forall|k: int|
                0 <= k < j ==> (#[trigger] out@[k])@ == trigger_of(
                    message@,
                    version@,
                    procs_view(procs@)[k],
                ),
        decreases procs.len() - j,
    {
        let p = &procs[j];
        let m = FromManager {
            uuid: message.uuid.clone(),
            name: message.name.clone(),
            version: version.clone(),
            process: Process::new(p.service.clone(), p.function.clone()),
            schema: message.schema.clone(),
            data: message.data.clone(),
        };
        out.push(m);
        j = j + 1;
    }
    proof {
        assert(triggers_view(out@) =~= triggers_for(message@, version@, procs_view(procs@)));
    }
    out
}

/// Handles one decoded status report against the current registry and the
/// rollback table, and returns the trigger messages to publish, in
/// publication order.  A missing version, name, process node or anti-graph
/// entry yields no triggers and no failure: the loop must never crash on an
/// operational anomaly.
#[verifier::loop_isolation(false)]
pub fn handle_status_report(
    workflows: &Workflows,
    rollback_functions: &RollbackTable,
    message: &ToManager,
) -> (triggers: Vec<FromManager>)
    ensures
        triggers_view(triggers@) == status_response(workflows@, rollback_functions@, message@),
{
    proof {
        assert(triggers_view(Seq::<FromManager>::empty()) =~= Seq::<FromManagerView>::empty());
    }
    let version: String = match &message.version {
        Some(v) => v.clone(),
        None => match workflows.latest_version(&message.name) {
            Some(v) => v,
            None => {
                return Vec::new();
            },
        },
    };
    match message.status {
        Status::InProgress => Vec::new(),
        Status::Success => match workflows.get(&message.name, &version) {
            None => Vec::new(),
            Some(triple) => match triple.workflow.get(&message.process) {
                None => Vec::new(),
                Some(nexts) => make_triggers(message, &version, nexts),
            },
        },
        Status::Failed => match workflows.get(&message.name, &version) {
            None => Vec::new(),
            Some(triple) => {
                let comps = compensation_processes(
                    &triple.anti_workflow,
                    rollback_functions,
                    &message.process,
                );
                make_triggers(message, &version, &comps)
            },
        },
    }
}

/// The decode outcomes of a batch of status reports.
pub open spec fn reports_view(batch: Seq<InboundReport>) -> Seq<Option<ToManagerView>> {
    batch.map_values(|r: InboundReport| r@)
}

/// Everything published for a batch of inbound status messages: the
/// responses to the decoded reports, concatenated in batch order; a message
/// that did not decode contributes nothing.
pub open spec fn batch_response(
    rs: RegistryView,
    table: RollbackTableView,
    reports: Seq<Option<ToManagerView>>,
) -> Seq<FromManagerView>
    decreases reports.len(),
{
    if reports.len() == 0 {
        Seq::empty()
    } else {
        (match reports[0] {
            Some(m) => status_response(rs, table, m),
            None => Seq::empty(),
        }) + batch_response(rs, table, reports.drop_first())
    }
}

/// Handles one polled batch of inbound status messages: each decoded report
/// is handled in order against the same registry snapshot, and an
/// undecodable message is skipped without disturbing the others.
#[verifier::loop_isolation(false)]
pub fn handle_status_batch(
    workflows: &Workflows,
    rollback_functions: &RollbackTable,
    batch: &Vec<InboundReport>,
) -> (triggers: Vec<FromManager>)
    ensures
        triggers_view(triggers@) == batch_response(
            workflows@,
            rollback_functions@,
            reports_view(batch@),
        ),
{
    let ghost goal = batch_response(workflows@, rollback_functions@, reports_view(batch@));
    let mut out: Vec<FromManager> = Vec::new();
    proof {
        assert(reports_view(batch@).skip(0) =~= reports_view(batch@));
        assert(triggers_view(out@) =~= Seq::<FromManagerView>::empty());
    }
    let mut i: usize = 0;
    while i < batch.len()
        invariant
            i <= batch.len(),
            goal == triggers_view(out@) + batch_response(
                workflows@,
                rollback_functions@,
                reports_view(batch@).skip(i as int),
            ),
        decreases batch.len() - i,
    {
        proof {
            assert(reports_view(batch@).skip(i as int).drop_first() =~= reports_view(
                batch@,
            ).skip(i as int + 1));
            assert(reports_view(batch@).skip(i as int)[0] == reports_view(batch@)[i as int]);
        }
        let ghost out0 = out@;
        match &batch[i] {
            InboundReport::Report(m) => {
                let mut part = handle_status_report(workflows, rollback_functions, m);
                let ghost pv = part@;
                out.append(&mut part);
                proof {
                    assert(triggers_view(out@) =~= triggers_view(out0) + triggers_view(pv));
                }
            },
            InboundReport::Malformed => {},
        }
        i = i + 1;
    }
    proof {
        assert(reports_view(batch@).skip(batch@.len() as int) =~= Seq::<
            Option<ToManagerView>,
        >::empty());
        assert(triggers_view(out@) + Seq::<FromManagerView>::empty() =~= triggers_view(out@));
    }
    out
}

/// The triple an edit message registers: its forward graph, the derived
/// compensation graph, and its version tag.
pub open spec fn edit_triple(e: ToManagerEditsView) -> TripleView {
    TripleView { workflow: e.workflow, anti_workflow: anti_spec(e.workflow), version: e.version }
}

/// Ingests one decoded edit message: derives the compensation graph and
/// registers the triple, first write per `(name, version)` winning.
pub fn apply_edit(workflows: &mut Workflows, edit: ToManagerEdits)
    ensures
        final(workflows)@ == register_spec(old(workflows)@, edit.name@, edit_triple(edit@)),
{
    let anti = create_anti_workflow(&edit.workflow);
    let triple = WorkflowTriple::new(edit.workflow, anti, edit.version);
    workflows.register(edit.name, triple);
}

/// The decode outcomes of a batch of edit messages.
pub open spec fn edits_view(batch: Seq<InboundEdit>) -> Seq<Option<ToManagerEditsView>> {
    batch.map_values(|e: InboundEdit| e@)
}

/// The registry after a batch of inbound edit messages: the decoded edits
/// registered in batch order, undecodable messages skipped.
pub open spec fn edits_applied(
    rs: RegistryView,
    edits: Seq<Option<ToManagerEditsView>>,
) -> RegistryView
    decreases edits.len(),
{
    if edits.len() == 0 {
        rs
    } else {
        let rs2 = match edits[0] {
            Some(e) => register_spec(rs, e.name, edit_triple(e)),
            None => rs,
        };
        edits_applied(rs2, edits.drop_first())
    }
}

/// Ingests one polled batch of inbound edit messages, in order; an
/// undecodable message is skipped without disturbing the others.
#[verifier::loop_isolation(false)]
pub fn handle_edit_batch(workflows: &mut Workflows, batch: Vec<InboundEdit>)
    ensures
        final(workflows)@ == edits_applied(old(workflows)@, edits_view(batch@)),
{
    let ghost goal = edits_applied(old(workflows)@, edits_view(batch@));
    let mut rest = batch;
    while rest.len() > 0
        invariant
            goal == edits_applied(workflows@, edits_view(rest@)),
        decreases rest.len(),
    {
        let ghost rv = rest@;
        proof {
            assert(edits_view(rv).drop_first() =~= edits_view(rv.drop_first()));
        }
        let head = rest.remove(0);
        proof {
            assert(rest@ =~= rv.drop_first());
        }
        match head {
            InboundEdit::Edit(m) => {
                apply_edit(workflows, m);
            },
            InboundEdit::Malformed => {},
        }
    }
    proof {
        assert(edits_view(rest@).len() == 0);
    }
}

/// A report that carries an explicit version is handled under exactly that
/// version, whatever else is registered.
pub proof fn lemma_explicit_version_used(rs: RegistryView, msg: ToManagerView, v: Seq<char>)
    requires
        msg.version == Some(v),
    ensures
        resolved_version(rs, msg) == Some(v),
{
}

/// Forward fan-out: a `Success` report for a process with out-edges yields
/// exactly one trigger per out-edge, in order, each preserving the report's
/// instance id, workflow name, schema and data payload under the resolved
/// version.
pub proof fn lemma_forward_fan_out(
    rs: RegistryView,
    table: RollbackTableView,
    msg: ToManagerView,
    v: Seq<char>,
    t: TripleView,
    nexts: Seq<ProcessView>,
)
    requires
        msg.status == Status::Success,
        resolved_version(rs, msg) == Some(v),
        reg_lookup(rs, msg.name, v) == Some(t),
        wf_lookup(t.workflow, msg.process) == Some(nexts),
    ensures
        status_response(rs, table, msg).len() == nexts.len(),
        forall|i: int|
            0 <= i < nexts.len() ==> #[trigger] status_response(rs, table, msg)[i]
                == (FromManagerView {
                uuid: msg.uuid,
                name: msg.name,
                version: v,
                process: nexts[i],
                schema: msg.schema,
                data: msg.data,
            }),
{
    assert(status_response(rs, table, msg) == triggers_for(msg, v, nexts));
}

/// Graceful miss handling: a status report naming a workflow that has no
/// registration at all produces no trigger messages; the report is skipped,
/// never escalated.
pub proof fn lemma_unregistered_name_skipped(
    rs: RegistryView,
    table: RollbackTableView,
    msg: ToManagerView,
)
    requires
        forall|i: int| 0 <= i < rs.len() ==> rs[i].0 != msg.name,
    ensures
        status_response(rs, table, msg) == Seq::<FromManagerView>::empty(),
{
    match msg.version {
        Some(v) => {
            crate::registry::lemma_reg_lookup_absent(rs, msg.name, v);
        },
        None => {
            crate::registry::lemma_latest_absent(rs, msg.name);
        },
    }
}

/// Malformed message resilience: one undecodable message anywhere in a
/// batch leaves the handling of all other messages untouched.
pub proof fn lemma_malformed_message_resilience(
    rs: RegistryView,
    table: RollbackTableView,
    before: Seq<Option<ToManagerView>>,
    after: Seq<Option<ToManagerView>>,
)
    ensures
        batch_response(rs, table, before + seq![Option::<ToManagerView>::None] + after)
            == batch_response(rs, table, before + after),
    decreases before.len(),
{
    let gap = seq![Option::<ToManagerView>::None];
    if before.len() == 0 {
        assert(before + gap + after =~= gap + after);
        assert((gap + after).drop_first() =~= after);
        assert(before + after =~= after);
        assert(batch_response(rs, table, gap + after) == Seq::<FromManagerView>::empty()
            + batch_response(rs, table, after));
        assert(Seq::<FromManagerView>::empty() + batch_response(rs, table, after)
            =~= batch_response(rs, table, after));
    } else {
        lemma_malformed_message_resilience(rs, table, before.drop_first(), after);
        assert((before + gap + after).drop_first() =~= before.drop_first() + gap + after);
        assert((before + after).drop_first() =~= before.drop_first() + after);
        assert((before + gap + after)[0] == before[0]);
        assert((before + after)[0] == before[0]);
    }
}

} // verus!
