use vstd::prelude::*;

verus! {

/// An addressable unit of orchestrated work, identified by the pair of a
/// service name and a function name.  Used both as a graph-node identity
/// and as a routing key for outbound trigger messages.
#[derive(Debug)]
pub struct Process {
    pub service: String,
    pub function: String,
}

/// Mathematical model of a [`Process`]: the two identifying strings as
/// character sequences.
pub ghost struct ProcessView {
    pub service: Seq<char>,
    pub function: Seq<char>,
}

impl View for Process {
    type V = ProcessView;

    open spec fn view(&self) -> ProcessView {
        ProcessView { service: self.service@, function: self.function@ }
    }
}

impl Process {
    pub fn new(service: String, function: String) -> (p: Process)
        ensures
            p@ == (ProcessView { service: service@, function: function@ }),
    {
        Process { service, function }
    }
}

impl Clone for Process {
    fn clone(&self) -> (p: Process)
        ensures
            p@ == self@,
    {
        Process { service: self.service.clone(), function: self.function.clone() }
    }
}

impl PartialEq for Process {
    fn eq(&self, other: &Process) -> (r: bool) {
        self.service == other.service && self.function == other.function
    }
}

impl vstd::std_specs::cmp::PartialEqSpecImpl for Process {
    open spec fn obeys_eq_spec() -> bool {
        true
    }

    open spec fn eq_spec(&self, other: &Process) -> bool {
        self@ == other@
    }
}

/// Mathematical model of a workflow graph: an association list from a node
/// to its ordered list of successors.  Entry order is part of the model, so
/// the graph operations below are fully determined.
pub type WorkflowView = Seq<(ProcessView, Seq<ProcessView>)>;

/// The views of a sequence of processes.
pub open spec fn procs_view(s: Seq<Process>) -> Seq<ProcessView> {
    s.map_values(|p: Process| p@)
}

/// The out-edge list of `p` in `w`: the target list of the first entry whose
/// key is `p`, if any.
pub open spec fn wf_lookup(w: WorkflowView, p: ProcessView) -> Option<Seq<ProcessView>>
    decreases w.len(),
{
    if w.len() == 0 {
        None
    } else if w[0].0 == p {
        Some(w[0].1)
    } else {
        wf_lookup(w.drop_first(), p)
    }
}

/// `w` with the target list of `p` set to `ts`: the first entry keyed by `p`
/// is replaced, or a new entry is appended when none exists.
pub open spec fn wf_insert(w: WorkflowView, p: ProcessView, ts: Seq<ProcessView>) -> WorkflowView
    decreases w.len(),
{
    if w.len() == 0 {
        seq![(p, ts)]
    } else if w[0].0 == p {
        seq![(p, ts)] + w.drop_first()
    } else {
        seq![w[0]] + wf_insert(w.drop_first(), p, ts)
    }
}

/// A directed graph over processes: each entry maps a process to the ordered
/// list of processes triggered on its success.  Duplicate targets are
/// permitted and preserved; keys are kept unique by [`Workflow::insert`].
#[derive(Debug)]
pub struct Workflow {
    pub entries: Vec<(Process, Vec<Process>)>,
}

impl View for Workflow {
    type V = WorkflowView;

    open spec fn view(&self) -> WorkflowView {
        self.entries@.map_values(|e: (Process, Vec<Process>)| (e.0@, procs_view(e.1@)))
    }
}

impl Workflow {
    /// The empty graph.
    pub fn new() -> (w: Workflow)
        ensures
            w@ == WorkflowView::empty(),
    {
        Workflow { entries: Vec::new() }
    }

    /// Sets the out-edge list of `p`, replacing any list registered before.
    #[verifier::loop_isolation(false)]
    pub fn insert(&mut self, p: Process, targets: Vec<Process>)
        ensures
            final(self)@ == wf_insert(old(self)@, p@, procs_view(targets@)),
    {
        let ghost w0 = self@;
        let mut i: usize = 0;
        while i < self.entries.len()
            invariant
                self@ == w0,
                i <= self.entries.len(),
                forall|j: int| 0 <= j < i ==> w0[j].0 != p@,
            decreases self.entries.len() - i,
        {
            if self.entries[i].0 == p {
                proof {
                    assert(w0[i as int].0 == p@);
                    lemma_wf_insert_found(w0, p@, procs_view(targets@), i as int);
                }
                self.entries[i] = (p, targets);
                proof {
                    assert(self@ =~= w0.update(i as int, (p@, procs_view(targets@))));
                }
                return;
            }
            i = i + 1;
        }
        self.entries.push((p, targets));
        proof {
            lemma_wf_insert_missing(w0, p@, procs_view(targets@));
            assert(self@ =~= w0.push((p@, procs_view(targets@))));
        }
    }

    /// Looks up the out-edge list of `p`.
    #[verifier::loop_isolation(false)]
    pub fn get(&self, p: &Process) -> (r: Option<&Vec<Process>>)
        ensures
            match r {
                Some(ts) => wf_lookup(self@, p@) == Some(procs_view(ts@)),
                None => wf_lookup(self@, p@) is None,
            },
    {
        proof {
            assert(self@.skip(0) =~= self@);
        }
        let mut i: usize = 0;
        while i < self.entries.len()
            invariant
                i <= self.entries.len(),
                wf_lookup(self@, p@) == wf_lookup(self@.skip(i as int), p@),
            decreases self.entries.len() - i,
        {
            proof {
                assert(self@.skip(i as int).drop_first() =~= self@.skip(i as int + 1));
                assert(self@.skip(i as int)[0] == self@[i as int]);
            }
            if self.entries[i].0 == *p {
                return Some(&self.entries[i].1);
            }
            i = i + 1;
        }
        None
    }
}

/// When the first entry keyed by `p` stands at index `i`, `wf_insert`
/// replaces exactly that entry.
proof fn lemma_wf_insert_found(w: WorkflowView, p: ProcessView, ts: Seq<ProcessView>, i: int)
    requires
        0 <= i < w.len(),
        w[i].0 == p,
        forall|j: int| 0 <= j < i ==> w[j].0 != p,
    ensures
        wf_insert(w, p, ts) == w.update(i, (p, ts)),
    decreases i,
{
    if i == 0 {
        assert(wf_insert(w, p, ts) =~= w.update(0, (p, ts)));
    } else {
        lemma_wf_insert_found(w.drop_first(), p, ts, i - 1);
        assert(wf_insert(w, p, ts) =~= w.update(i, (p, ts)));
    }
}

/// When no entry is keyed by `p`, `wf_insert` appends a new entry.
proof fn lemma_wf_insert_missing(w: WorkflowView, p: ProcessView, ts: Seq<ProcessView>)
    requires
        forall|j: int| 0 <= j < w.len() ==> w[j].0 != p,
    ensures
        wf_insert(w, p, ts) == w.push((p, ts)),
    decreases w.len(),
{
    if w.len() > 0 {
        lemma_wf_insert_missing(w.drop_first(), p, ts);
        assert(wf_insert(w, p, ts) =~= w.push((p, ts)));
    } else {
        assert(wf_insert(w, p, ts) =~= w.push((p, ts)));
    }
}

/// Mathematical model of a [`WorkflowTriple`].
pub ghost struct TripleView {
    pub workflow: WorkflowView,
    pub anti_workflow: WorkflowView,
    pub version: Seq<char>,
}

/// A workflow paired with its derived compensation graph and a version tag.
/// The compensation graph is built once, at construction time, and never
/// mutated independently.
#[derive(Debug)]
pub struct WorkflowTriple {
    pub workflow: Workflow,
    pub anti_workflow: Workflow,
    pub version: String,
}

impl View for WorkflowTriple {
    type V = TripleView;

    open spec fn view(&self) -> TripleView {
        TripleView {
            workflow: self.workflow@,
            anti_workflow: self.anti_workflow@,
            version: self.version@,
        }
    }
}

impl WorkflowTriple {
    pub fn new(workflow: Workflow, anti_workflow: Workflow, version: String) -> (t: WorkflowTriple)
        ensures
            t@ == (TripleView {
                workflow: workflow@,
                anti_workflow: anti_workflow@,
                version: version@,
            }),
    {
        WorkflowTriple { workflow, anti_workflow, version }
    }
}

} // verus!
