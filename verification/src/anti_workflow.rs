use vstd::prelude::*;

use crate::process::{procs_view, Process, ProcessView, Workflow, WorkflowView};
use vstd::multiset::Multiset;

verus! {

broadcast use vstd::multiset::group_multiset_axioms, vstd::multiset::group_multiset_properties;

/// One reversed edge `tgt -> src` folded into an accumulating compensation
/// graph: `src` is appended to the in-edge list of the first entry keyed by
/// `tgt`, or a fresh entry is appended when `tgt` has none yet.
pub open spec fn add_edge(acc: WorkflowView, tgt: ProcessView, src: ProcessView) -> WorkflowView
    decreases acc.len(),
{
    if acc.len() == 0 {
        seq![(tgt, seq![src])]
    } else if acc[0].0 == tgt {
        seq![(acc[0].0, acc[0].1.push(src))] + acc.drop_first()
    } else {
        seq![acc[0]] + add_edge(acc.drop_first(), tgt, src)
    }
}

/// All edges of one entry `src -> tgts[..]` folded into `acc`, reversed, in
/// target-list order.
pub open spec fn add_edges(acc: WorkflowView, src: ProcessView, tgts: Seq<ProcessView>) -> WorkflowView
    decreases tgts.len(),
{
    if tgts.len() == 0 {
        acc
    } else {
        add_edges(add_edge(acc, tgts[0], src), src, tgts.drop_first())
    }
}

/// The whole workflow folded into `acc`, entry by entry, in entry order.
pub open spec fn anti_from(w: WorkflowView, acc: WorkflowView) -> WorkflowView
    decreases w.len(),
{
    if w.len() == 0 {
        acc
    } else {
        anti_from(w.drop_first(), add_edges(acc, w[0].0, w[0].1))
    }
}

/// The compensation graph of `w`: every edge `src -> tgt` of `w` reversed to
/// `tgt -> src`.
pub open spec fn anti_spec(w: WorkflowView) -> WorkflowView {
    anti_from(w, Seq::empty())
}

/// The multiset of edges contributed by one entry: one pair `(src, t)` per
/// occurrence of `t` in the target list.
pub open spec fn entry_edges(src: ProcessView, tgts: Seq<ProcessView>) -> Multiset<
    (ProcessView, ProcessView),
>
    decreases tgts.len(),
{
    if tgts.len() == 0 {
        Multiset::empty()
    } else {
        entry_edges(src, tgts.drop_first()).insert((src, tgts[0]))
    }
}

/// The multiset of edges of a workflow graph.
pub open spec fn edge_ms(w: WorkflowView) -> Multiset<(ProcessView, ProcessView)>
    decreases w.len(),
{
    if w.len() == 0 {
        Multiset::empty()
    } else {
        edge_ms(w.drop_first()).add(entry_edges(w[0].0, w[0].1))
    }
}

/// Appending one target to an entry's list adds exactly that edge.
proof fn lemma_entry_edges_push(
    src: ProcessView,
    tgts: Seq<ProcessView>,
    t: ProcessView,
    e: (ProcessView, ProcessView),
)
    ensures
        entry_edges(src, tgts.push(t)).count(e) == entry_edges(src, tgts).count(e) + (if e == (
            src,
            t,
        ) {
            1int
        } else {
            0int
        }),
    decreases tgts.len(),
{
    if tgts.len() == 0 {
        assert(tgts.push(t).drop_first() =~= tgts);
    } else {
        assert(tgts.push(t).drop_first() =~= tgts.drop_first().push(t));
        lemma_entry_edges_push(src, tgts.drop_first(), t, e);
    }
}

/// `add_edge` grows the edge multiset by exactly the one reversed edge.
proof fn lemma_add_edge_count(
    acc: WorkflowView,
    tgt: ProcessView,
    src: ProcessView,
    e: (ProcessView, ProcessView),
)
    ensures
        edge_ms(add_edge(acc, tgt, src)).count(e) == edge_ms(acc).count(e) + (if e == (tgt, src) {
            1int
        } else {
            0int
        }),
    decreases acc.len(),
{
    let r = add_edge(acc, tgt, src);
    if acc.len() == 0 {
        assert(r.drop_first() =~= acc);
        assert(r[0] == (tgt, seq![src]));
        assert(seq![src].drop_first() =~= Seq::<ProcessView>::empty());
        assert(seq![src][0] == src);
        assert(entry_edges(tgt, Seq::<ProcessView>::empty()) == Multiset::<(
            ProcessView,
            ProcessView,
        )>::empty());
    } else if acc[0].0 == tgt {
        assert(r.drop_first() =~= acc.drop_first());
        assert(r[0] == (acc[0].0, acc[0].1.push(src)));
        lemma_entry_edges_push(acc[0].0, acc[0].1, src, e);
    } else {
        assert(r.drop_first() =~= add_edge(acc.drop_first(), tgt, src));
        assert(r[0] == acc[0]);
        lemma_add_edge_count(acc.drop_first(), tgt, src, e);
    }
}

/// `add_edges` grows the edge multiset by the reversal of the entry's edges.
proof fn lemma_add_edges_count(
    acc: WorkflowView,
    src: ProcessView,
    tgts: Seq<ProcessView>,
    e: (ProcessView, ProcessView),
)
    ensures
        edge_ms(add_edges(acc, src, tgts)).count(e) == edge_ms(acc).count(e) + entry_edges(
            src,
            tgts,
        ).count((e.1, e.0)),
    decreases tgts.len(),
{
    if tgts.len() > 0 {
        lemma_add_edge_count(acc, tgts[0], src, e);
        lemma_add_edges_count(add_edge(acc, tgts[0], src), src, tgts.drop_first(), e);
    }
}

/// `anti_from` grows the edge multiset by the reversal of all edges of `w`.
proof fn lemma_anti_from_count(w: WorkflowView, acc: WorkflowView, e: (ProcessView, ProcessView))
    ensures
        edge_ms(anti_from(w, acc)).count(e) == edge_ms(acc).count(e) + edge_ms(w).count((e.1, e.0)),
    decreases w.len(),
{
    if w.len() > 0 {
        lemma_add_edges_count(acc, w[0].0, w[0].1, e);
        lemma_anti_from_count(w.drop_first(), add_edges(acc, w[0].0, w[0].1), e);
    }
}

/// The compensation graph holds the edge `b -> a` exactly as often as the
/// workflow holds the edge `a -> b`: every edge is reversed, and no edge
/// comes from anywhere else.
pub proof fn lemma_anti_workflow_edges(w: WorkflowView, a: ProcessView, b: ProcessView)
    ensures
        edge_ms(anti_spec(w)).count((b, a)) == edge_ms(w).count((a, b)),
{
    lemma_anti_from_count(w, Seq::empty(), (b, a));
}

/// Reversing twice reconstructs the original multiset of edges.
pub proof fn lemma_anti_workflow_round_trip(w: WorkflowView, a: ProcessView, b: ProcessView)
    ensures
        edge_ms(anti_spec(anti_spec(w))).count((a, b)) == edge_ms(w).count((a, b)),
{
    lemma_anti_workflow_edges(anti_spec(w), b, a);
    lemma_anti_workflow_edges(w, a, b);
}

/// When the first entry keyed by `tgt` stands at index `i`, `add_edge`
/// appends `src` to exactly that entry's list.
proof fn lemma_add_edge_found(acc: WorkflowView, tgt: ProcessView, src: ProcessView, i: int)
    requires
        0 <= i < acc.len(),
        acc[i].0 == tgt,
        forall|j: int| 0 <= j < i ==> acc[j].0 != tgt,
    ensures
        add_edge(acc, tgt, src) == acc.update(i, (acc[i].0, acc[i].1.push(src))),
    decreases i,
{
    if i == 0 {
        assert(add_edge(acc, tgt, src) =~= acc.update(0, (acc[0].0, acc[0].1.push(src))));
    } else {
        lemma_add_edge_found(acc.drop_first(), tgt, src, i - 1);
        assert(add_edge(acc, tgt, src) =~= acc.update(i, (acc[i].0, acc[i].1.push(src))));
    }
}

/// When no entry is keyed by `tgt`, `add_edge` appends a fresh entry.
proof fn lemma_add_edge_missing(acc: WorkflowView, tgt: ProcessView, src: ProcessView)
    requires
        forall|j: int| 0 <= j < acc.len() ==> acc[j].0 != tgt,
    ensures
        add_edge(acc, tgt, src) == acc.push((tgt, seq![src])),
    decreases acc.len(),
{
    if acc.len() > 0 {
        lemma_add_edge_missing(acc.drop_first(), tgt, src);
        assert(add_edge(acc, tgt, src) =~= acc.push((tgt, seq![src])));
    } else {
        assert(add_edge(acc, tgt, src) =~= acc.push((tgt, seq![src])));
    }
}

/// Folds one reversed edge into the graph under construction.
#[verifier::loop_isolation(false)]
fn push_reversed(w: &mut Workflow, tgt: &Process, src: &Process)
    ensures
        final(w)@ == add_edge(old(w)@, tgt@, src@),
{
    let ghost w0 = w@;
    let mut i: usize = 0;
    while i < w.entries.len()
        invariant
            w@ == w0,
            i <= w.entries.len(),
            forall|j: int| 0 <= j < i ==> w0[j].0 != tgt@,
        decreases w.entries.len() - i,
    {
        if w.entries[i].0 == *tgt {
            proof {
                assert(w0[i as int].0 == tgt@);
                assert(w0[i as int].1 == procs_view(w.entries@[i as int].1@));
                lemma_add_edge_found(w0, tgt@, src@, i as int);
            }
            let pair = &mut w.entries[i];
            pair.1.push(src.clone());
            proof {
                assert(procs_view(pair.1@) =~= w0[i as int].1.push(src@));
                assert(w@ =~= w0.update(i as int, (w0[i as int].0, w0[i as int].1.push(src@))));
            }
            return ;
        }
        i = i + 1;
    }
    proof {
        lemma_add_edge_missing(w0, tgt@, src@);
    }
    let mut ts: Vec<Process> = Vec::new();
    ts.push(src.clone());
    w.entries.push((tgt.clone(), ts));
    proof {
        assert(procs_view(ts@) =~= seq![src@]);
        assert(w@ =~= w0.push((tgt@, seq![src@])));
    }
}

/// Builds the compensation graph of `original`: for every edge
/// `src -> target` of the input, the output holds the reversed edge
/// `target -> src`, accumulating multiple predecessors into a list.
#[verifier::loop_isolation(false)]
pub fn create_anti_workflow(original: &Workflow) -> (r: Workflow)
    ensures
        r@ == anti_spec(original@),
{
    let mut result = Workflow { entries: Vec::new() };
    proof {
        assert(result@ =~= Seq::<(ProcessView, Seq<ProcessView>)>::empty());
        assert(original@.skip(0) =~= original@);
    }
    let mut i: usize = 0;
    while i < original.entries.len()
        invariant
            i <= original.entries.len(),
            anti_spec(original@) == anti_from(original@.skip(i as int), result@),
        decreases original.entries.len() - i,
    {
        proof {
            assert(original@.skip(i as int).drop_first() =~= original@.skip(i as int + 1));
            assert(original@.skip(i as int)[0] == original@[i as int]);
        }
        let src = &original.entries[i].0;
        let ghost tgts_view = procs_view(original.entries@[i as int].1@);
        proof {
            assert(original@[i as int] == (src@, tgts_view));
            assert(tgts_view.skip(0) =~= tgts_view);
        }
        let mut j: usize = 0;
        while j < original.entries[i].1.len()
            invariant
                i < original.entries.len(),
                j <= original.entries@[i as int].1@.len(),
                anti_spec(original@) == anti_from(
                    original@.skip(i as int + 1),
                    add_edges(result@, src@, tgts_view.skip(j as int)),
                ),
            decreases original.entries@[i as int].1@.len() - j,
        {
            proof {
                assert(tgts_view.skip(j as int).drop_first() =~= tgts_view.skip(j as int + 1));
                assert(tgts_view.skip(j as int)[0] == tgts_view[j as int]);
                assert(tgts_view[j as int] == original.entries@[i as int].1@[j as int]@);
            }
            push_reversed(&mut result, &original.entries[i].1[j], src);
            j = j + 1;
        }
        proof {
            assert(tgts_view.skip(original.entries@[i as int].1@.len() as int)
                =~= Seq::<ProcessView>::empty());
        }
        i = i + 1;
    }
    proof {
        assert(original@.skip(original.entries@.len() as int)
            =~= Seq::<(ProcessView, Seq<ProcessView>)>::empty());
    }
    result
}

} // verus!
