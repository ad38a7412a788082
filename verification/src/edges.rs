//! The edges of a node as a mapping: no action labels two of them.

use vstd::prelude::*;
use crate::action::ActionView;
use crate::tree::{lemma_first_edge_unique, lemma_has_first_edge, EventTreeView};

verus! {

impl EventTreeView {
    /// Whether no two edges of the root carry the same action.
    pub open spec fn labels_distinct(self) -> bool {
        forall|i: int, j: int|
            0 <= i < j < self.sub.len() ==> (#[trigger] self.sub[i]).0 != (#[trigger] self.sub[j]).0
    }

    /// Whether throughout the tree no two edges of a node carry the same
    /// action: the edges of each node are a mapping from actions to trees.
    pub open spec fn wf(self) -> bool
        decreases self,
    {
        &&& self.labels_distinct()
        &&& forall|i: int| 0 <= i < self.sub.len() ==> (#[trigger] self.sub[i]).1.wf()
    }
}

/// In a well-formed tree the edge labelled `a` is the only one with that
/// label.
pub proof fn lemma_edge_is_unique(t: EventTreeView, a: ActionView, i: int)
    requires
        t.wf(),
        0 <= i < t.sub.len(),
        t.sub[i].0 == a,
    ensures
        t.child(a) == Some(t.sub[i].1),
{
    assert(t.is_first_edge(a, i)) by {
        assert forall|j: int| 0 <= j < i implies (#[trigger] t.sub[j]).0 != a by {
            assert(t.sub[j].0 != t.sub[i].0);
        }
    }
    lemma_first_edge_unique(t, a, i);
}

/// Adding or redirecting an edge keeps a tree well formed.
pub proof fn lemma_with_edge_wf(t: EventTreeView, a: ActionView, c: EventTreeView)
    requires
        t.wf(),
        c.wf(),
    ensures
        t.with_edge(a, c).wf(),
{
    let r = t.with_edge(a, c);
    if t.has_edge(a) {
        lemma_has_first_edge(t, a);
        let k = t.edge_index(a);
        assert(r.sub == t.sub.update(k, (a, c)));
        assert forall|i: int, j: int| 0 <= i < j < r.sub.len() implies (#[trigger] r.sub[i]).0
            != (#[trigger] r.sub[j]).0 by {
            assert(r.sub[i].0 == t.sub[i].0);
            assert(r.sub[j].0 == t.sub[j].0);
        }
        assert forall|i: int| 0 <= i < r.sub.len() implies (#[trigger] r.sub[i]).1.wf() by {
            if i != k {
                assert(r.sub[i] == t.sub[i]);
            }
        }
    } else {
        assert(r.sub == t.sub.push((a, c)));
        assert forall|i: int, j: int| 0 <= i < j < r.sub.len() implies (#[trigger] r.sub[i]).0
            != (#[trigger] r.sub[j]).0 by {
            assert(r.sub[i] == t.sub[i]);
            if j < t.sub.len() {
                assert(r.sub[j] == t.sub[j]);
            }
        }
        assert forall|i: int| 0 <= i < r.sub.len() implies (#[trigger] r.sub[i]).1.wf() by {
            if i < t.sub.len() {
                assert(r.sub[i] == t.sub[i]);
            }
        }
    }
}

/// What a path leads to in a well-formed tree is well formed.
pub proof fn lemma_resolve_wf(t: EventTreeView, path: Seq<ActionView>)
    requires
        t.wf(),
    ensures
        t.resolve(path) matches Some(n) ==> n.wf(),
    decreases path.len(),
{
    if path.len() > 0 && t.has_edge(path[0]) {
        lemma_has_first_edge(t, path[0]);
        let c = t.sub[t.edge_index(path[0])].1;
        lemma_resolve_wf(c, path.drop_first());
    }
}

} // verus!
