//! Event trees: the branching dialogue of an event, and how a path of
//! actions is followed through one.

use vstd::prelude::*;
use crate::action::{Action, ActionView};
use crate::edges::{lemma_resolve_wf, lemma_with_edge_wf};
use crate::item::{Item, ItemView};
use crate::seqs::views;

verus! {

/// What a node of an event tree holds: the text shown at it, and the items
/// it hands to the player who enters it.
#[derive(Debug)]
pub struct EventNode {
    pub text: String,
    pub items: Vec<Item>,
}

/// The mathematical value of an [`EventNode`].
pub struct EventNodeView {
    pub text: Seq<char>,
    pub items: Seq<ItemView>,
}

impl View for EventNode {
    type V = EventNodeView;

    open spec fn view(&self) -> EventNodeView {
        EventNodeView { text: self.text@, items: views(self.items@) }
    }
}

impl Clone for EventNode {
    fn clone(&self) -> (r: Self)
        ensures
            r@ == self@,
    {
        let mut items: Vec<Item> = Vec::new();
        let mut i: usize = 0;
        while i < self.items.len()
            invariant
                i <= self.items.len(),
                items.len() == i,
                forall|j: int| 0 <= j < i ==> (#[trigger] items[j])@ == self.items[j]@,
            decreases self.items.len() - i,
        {
            items.push(self.items[i].clone());
            i += 1;
        }
        assert(views(items@) =~= views(self.items@));
        EventNode { text: self.text.clone(), items }
    }
}

/// A node of an event tree together with everything below it. An edge is
/// a pair of the action that selects it and the tree it leads to. The edges
/// are kept out of reach: they change through `insert` alone, so that no
/// action comes to label two edges of a node.
#[derive(Debug)]
pub struct EventTree {
    pub node: EventNode,
    pub(crate) sub: Vec<(Action, EventTree)>,
}

/// The mathematical value of an [`EventTree`].
pub struct EventTreeView {
    pub node: EventNodeView,
    pub sub: Seq<(ActionView, EventTreeView)>,
}

/// The value of a tree: the value of its node, and its edges in order.
pub open(crate) spec fn tree_view(t: EventTree) -> EventTreeView
    decreases t,
{
    EventTreeView {
        node: t.node@,
        sub: Seq::new(
            t.sub.len() as nat,
            |i: int|
                if 0 <= i < t.sub.len() {
                    (t.sub[i].0@, tree_view(t.sub[i].1))
                } else {
                    arbitrary()
                },
        ),
    }
}

impl View for EventTree {
    type V = EventTreeView;

    open spec fn view(&self) -> EventTreeView {
        tree_view(*self)
    }
}

impl EventTreeView {
    /// Whether an edge labelled `a` leaves the root.
    pub open spec fn has_edge(self, a: ActionView) -> bool {
        exists|i: int| 0 <= i < self.sub.len() && (#[trigger] self.sub[i]).0 == a
    }

    /// Whether `i` is the first edge labelled `a`.
    pub open spec fn is_first_edge(self, a: ActionView, i: int) -> bool {
        &&& 0 <= i < self.sub.len()
        &&& self.sub[i].0 == a
        &&& forall|j: int| 0 <= j < i ==> (#[trigger] self.sub[j]).0 != a
    }

    /// The index of the first edge labelled `a`, where there is one.
    pub open spec fn edge_index(self, a: ActionView) -> int {
        choose|i: int| self.is_first_edge(a, i)
    }

    /// The tree that the edge labelled `a` leads to.
    pub open spec fn child(self, a: ActionView) -> Option<EventTreeView> {
        if self.has_edge(a) {
            Some(self.sub[self.edge_index(a)].1)
        } else {
            None
        }
    }

    /// The tree reached from the root by taking the edges that `path`
    /// names, one after the other; `None` where an action of the path has no
    /// edge at its point of the descent.
    pub open spec fn resolve(self, path: Seq<ActionView>) -> Option<EventTreeView>
        decreases path.len(),
    {
        if path.len() == 0 {
            Some(self)
        } else {
            match self.child(path[0]) {
                Some(c) => c.resolve(path.drop_first()),
                None => None,
            }
        }
    }

    /// This tree with the edge `a` leading to `t`: in place of what the
    /// edge led to before, or as a new last edge.
    pub open spec fn with_edge(self, a: ActionView, t: EventTreeView) -> EventTreeView {
        if self.has_edge(a) {
            EventTreeView { node: self.node, sub: self.sub.update(self.edge_index(a), (a, t)) }
        } else {
            EventTreeView { node: self.node, sub: self.sub.push((a, t)) }
        }
    }
}

/// The first edge labelled `a` is the only index that `is_first_edge`
/// holds of.
pub proof fn lemma_first_edge_unique(t: EventTreeView, a: ActionView, i: int)
    requires
        t.is_first_edge(a, i),
    ensures
        t.has_edge(a),
        t.edge_index(a) == i,
        t.child(a) == Some(t.sub[i].1),
{
    let k = t.edge_index(a);
    assert(t.is_first_edge(a, k));
    if k < i {
        assert(t.sub[k].0 != a);
    }
    if i < k {
        assert(t.sub[i].0 != a);
    }
}

/// Where an edge labelled `a` exists, a first one exists.
pub proof fn lemma_has_first_edge(t: EventTreeView, a: ActionView)
    requires
        t.has_edge(a),
    ensures
        t.is_first_edge(a, t.edge_index(a)),
{
    let w = choose|i: int| 0 <= i < t.sub.len() && (#[trigger] t.sub[i]).0 == a;
    lemma_first_edge_below(t, a, w);
}

proof fn lemma_first_edge_below(t: EventTreeView, a: ActionView, w: int)
    requires
        0 <= w < t.sub.len(),
        t.sub[w].0 == a,
    ensures
        exists|i: int| t.is_first_edge(a, i),
    decreases w,
{
    if exists|j: int| 0 <= j < w && (#[trigger] t.sub[j]).0 == a {
        let j = choose|j: int| 0 <= j < w && (#[trigger] t.sub[j]).0 == a;
        lemma_first_edge_below(t, a, j);
    } else {
        assert(t.is_first_edge(a, w));
    }
}

impl Clone for EventTree {
    fn clone(&self) -> (r: Self)
        ensures
            r@ == self@,
        decreases self,
    {
        let mut sub: Vec<(Action, EventTree)> = Vec::new();
        let mut i: usize = 0;
        while i < self.sub.len()
            invariant
                i <= self.sub.len(),
                sub.len() == i,
                forall|j: int|
                    0 <= j < i ==> (#[trigger] sub[j]).0@ == self.sub[j].0@ && sub[j].1@
                        == self.sub[j].1@,
            decreases self.sub.len() - i,
        {
            let a = self.sub[i].0.clone();
            let t = self.sub[i].1.clone();
            sub.push((a, t));
            i += 1;
        }
        let r = EventTree { node: self.node.clone(), sub };
        assert(r@.sub =~= self@.sub);
        r
    }
}

impl EventTree {
    /// A tree of one node, without edges.
    pub fn new(node: EventNode) -> (r: EventTree)
        ensures
            r@ == (EventTreeView { node: node@, sub: Seq::empty() }),
            r@.wf(),
    {
        let r = EventTree { node, sub: Vec::new() };
        assert(r@.sub =~= Seq::empty());
        r
    }

    /// This tree without the items of its root.
    pub fn without_items(self) -> (r: EventTree)
        ensures
            r@ == (EventTreeView {
                node: EventNodeView { text: self@.node.text, items: Seq::empty() },
                sub: self@.sub,
            }),
    {
        let mut r = self;
        r.node.items = Vec::new();
        assert(r@.sub =~= self@.sub);
        assert(r@.node.items =~= Seq::empty());
        r
    }

    /// The number of edges.
    pub fn edge_count(&self) -> (n: usize)
        ensures
            n == self@.sub.len(),
    {
        self.sub.len()
    }

    /// The edge at index `i`: its action and the tree it leads to.
    pub fn edge(&self, i: usize) -> (r: Option<(&Action, &EventTree)>)
        ensures
            match r {
                Some((a, t)) => i < self@.sub.len() && self@.sub[i as int] == (a@, t@),
                None => i >= self@.sub.len(),
            },
    {
        if i < self.sub.len() {
            Some((&self.sub[i].0, &self.sub[i].1))
        } else {
            None
        }
    }

    /// The index of the first edge labelled `act`.
    pub fn find(&self, act: &Action) -> (r: Option<usize>)
        ensures
            match r {
                Some(i) => self@.is_first_edge(act@, i as int),
                None => !self@.has_edge(act@),
            },
    {
        let mut i: usize = 0;
        while i < self.sub.len()
            invariant
                i <= self.sub.len(),
                self@.sub.len() == self.sub.len(),
                forall|j: int| 0 <= j < i ==> (#[trigger] self@.sub[j]).0 != act@,
            decreases self.sub.len() - i,
        {
            if self.sub[i].0 == *act {
                return Some(i);
            }
            i += 1;
        }
        None
    }

    /// The tree that the edge labelled `act` leads to.
    pub fn child(&self, act: &Action) -> (r: Option<&EventTree>)
        ensures
            match r {
                Some(t) => self@.child(act@) == Some(t@),
                None => self@.child(act@) is None,
            },
    {
        match self.find(act) {
            Some(i) => {
                proof {
                    lemma_first_edge_unique(self@, act@, i as int);
                }
                Some(&self.sub[i].1)
            },
            None => None,
        }
    }

    /// Makes the edge labelled `act` lead to `tree`: an edge with that label
    /// is redirected, else a new edge is added.
    pub fn insert(&mut self, act: Action, tree: EventTree)
        ensures
            final(self)@ == old(self)@.with_edge(act@, tree@),
            old(self)@.wf() && tree@.wf() ==> final(self)@.wf(),
    {
        proof {
            if self@.wf() && tree@.wf() {
                lemma_with_edge_wf(self@, act@, tree@);
            }
        }
        match self.find(&act) {
            Some(i) => {
                proof {
                    lemma_first_edge_unique(self@, act@, i as int);
                }
                self.sub[i] = (act, tree);
                assert(self@.sub =~= old(self)@.sub.update(i as int, (act@, tree@)));
            },
            None => {
                self.sub.push((act, tree));
                assert(self@.sub =~= old(self)@.sub.push((act@, tree@)));
            },
        }
    }

    /// Follows `stack` from this tree and hands out a copy of the tree it
    /// ends at. Fails where an action of `stack` has no edge at its point of
    /// the descent.
    pub fn get_node(&self, stack: &Vec<Action>) -> (r: Result<EventTree, ()>)
        ensures
            match r {
                Ok(t) => self@.resolve(views(stack@)) == Some(t@),
                Err(_) => self@.resolve(views(stack@)) is None,
            },
            self@.wf() ==> (r matches Ok(t) ==> t@.wf()),
    {
        let ghost path = views(stack@);
        proof {
            if self@.wf() {
                lemma_resolve_wf(self@, path);
            }
        }
        let mut cur: &EventTree = self;
        let mut i: usize = 0;
        assert(path.skip(0) =~= path);
        while i < stack.len()
            invariant
                i <= stack.len(),
                path == views(stack@),
                self@.resolve(path) == cur@.resolve(path.skip(i as int)),
            decreases stack.len() - i,
        {
            assert(path.skip(i as int).drop_first() =~= path.skip(i as int + 1));
            assert(path.skip(i as int)[0] == stack[i as int]@);
            match cur.child(&stack[i]) {
                Some(next) => {
                    cur = next;
                },
                None => {
                    return Err(());
                },
            }
            i += 1;
        }
        assert(path.skip(i as int).len() == 0);
        Ok(cur.clone())
    }
}

/// An event: what is shown of it from outside, and its tree.
#[derive(Debug)]
pub struct Event {
    pub preview: String,
    pub tree: EventTree,
}

/// The mathematical value of an [`Event`].
pub struct EventView {
    pub preview: Seq<char>,
    pub tree: EventTreeView,
}

impl View for Event {
    type V = EventView;

    open spec fn view(&self) -> EventView {
        EventView { preview: self.preview@, tree: self.tree@ }
    }
}

impl Clone for Event {
    fn clone(&self) -> (r: Self)
        ensures
            r@ == self@,
    {
        Event { preview: self.preview.clone(), tree: self.tree.clone() }
    }
}

} // verus!
