//! What holds of every game, whatever is played.

use vstd::prelude::*;
use crate::action::ActionView;
use crate::game::{found, is_back, is_letter, is_step, RealityView};
use crate::grid::MAX;
use crate::replay::{lemma_resolve_prefix, lemma_resolve_push};
use crate::tree::{lemma_first_edge_unique, lemma_has_first_edge, EventTreeView};

verus! {

impl RealityView {
    /// A game is well formed when the player stands inside the field, the
    /// event at hand is the one that the world has at the position, and,
    /// inside an event, the player is at the node that the path leads to
    /// from the root of the world's event at the position, found without its
    /// items where it has handed them out.
    pub open spec fn wf(self) -> bool {
        &&& self.state.pos.within(MAX as int)
        &&& (self.state.current_event matches Some(e) ==> self.world.get(self.state.pos) == Some(
            e,
        ))
        &&& (self.state.traversal matches Some(t) ==> (self.world.get(self.state.pos) matches Some(
            e,
        ) && (e.tree.resolve(self.state.path) matches Some(n) && t == found(
            n,
            self.state.granted.contains(self.state.path),
        ))))
    }
}

/// Trees with the same edges have the same children.
pub proof fn lemma_child_by_edges(n: EventTreeView, t: EventTreeView, a: ActionView)
    requires
        n.sub == t.sub,
    ensures
        n.child(a) == t.child(a),
{
    if t.has_edge(a) {
        lemma_has_first_edge(t, a);
        let i = t.edge_index(a);
        assert(n.is_first_edge(a, i));
        lemma_first_edge_unique(n, a, i);
    } else {
        assert(!n.has_edge(a));
    }
}

/// In a well-formed game every backtrack and every action can be carried
/// out.
pub proof fn lemma_wf_can_progress(r: RealityView, a: ActionView)
    requires
        r.wf(),
    ensures
        r.state.traversal is Some ==> r.can_backtrack(),
        r.can_progress(a),
{
    if r.state.traversal is Some && r.state.path.len() > 0 {
        lemma_resolve_prefix(
            r.world[r.state.pos].tree,
            r.state.path,
            r.state.path.len() - 1,
        );
        assert(r.state.path.take(r.state.path.len() - 1) =~= r.state.path.drop_last());
    }
}

/// In a well-formed game every turn can be carried out.
pub proof fn lemma_wf_can_turn(r: RealityView, input: Seq<char>)
    requires
        r.wf(),
    ensures
        r.can_turn(input),
{
    lemma_wf_can_progress(r, ActionView::Simple(input));
}

/// An action leaves a well-formed game well formed.
pub proof fn lemma_progress_keeps_wf(r: RealityView, a: ActionView)
    requires
        r.wf(),
    ensures
        r.progress(a).wf(),
{
    match r.state.traversal {
        Some(t) => {
            let root = r.world[r.state.pos].tree;
            if is_back(a) {
                lemma_wf_can_progress(r, a);
            } else {
                lemma_resolve_push(root, r.state.path, a);
                let n = root.resolve(r.state.path)->0;
                lemma_child_by_edges(n, t, a);
                match t.child(a) {
                    Some(c) => {
                        let path = r.state.path.push(a);
                        if !r.state.granted.contains(path) {
                            assert(r.state.granted.push(path)[r.state.granted.len() as int]
                                == path);
                        }
                    },
                    None => {},
                }
            }
        },
        None => {},
    }
}

/// A turn leaves a well-formed game well formed.
pub proof fn lemma_turn_keeps_wf(r: RealityView, input: Seq<char>, reply: Seq<char>)
    requires
        r.wf(),
    ensures
        r.turn(input, reply).wf(),
{
    match r.state.traversal {
        None => {
            if is_letter(input, 'f', 'F') {
                let e = r.world.get(r.state.pos);
                if e is Some {
                    assert(e->0.tree.resolve(Seq::<ActionView>::empty()) == Some(e->0.tree));
                    assert(!Seq::<Seq<ActionView>>::empty().contains(Seq::<ActionView>::empty()));
                }
            }
        },
        Some(t) => {
            match r.action_of(input, reply) {
                Some(a) => {
                    lemma_progress_keeps_wf(r, a);
                },
                None => {},
            }
        },
    }
}

/// The game after the travel commands `moves`, given one after the other.
pub open spec fn travels(r: RealityView, moves: Seq<Seq<char>>) -> RealityView
    decreases moves.len(),
{
    if moves.len() == 0 {
        r
    } else {
        travels(r, moves.drop_last()).travel(moves.last())
    }
}

/// A player who starts inside the field is inside it after every one of
/// a sequence of travel commands.
pub proof fn lemma_travel_stays_in_field(r: RealityView, moves: Seq<Seq<char>>, k: int)
    requires
        r.state.pos.within(MAX as int),
        0 <= k <= moves.len(),
    ensures
        travels(r, moves.take(k)).state.pos.within(MAX as int),
    decreases k,
{
    if k > 0 {
        lemma_travel_stays_in_field(r, moves, k - 1);
        assert(moves.take(k).drop_last() =~= moves.take(k - 1));
    }
}

/// A step ends inside the field wherever it starts.
pub proof fn lemma_step_ends_in_field(r: RealityView, input: Seq<char>)
    requires
        is_step(input),
        !is_letter(input, 'f', 'F'),
    ensures
        r.travel(input).state.pos.within(MAX as int),
{
}

/// Outside an event an input that is no command changes nothing.
pub proof fn lemma_stray_key(r: RealityView, input: Seq<char>)
    requires
        !is_step(input),
        !is_letter(input, 'f', 'F'),
    ensures
        r.travel(input) == r,
{
}

/// Entering an event, carrying out an action at its root and going back
/// once leads to the root as it was entered, with an empty path.
pub proof fn lemma_backtrack_inverse(r: RealityView, a: ActionView)
    requires
        r.world.get(r.state.pos) is Some,
    ensures
        r.encounter().state.traversal is Some,
        r.encounter().can_progress(a),
        r.encounter().progress(a).can_backtrack(),
        r.encounter().progress(a).back().state.traversal == r.encounter().state.traversal,
        r.encounter().progress(a).back().state.path == r.encounter().state.path,
{
    let entered = r.encounter();
    let root = entered.state.traversal->0;
    let none = Seq::<ActionView>::empty();
    assert(root.resolve(none) == Some(root));
    if !is_back(a) && root.child(a) is Some {
        let after = entered.progress(a);
        assert(after.state.path =~= seq![a]);
        assert(seq![a].drop_last() =~= none);
        assert(!after.state.granted.contains(none)) by {
            assert(forall|i: int|
                0 <= i < after.state.granted.len() ==> after.state.granted[i].len() == 1);
        }
    }
}

/// Taking an edge and going back leads to the node that the edge was
/// taken from, as it was found, with the path as it was.
pub proof fn lemma_back_undoes_descent(r: RealityView, a: ActionView)
    requires
        r.wf(),
        !is_back(a),
        r.state.traversal matches Some(t) && t.child(a) is Some,
    ensures
        r.progress(a).can_backtrack(),
        r.progress(a).back().state.traversal == r.state.traversal,
        r.progress(a).back().state.path == r.state.path,
        r.progress(a).back().state.inventory == r.progress(a).state.inventory,
{
    let after = r.progress(a);
    let path = r.state.path.push(a);
    assert(path.drop_last() =~= r.state.path);
    lemma_progress_keeps_wf(r, a);
    lemma_wf_can_progress(after, a);
    if !r.state.granted.contains(path) {
        let g = r.state.granted.push(path);
        assert(g.contains(r.state.path) == r.state.granted.contains(r.state.path)) by {
            if g.contains(r.state.path) {
                let i = choose|i: int| 0 <= i < g.len() && g[i] == r.state.path;
                assert(path.len() != r.state.path.len());
                assert(r.state.granted[i] == r.state.path);
            }
            if r.state.granted.contains(r.state.path) {
                let i = choose|i: int|
                    0 <= i < r.state.granted.len() && r.state.granted[i] == r.state.path;
                assert(g[i] == r.state.path);
            }
        }
    }
}

/// Taking an edge hands the items of the node behind it to the player,
/// the last one first, on the first visit since the event was entered, and
/// leaves none at the node as the player finds it. A second visit after
/// going back hands out nothing.
pub proof fn lemma_items_granted_once(r: RealityView, a: ActionView)
    requires
        !is_back(a),
        r.state.traversal matches Some(t) && t.child(a) is Some,
    ensures
        ({
            let node = r.state.traversal->0.child(a)->0.node;
            let path = r.state.path.push(a);
            let after = r.progress(a);
            &&& after.state.traversal matches Some(at) && at.node.items.len() == 0
            &&& after.state.granted.contains(path)
            &&& !r.state.granted.contains(path) ==> after.state.inventory == r.state.inventory
                + node.items.reverse()
            &&& r.state.granted.contains(path) ==> after.state.inventory == r.state.inventory
            &&& after.back().state.inventory == after.state.inventory
            &&& after.back().progress(a).state.inventory == after.state.inventory
        }),
{
    let path = r.state.path.push(a);
    let after = r.progress(a);
    if !r.state.granted.contains(path) {
        assert(r.state.granted.push(path)[r.state.granted.len() as int] == path);
    }
    assert(path.drop_last() =~= r.state.path);
    assert(after.back().state.path.push(a) =~= path);
}

/// An action without an edge at the node that the player is at changes
/// nothing, unless it is the command to go back given below the root.
pub proof fn lemma_unmatched_action(r: RealityView, a: ActionView)
    requires
        r.state.traversal matches Some(t) ==> t.child(a) is None,
        r.state.traversal is Some && is_back(a) ==> r.state.path.len() == 0,
    ensures
        r.progress(a) == r,
{
}

/// At the root of an event, where the path is empty, the command to go
/// back changes nothing.
pub proof fn lemma_back_at_root(r: RealityView, a: ActionView)
    requires
        r.state.traversal is Some,
        r.state.path.len() == 0,
        is_back(a),
    ensures
        r.back() == r,
        r.progress(a) == r,
{
}

} // verus!
