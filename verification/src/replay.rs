//! What holds of following a path through an event tree.

use vstd::prelude::*;
use crate::action::ActionView;
use crate::tree::EventTreeView;

verus! {

/// The tree reached from `t` by taking the edges of `path` one at a time,
/// each from the tree that the one before led to.
pub open spec fn descend(t: EventTreeView, path: Seq<ActionView>) -> Option<EventTreeView>
    decreases path.len(),
{
    if path.len() == 0 {
        Some(t)
    } else {
        match descend(t, path.drop_last()) {
            Some(at) => at.child(path.last()),
            None => None,
        }
    }
}

/// Following two paths one after the other is following their
/// concatenation.
pub proof fn lemma_resolve_concat(t: EventTreeView, p: Seq<ActionView>, q: Seq<ActionView>)
    ensures
        t.resolve(p + q) == match t.resolve(p) {
            Some(at) => at.resolve(q),
            None => None,
        },
    decreases p.len(),
{
    if p.len() == 0 {
        assert(p + q =~= q);
    } else {
        assert((p + q).drop_first() =~= p.drop_first() + q);
        assert((p + q)[0] == p[0]);
        match t.child(p[0]) {
            Some(c) => {
                lemma_resolve_concat(c, p.drop_first(), q);
            },
            None => {},
        }
    }
}

/// Following a path and then one more edge is following the path with
/// that edge's action at its end.
pub proof fn lemma_resolve_push(t: EventTreeView, path: Seq<ActionView>, a: ActionView)
    ensures
        t.resolve(path.push(a)) == match t.resolve(path) {
            Some(at) => at.child(a),
            None => None,
        },
{
    lemma_resolve_concat(t, path, seq![a]);
    assert(path.push(a) =~= path + seq![a]);
    match t.resolve(path) {
        Some(at) => {
            assert(seq![a].drop_first() =~= Seq::<ActionView>::empty());
            assert(seq![a][0] == a);
            match at.child(a) {
                Some(c) => {
                    assert(c.resolve(Seq::<ActionView>::empty()) == Some(c));
                },
                None => {},
            }
        },
        None => {},
    }
}

/// Replay from the root and descent edge by edge reach the same tree, and
/// fail on the same paths.
pub proof fn lemma_replay_is_descent(t: EventTreeView, path: Seq<ActionView>)
    ensures
        t.resolve(path) == descend(t, path),
    decreases path.len(),
{
    if path.len() > 0 {
        lemma_replay_is_descent(t, path.drop_last());
        lemma_resolve_push(t, path.drop_last(), path.last());
        assert(path.drop_last().push(path.last()) =~= path);
    }
}

/// A path that leads somewhere does so with each of its beginnings.
pub proof fn lemma_resolve_prefix(t: EventTreeView, path: Seq<ActionView>, k: int)
    requires
        0 <= k <= path.len(),
        t.resolve(path) is Some,
    ensures
        t.resolve(path.take(k)) is Some,
{
    lemma_resolve_concat(t, path.take(k), path.skip(k));
    assert(path.take(k) + path.skip(k) =~= path);
}

} // verus!
