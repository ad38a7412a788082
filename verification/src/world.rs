//! The world: which event stands at which position.

use std::collections::HashMap;
use vstd::prelude::*;
use crate::grid::Pos;
use crate::tree::{Event, EventView};

verus! {

broadcast use vstd::std_specs::hash::group_hash_axioms;

/// The number under which a position is filed: one number for each
/// position, no two positions under the same.
pub open spec fn pos_key(p: Pos) -> int {
    p.x * 65536 + p.y
}

/// Two positions with the same number are the same position.
pub proof fn lemma_pos_key_injective(p: Pos, q: Pos)
    requires
        pos_key(p) == pos_key(q),
    ensures
        p == q,
{
}

/// The events of the game, each at its position. A world is filled once
/// and then only read.
#[derive(Clone, Debug)]
pub struct World {
    events: HashMap<i64, Event>,
}

impl View for World {
    type V = Map<Pos, EventView>;

    closed spec fn view(&self) -> Map<Pos, EventView> {
        Map::new(
            |p: Pos| self.events@.contains_key(pos_key(p) as i64),
            |p: Pos| self.events@[pos_key(p) as i64]@,
        )
    }
}

fn key_of(p: &Pos) -> (k: i64)
    ensures
        k == pos_key(*p),
{
    let x: i64 = p.x as i64;
    let y: i64 = p.y as i64;
    x * 65536 + y
}

impl World {
    /// A world without events.
    pub fn new() -> (w: World)
        ensures
            w@ == Map::<Pos, EventView>::empty(),
    {
        let w = World { events: HashMap::new() };
        assert(w@ =~= Map::<Pos, EventView>::empty());
        w
    }

    /// Puts `event` at `pos`, in place of an event that stood there.
    pub fn insert(&mut self, pos: Pos, event: Event)
        ensures
            final(self)@ == old(self)@.insert(pos, event@),
    {
        let k = key_of(&pos);
        self.events.insert(k, event);
        assert forall|p: Pos| p != pos implies pos_key(p) as i64 != k by {
            if pos_key(p) as i64 == k {
                lemma_pos_key_injective(p, pos);
            }
        }
        assert(self@ =~= old(self)@.insert(pos, event@));
    }

    /// The event at `pos`.
    pub fn get(&self, pos: &Pos) -> (r: Option<&Event>)
        ensures
            match r {
                Some(e) => self@.contains_key(*pos) && self@[*pos] == e@,
                None => !self@.contains_key(*pos),
            },
    {
        let k = key_of(pos);
        self.events.get(&k)
    }
}

} // verus!
