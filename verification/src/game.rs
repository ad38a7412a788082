//! The state of one playthrough and the rules by which a turn changes it.

use vstd::prelude::*;
use crate::action::{Action, ActionView};
use crate::grid::{clamp, Pos, MAX};
use crate::item::{Item, ItemView};
use crate::seqs::{lemma_views_push, views};
use crate::tree::{Event, EventNode, EventNodeView, EventTree, EventTreeView, EventView};
use crate::world::World;

verus! {

/// What changes while the game is played.
#[derive(Clone, Debug)]
pub struct State {
    /// Where the player stands.
    pub pos: Pos,
    /// What the player carries, oldest first.
    pub inventory: Vec<Item>,
    /// The event at `pos` as it was found on arrival.
    pub current_event: Option<Event>,
    /// Inside an event: the tree below the node that the player is at.
    pub traversal: Option<EventTree>,
    /// The actions taken since the event was entered.
    pub path: Vec<Action>,
    /// The paths to the nodes that have handed out their items since the
    /// event was entered.
    pub granted: Vec<Vec<Action>>,
}

/// The mathematical value of a [`State`].
pub struct StateView {
    pub pos: Pos,
    pub inventory: Seq<ItemView>,
    pub current_event: Option<EventView>,
    pub traversal: Option<EventTreeView>,
    pub path: Seq<ActionView>,
    pub granted: Seq<Seq<ActionView>>,
}

/// The values of a list of paths.
pub open spec fn paths_view(paths: Seq<Vec<Action>>) -> Seq<Seq<ActionView>> {
    paths.map_values(|p: Vec<Action>| views(p@))
}

impl View for State {
    type V = StateView;

    open spec fn view(&self) -> StateView {
        StateView {
            pos: self.pos,
            inventory: views(self.inventory@),
            current_event: match self.current_event {
                Some(e) => Some(e@),
                None => None,
            },
            traversal: match self.traversal {
                Some(t) => Some(t@),
                None => None,
            },
            path: views(self.path@),
            granted: paths_view(self.granted@),
        }
    }
}

impl StateView {
    /// The state in which every game starts: at the origin, with nothing
    /// in hand and outside any event.
    pub open spec fn initial() -> StateView {
        StateView {
            pos: Pos { x: 0, y: 0 },
            inventory: Seq::empty(),
            current_event: None,
            traversal: None,
            path: Seq::empty(),
            granted: Seq::empty(),
        }
    }
}

/// A game: one world and the state of one playthrough in it.
#[derive(Clone, Debug)]
pub struct Reality {
    pub state: State,
    pub world: World,
}

/// The mathematical value of a [`Reality`].
pub struct RealityView {
    pub state: StateView,
    pub world: Map<Pos, EventView>,
}

impl View for Reality {
    type V = RealityView;

    open spec fn view(&self) -> RealityView {
        RealityView { state: self.state@, world: self.world@ }
    }
}

impl Default for Reality {
    /// The initial state in an empty world.
    fn default() -> (r: Self)
        ensures
            r@ == (RealityView { state: StateView::initial(), world: Map::empty() }),
    {
        let r = Reality {
            state: State {
                pos: Pos { x: 0, y: 0 },
                inventory: Vec::new(),
                current_event: None,
                traversal: None,
                path: Vec::new(),
                granted: Vec::new(),
            },
            world: World::new(),
        };
        assert(r@.state.inventory =~= Seq::empty());
        assert(r@.state.path =~= Seq::empty());
        assert(r@.state.granted =~= Seq::empty());
        r
    }
}

/// Whether `input` is the one letter `lower` or its capital `upper`.
pub open spec fn is_letter(input: Seq<char>, lower: char, upper: char) -> bool {
    input == seq![lower] || input == seq![upper]
}

/// Whether `input` is a command to step: one of `w`, `a`, `s`, `d`, or its
/// capital.
pub open spec fn is_step(input: Seq<char>) -> bool {
    is_letter(input, 'w', 'W') || is_letter(input, 'a', 'A') || is_letter(input, 's', 'S')
        || is_letter(input, 'd', 'D')
}

/// The step that a command to step takes: `w` north, `a` west, `s` south,
/// `d` east.
pub open spec fn step_of(input: Seq<char>) -> (int, int) {
    if is_letter(input, 'w', 'W') {
        (0, 1)
    } else if is_letter(input, 'a', 'A') {
        (-1, 0)
    } else if is_letter(input, 's', 'S') {
        (0, -1)
    } else if is_letter(input, 'd', 'D') {
        (1, 0)
    } else {
        (0, 0)
    }
}

/// Whether `a` is the command to go back: the plain command `q` or `Q`.
pub open spec fn is_back(a: ActionView) -> bool {
    a == ActionView::Simple(seq!['q']) || a == ActionView::Simple(seq!['Q'])
}

/// What entering a node does to the inventory and to the node: the items
/// of the node go to the end of the inventory, the last one first, and the
/// node keeps none.
pub open spec fn drained(inventory: Seq<ItemView>, node: EventNodeView) -> (
    Seq<ItemView>,
    EventNodeView,
) {
    (inventory + node.items.reverse(), EventNodeView { text: node.text, items: Seq::empty() })
}

/// The tree `n` as the player finds it: without the items of its root
/// where they have been handed out.
pub open spec fn found(n: EventTreeView, handed_out: bool) -> EventTreeView {
    if handed_out {
        EventTreeView {
            node: EventNodeView { text: n.node.text, items: Seq::empty() },
            sub: n.sub,
        }
    } else {
        n
    }
}

impl RealityView {
    /// Whether a backtrack can be carried out: with actions on the path,
    /// the path without its last action leads somewhere in the tree of the
    /// world's event at the position.
    pub open spec fn can_backtrack(self) -> bool {
        self.state.path.len() > 0 ==> (self.world.get(self.state.pos) matches Some(e)
            && e.tree.resolve(self.state.path.drop_last()) is Some)
    }

    /// Whether the action `a` can be carried out: where it goes back, the
    /// backtrack can be.
    pub open spec fn can_progress(self, a: ActionView) -> bool {
        self.state.traversal is Some && is_back(a) ==> self.can_backtrack()
    }

    /// The player stepping by `(dx, dy)`, kept inside the field: the event
    /// of the new position is at hand, and no event is entered.
    pub open spec fn moved(self, dx: int, dy: int) -> RealityView {
        let pos = Pos {
            x: clamp(self.state.pos.x + dx, MAX as int) as i16,
            y: clamp(self.state.pos.y + dy, MAX as int) as i16,
        };
        RealityView {
            state: StateView {
                pos,
                inventory: self.state.inventory,
                current_event: self.world.get(pos),
                traversal: None,
                path: Seq::empty(),
                granted: Seq::empty(),
            },
            world: self.world,
        }
    }

    /// The player entering the event at the position, at the root of its
    /// tree, with no node visited yet; nothing changes where no event stands
    /// there.
    pub open spec fn encounter(self) -> RealityView {
        match self.world.get(self.state.pos) {
            Some(event) => RealityView {
                state: StateView {
                    pos: self.state.pos,
                    inventory: self.state.inventory,
                    current_event: self.state.current_event,
                    traversal: Some(event.tree),
                    path: Seq::empty(),
                    granted: Seq::empty(),
                },
                world: self.world,
            },
            None => self,
        }
    }

    /// A command given outside an event: `f` or `F` enters the event at the
    /// position, a command to step is a step, and any other input changes
    /// nothing.
    pub open spec fn travel(self, input: Seq<char>) -> RealityView {
        if is_letter(input, 'f', 'F') {
            self.encounter()
        } else if is_step(input) {
            self.moved(step_of(input).0, step_of(input).1)
        } else {
            self
        }
    }

    /// The player taking the edge labelled `a`: the action joins the path
    /// and the player is at the node behind the edge. On the first visit
    /// since the event was entered the items of that node join the inventory;
    /// on a later visit nothing does. Nothing changes outside an event or
    /// where no such edge exists.
    pub open spec fn descend(self, a: ActionView) -> RealityView {
        match self.state.traversal {
            Some(t) => match t.child(a) {
                Some(c) => {
                    let path = self.state.path.push(a);
                    let first = !self.state.granted.contains(path);
                    RealityView {
                        state: StateView {
                            pos: self.state.pos,
                            inventory: if first {
                                drained(self.state.inventory, c.node).0
                            } else {
                                self.state.inventory
                            },
                            current_event: self.state.current_event,
                            traversal: Some(found(c, true)),
                            path,
                            granted: if first {
                                self.state.granted.push(path)
                            } else {
                                self.state.granted
                            },
                        },
                        world: self.world,
                    }
                },
                None => self,
            },
            None => self,
        }
    }

    /// The player going back by one action: the path loses its last action
    /// and the player is where the rest of the path leads from the root of
    /// the world's event at the position, at a node that keeps no items it
    /// has handed out. Nothing changes at the root, where the path is empty.
    pub open spec fn back(self) -> RealityView {
        if self.state.path.len() == 0 {
            self
        } else {
            let path = self.state.path.drop_last();
            RealityView {
                state: StateView {
                    pos: self.state.pos,
                    inventory: self.state.inventory,
                    current_event: self.state.current_event,
                    traversal: match self.world.get(self.state.pos) {
                        Some(e) => match e.tree.resolve(path) {
                            Some(n) => Some(found(n, self.state.granted.contains(path))),
                            None => None,
                        },
                        None => None,
                    },
                    path,
                    granted: self.state.granted,
                },
                world: self.world,
            }
        }
    }

    /// The action `a` carried out: inside an event the command to go back
    /// goes back, and any other action takes the edge that it labels.
    pub open spec fn progress(self, a: ActionView) -> RealityView {
        if self.state.traversal is Some && is_back(a) {
            self.back()
        } else {
            self.descend(a)
        }
    }
}

pub(crate) fn has_letter(input: &str, lower: char, upper: char) -> (r: bool)
    ensures
        r == is_letter(input@, lower, upper),
{
    if input.unicode_len() == 1 {
        let c = input.get_char(0);
        assert(c == lower ==> input@ =~= seq![lower]);
        assert(c == upper ==> input@ =~= seq![upper]);
        c == lower || c == upper
    } else {
        false
    }
}

/// Moves the items of `node` to the end of `inventory`, the last one
/// first.
pub fn do_node(inventory: &mut Vec<Item>, node: &mut EventNode)
    ensures
        views(final(inventory)@) == drained(views(old(inventory)@), old(node)@).0,
        final(node)@ == drained(views(old(inventory)@), old(node)@).1,
{
    let ghost items = views(node.items@);
    let ghost before = views(inventory@);
    loop
        invariant
            node.text == old(node).text,
            node.items@.len() <= items.len(),
            views(node.items@) == items.take(node.items@.len() as int),
            views(inventory@) == before + items.skip(node.items@.len() as int).reverse(),
            items == views(old(node).items@),
            before == views(old(inventory)@),
        ensures
            node.text == old(node).text,
            node.items@.len() == 0,
            views(inventory@) == before + items.reverse(),
        decreases node.items@.len(),
    {
        let ghost n = node.items@.len() as int;
        let ghost held = node.items@;
        let ghost carried = inventory@;
        match node.items.pop() {
            None => {
                assert(items.skip(0) =~= items);
                break ;
            },
            Some(item) => {
                assert(views(held)[n - 1] == held[n - 1]@);
                assert(items.take(n)[n - 1] == items[n - 1]);
                inventory.push(item);
                assert(views(node.items@) =~= items.take(n - 1));
                assert(items.skip(n - 1).reverse() =~= items.skip(n).reverse().push(
                    items[n - 1],
                ));
                assert(views(inventory@) =~= views(carried).push(item@));
            },
        }
    }
    assert(views(node.items@) =~= Seq::empty());
}

proof fn lemma_enter_is_no_step(input: Seq<char>)
    requires
        is_letter(input, 'f', 'F'),
    ensures
        !is_step(input),
{
    assert(seq!['f'][0] == 'f' && seq!['F'][0] == 'F');
    assert(seq!['w'][0] == 'w' && seq!['W'][0] == 'W');
    assert(seq!['a'][0] == 'a' && seq!['A'][0] == 'A');
    assert(seq!['s'][0] == 's' && seq!['S'][0] == 'S');
    assert(seq!['d'][0] == 'd' && seq!['D'][0] == 'D');
}

fn step(v: i16, d: i16) -> (r: i16)
    requires
        -1 <= d <= 1,
    ensures
        clamp(r as int, MAX as int) == clamp(v + d, MAX as int),
{
    if d > 0 && v < i16::MAX {
        v + 1
    } else if d < 0 && v > i16::MIN {
        v - 1
    } else {
        v
    }
}

fn clone_path(path: &Vec<Action>) -> (r: Vec<Action>)
    ensures
        views(r@) == views(path@),
{
    let mut r: Vec<Action> = Vec::new();
    let mut i: usize = 0;
    while i < path.len()
        invariant
            i <= path.len(),
            r.len() == i,
            forall|j: int| 0 <= j < i ==> (#[trigger] r[j])@ == path[j]@,
        decreases path.len() - i,
    {
        r.push(path[i].clone());
        i += 1;
    }
    assert(views(r@) =~= views(path@));
    r
}

fn same_path(a: &Vec<Action>, b: &Vec<Action>) -> (r: bool)
    ensures
        r == (views(a@) == views(b@)),
{
    if a.len() != b.len() {
        assert(views(a@).len() != views(b@).len());
        return false;
    }
    let mut i: usize = 0;
    while i < a.len()
        invariant
            i <= a.len(),
            a.len() == b.len(),
            forall|j: int| 0 <= j < i ==> (#[trigger] a[j])@ == b[j]@,
        decreases a.len() - i,
    {
        if a[i] != b[i] {
            assert(views(a@)[i as int] == a[i as int]@);
            assert(views(b@)[i as int] == b[i as int]@);
            return false;
        }
        i += 1;
    }
    assert(views(a@) =~= views(b@));
    true
}

fn was_granted(granted: &Vec<Vec<Action>>, path: &Vec<Action>) -> (r: bool)
    ensures
        r == paths_view(granted@).contains(views(path@)),
{
    let mut i: usize = 0;
    while i < granted.len()
        invariant
            i <= granted.len(),
            forall|j: int| 0 <= j < i ==> paths_view(granted@)[j] != views(path@),
        decreases granted.len() - i,
    {
        if same_path(&granted[i], path) {
            assert(paths_view(granted@)[i as int] == views(path@));
            return true;
        }
        assert(paths_view(granted@)[i as int] == views(granted[i as int]@));
        i += 1;
    }
    false
}

fn is_back_action(act: &Action) -> (r: bool)
    ensures
        r == is_back(act@),
{
    match act {
        Action::Simple(s) => has_letter(s.as_str(), 'q', 'Q'),
        _ => false,
    }
}

impl Reality {
    /// Enters the event at the position, where one stands there.
    pub fn encounter(&mut self)
        ensures
            final(self)@ == old(self)@.encounter(),
    {
        match self.world.get(&self.state.pos) {
            Some(event) => {
                let tree = event.tree.clone();
                self.state.traversal = Some(tree);
                self.state.path = Vec::new();
                self.state.granted = Vec::new();
                assert(self@.state.path =~= Seq::empty());
                assert(self@.state.granted =~= Seq::empty());
            },
            None => {},
        }
    }

    /// Carries out a command given outside an event.
    pub fn travel(&mut self, dir: String)
        ensures
            final(self)@ == old(self)@.travel(dir@),
            is_step(dir@) ==> final(self).state.pos.within(MAX as int),
    {
        let input = dir.as_str();
        if has_letter(input, 'f', 'F') {
            proof {
                lemma_enter_is_no_step(dir@);
            }
            self.encounter();
            return ;
        }
        let mut dx: i16 = 0;
        let mut dy: i16 = 0;
        if has_letter(input, 'w', 'W') {
            dy = 1;
        } else if has_letter(input, 'a', 'A') {
            dx = -1;
        } else if has_letter(input, 's', 'S') {
            dy = -1;
        } else if has_letter(input, 'd', 'D') {
            dx = 1;
        } else {
            return ;
        }
        let stepped = Pos { x: step(self.state.pos.x, dx), y: step(self.state.pos.y, dy) };
        self.state.pos = stepped.bound(MAX);
        self.state.current_event = match self.world.get(&self.state.pos) {
            Some(event) => Some(event.clone()),
            None => None,
        };
        self.state.traversal = None;
        self.state.path = Vec::new();
        self.state.granted = Vec::new();
        assert(self@.state.path =~= Seq::empty());
        assert(self@.state.granted =~= Seq::empty());
    }

    /// Whether a backtrack can be carried out from this state.
    pub fn can_backtrack(&self) -> (b: bool)
        ensures
            b == self@.can_backtrack(),
    {
        if self.state.path.len() == 0 {
            return true;
        }
        match self.world.get(&self.state.pos) {
            Some(e) => {
                let mut shorter = clone_path(&self.state.path);
                shorter.pop();
                assert(views(shorter@) =~= views(self.state.path@).drop_last());
                e.tree.get_node(&shorter).is_ok()
            },
            None => false,
        }
    }

    /// Goes back by one action.
    pub fn back(&mut self)
        requires
            old(self)@.can_backtrack(),
        ensures
            final(self)@ == old(self)@.back(),
    {
        if self.state.path.len() == 0 {
            return ;
        }
        self.state.path.pop();
        assert(views(self.state.path@) =~= views(old(self).state.path@).drop_last());
        let replayed = match self.world.get(&self.state.pos) {
            Some(e) => e.tree.get_node(&self.state.path).ok(),
            None => None,
        };
        self.state.traversal = match replayed {
            Some(node) => {
                if was_granted(&self.state.granted, &self.state.path) {
                    Some(node.without_items())
                } else {
                    Some(node)
                }
            },
            None => None,
        };
    }

    /// Takes the edge labelled `act` from the node the player is at.
    pub fn descend(&mut self, act: Action)
        ensures
            final(self)@ == old(self)@.descend(act@),
    {
        let mut next: EventTree = match &self.state.traversal {
            Some(t) => match t.child(&act) {
                Some(c) => c.clone(),
                None => {
                    return ;
                },
            },
            None => {
                return ;
            },
        };
        proof {
            lemma_views_push(self.state.path@, act);
        }
        self.state.path.push(act);
        if was_granted(&self.state.granted, &self.state.path) {
            self.state.traversal = Some(next.without_items());
        } else {
            let ghost target = next@;
            let ghost before = self.state.granted@;
            do_node(&mut self.state.inventory, &mut next.node);
            assert(next@.sub =~= target.sub);
            let reached = clone_path(&self.state.path);
            self.state.granted.push(reached);
            assert(paths_view(self.state.granted@) =~= paths_view(before).push(
                views(self.state.path@),
            ));
            self.state.traversal = Some(next);
        }
    }

    /// Carries out the action `act`: goes back on the command to go back,
    /// and takes the edge that any other action labels.
    pub fn progress(&mut self, act: Action)
        requires
            old(self)@.can_progress(act@),
        ensures
            final(self)@ == old(self)@.progress(act@),
    {
        if self.state.traversal.is_some() && is_back_action(&act) {
            self.back();
        } else {
            self.descend(act);
        }
    }
}

} // verus!
