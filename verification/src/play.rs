//! A turn: how a line of input is read as a command, and what it does.

use vstd::prelude::*;
use crate::action::{Action, ActionView};
use crate::game::{has_letter, is_letter, Reality, RealityView};
use crate::item::{Item, ItemView};
use crate::render::{inventory_lines, menu_lines, output_lines};
use crate::laws::{lemma_turn_keeps_wf, lemma_wf_can_turn};
use crate::seqs::views;
use crate::text::{index_of_text, parse_index};

verus! {

/// The item that the reply `reply` picks from `inventory`: the one at the
/// index that the reply writes, where the inventory reaches that far.
pub open spec fn chosen(inventory: Seq<ItemView>, reply: Seq<char>) -> Option<ItemView> {
    match index_of_text(reply) {
        Some(n) => if n < inventory.len() {
            Some(inventory[n as int])
        } else {
            None
        },
        None => None,
    }
}

/// Whether `input` is the one-letter text `"i"`.
pub open spec fn is_listing(input: Seq<char>) -> bool {
    input == seq!['i']
}

impl RealityView {
    /// Whether `input`, given now, asks for an item to be picked: inside an
    /// event, `e` or `E`.
    pub open spec fn wants_item(self, input: Seq<char>) -> bool {
        self.state.traversal is Some && is_letter(input, 'e', 'E')
    }

    /// The action that `input` stands for inside an event: `e` or `E` is
    /// the use of the item that `reply` picks, and no action where it picks
    /// none; any other input is a plain command.
    pub open spec fn action_of(self, input: Seq<char>, reply: Seq<char>) -> Option<ActionView> {
        if is_letter(input, 'e', 'E') {
            match chosen(self.state.inventory, reply) {
                Some(item) => Some(ActionView::UseItem(item.id)),
                None => None,
            }
        } else {
            Some(ActionView::Simple(input))
        }
    }

    /// The game after a turn with the input `input`, and with `reply` as
    /// the answer to the menu where the input asks for an item. Outside an
    /// event `i` changes nothing and any other input is a travel command.
    /// Inside an event the input is an action to carry out: `q` or `Q` goes
    /// back, and any other takes the edge that it labels.
    pub open spec fn turn(self, input: Seq<char>, reply: Seq<char>) -> RealityView {
        match self.state.traversal {
            None => if is_listing(input) {
                self
            } else {
                self.travel(input)
            },
            Some(_) => match self.action_of(input, reply) {
                Some(a) => self.progress(a),
                None => self,
            },
        }
    }

    /// What a turn with the input `input` shows by itself: outside an
    /// event, on `i`, the listing of the inventory; else nothing.
    pub open spec fn turn_lines(self, input: Seq<char>) -> Seq<Seq<char>> {
        if self.state.traversal is None && is_listing(input) {
            inventory_lines(self.state.inventory)
        } else {
            Seq::empty()
        }
    }

    /// Whether the turn with the input `input` can be carried out: where it
    /// goes back, the backtrack can be.
    pub open spec fn can_turn(self, input: Seq<char>) -> bool {
        self.state.traversal is Some && is_letter(input, 'q', 'Q') ==> self.can_backtrack()
    }

    /// Everything shown in one round: the game as it stands, the menu where
    /// the input asks for an item, and what the turn shows.
    pub open spec fn round_lines(self, input: Seq<char>) -> Seq<Seq<char>> {
        output_lines(self.state) + (if self.wants_item(input) {
            menu_lines(self.state.inventory)
        } else {
            Seq::empty()
        }) + self.turn_lines(input)
    }
}

impl Reality {
    /// The item that the reply to the menu picks.
    pub fn choose_item(&self, reply: &str) -> (r: Option<Item>)
        ensures
            match r {
                Some(item) => chosen(self@.state.inventory, reply@) == Some(item@),
                None => chosen(self@.state.inventory, reply@) is None,
            },
    {
        assert(self@.state.inventory.len() == self.state.inventory.len());
        match parse_index(reply) {
            Some(n) => {
                if n < self.state.inventory.len() {
                    assert(self@.state.inventory[n as int] == self.state.inventory[n as int]@);
                    Some(self.state.inventory[n].clone())
                } else {
                    None
                }
            },
            None => None,
        }
    }

    /// Whether `input`, given now, asks for an item to be picked.
    pub fn wants_item(&self, input: &str) -> (b: bool)
        ensures
            b == self@.wants_item(input@),
    {
        self.state.traversal.is_some() && has_letter(input, 'e', 'E')
    }

    /// The action that `input` stands for inside an event.
    pub fn get_action(&self, input: String, reply: &str) -> (r: Option<Action>)
        ensures
            match r {
                Some(a) => self@.action_of(input@, reply@) == Some(a@),
                None => self@.action_of(input@, reply@) is None,
            },
    {
        if has_letter(input.as_str(), 'e', 'E') {
            match self.choose_item(reply) {
                Some(item) => Some(Action::UseItem(item.id)),
                None => None,
            }
        } else {
            Some(Action::Simple(input))
        }
    }

    /// Whether the turn with the input `input` can be carried out.
    pub fn can_turn(&self, input: &str) -> (b: bool)
        ensures
            b == self@.can_turn(input@),
    {
        if self.state.traversal.is_some() && has_letter(input, 'q', 'Q') {
            self.can_backtrack()
        } else {
            true
        }
    }

    /// Plays one turn and hands out what it shows.
    pub fn turn(&mut self, input: String, reply: &str) -> (lines: Vec<String>)
        requires
            old(self)@.can_turn(input@),
        ensures
            final(self)@ == old(self)@.turn(input@, reply@),
            views(lines@) == old(self)@.turn_lines(input@),
    {
        let mut lines: Vec<String> = Vec::new();
        assert(views(lines@) =~= Seq::empty());
        if self.state.traversal.is_none() {
            if input.as_str().unicode_len() == 1 && input.as_str().get_char(0) == 'i' {
                assert(input@ =~= seq!['i']);
                lines = self.inventory_listing();
            } else {
                self.travel(input);
            }
        } else {
            match self.get_action(input, reply) {
                Some(action) => {
                    self.progress(action);
                },
                None => {},
            }
        }
        lines
    }
}

impl RealityView {
    /// The game played over the lines `inputs`, and everything shown on the
    /// way. Each round takes one line as its input; where that input asks for
    /// an item, the next line is the reply to the menu, and an empty reply
    /// stands in where the lines have run out.
    pub open spec fn run(self, inputs: Seq<Seq<char>>) -> (RealityView, Seq<Seq<char>>)
        decreases inputs.len(),
    {
        if inputs.len() == 0 {
            (self, Seq::empty())
        } else {
            let asks = self.wants_item(inputs[0]) && inputs.len() > 1;
            let reply = if asks {
                inputs[1]
            } else {
                Seq::empty()
            };
            let rest = inputs.skip(
                if asks {
                    2
                } else {
                    1
                },
            );
            let played = self.turn(inputs[0], reply).run(rest);
            (played.0, self.round_lines(inputs[0]) + played.1)
        }
    }
}

impl Reality {
    /// Plays one round: shows the game, then plays the turn with the input
    /// `line`, and with `reply` as the answer to the menu where the input asks
    /// for an item. Hands out everything shown.
    pub fn input(&mut self, line: String, reply: &str) -> (lines: Vec<String>)
        requires
            old(self)@.can_turn(line@),
        ensures
            final(self)@ == old(self)@.turn(line@, reply@),
            views(lines@) == old(self)@.round_lines(line@),
    {
        let mut lines = self.output();
        if self.wants_item(line.as_str()) {
            let mut menu = self.item_menu();
            let ghost head = lines@;
            let ghost tail = menu@;
            lines.append(&mut menu);
            assert(views(lines@) =~= views(head) + views(tail));
        }
        let ghost head = lines@;
        let mut shown = self.turn(line, reply);
        let ghost tail = shown@;
        lines.append(&mut shown);
        assert(views(lines@) =~= views(head) + views(tail));
        assert(views(head) + Seq::<Seq<char>>::empty() =~= views(head));
        lines
    }

    /// Plays the game over the lines `inputs` and hands out everything
    /// shown on the way.
    pub fn run(&mut self, inputs: &Vec<String>) -> (lines: Vec<String>)
        requires
            old(self)@.wf(),
        ensures
            final(self)@ == old(self)@.run(views(inputs@)).0,
            views(lines@) == old(self)@.run(views(inputs@)).1,
            final(self)@.wf(),
    {
        let ghost all = views(inputs@);
        let mut lines: Vec<String> = Vec::new();
        let mut i: usize = 0;
        assert(all.skip(0) =~= all);
        assert(views(lines@) + self@.run(all).1 =~= self@.run(all).1);
        while i < inputs.len()
            invariant
                i <= inputs.len(),
                all == views(inputs@),
                self@.wf(),
                old(self)@.run(all).0 == self@.run(all.skip(i as int)).0,
                old(self)@.run(all).1 == views(lines@) + self@.run(all.skip(i as int)).1,
            decreases inputs.len() - i,
        {
            let ghost rest = all.skip(i as int);
            let ghost before = self@;
            let ghost head = lines@;
            assert(rest[0] == inputs[i as int]@);
            let line = inputs[i].clone();
            let asks = self.wants_item(line.as_str()) && i + 1 < inputs.len();
            let empty = String::new();
            let reply: &String = if asks {
                assert(rest[1] == inputs[i + 1]@);
                &inputs[i + 1]
            } else {
                &empty
            };
            proof {
                lemma_wf_can_turn(before, line@);
                lemma_turn_keeps_wf(before, line@, reply@);
            }
            let mut shown = self.input(line, reply.as_str());
            let ghost tail = shown@;
            lines.append(&mut shown);
            assert(views(lines@) =~= views(head) + views(tail));
            if asks {
                assert(rest.skip(2) =~= all.skip(i + 2));
                i += 2;
            } else {
                assert(rest.skip(1) =~= all.skip(i + 1));
                i += 1;
            }
            assert(old(self)@.run(all).1 =~= views(lines@) + self@.run(all.skip(i as int)).1);
        }
        assert(all.skip(i as int).len() == 0);
        assert(views(lines@) + Seq::<Seq<char>>::empty() =~= views(lines@));
        lines
    }
}

} // verus!
