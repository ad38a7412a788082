//! What the game shows: the state as text, the inventory, and the menu
//! from which an item is picked.

use vstd::prelude::*;
use crate::game::{Reality, StateView};
use crate::grid::Pos;
use crate::item::{Item, ItemType, ItemView};
use crate::seqs::views;
use crate::text::{decimal, digits, integer_text, natural_text};

verus! {

/// The line that tells where the player stands.
pub open spec fn position_line(pos: Pos) -> Seq<char> {
    "You are at ("@ + decimal(pos.x as int) + ", "@ + decimal(pos.y as int) + ")"@
}

/// What is shown of a state. Inside an event: the text of the node that
/// the player is at. Outside: the position, and the preview of the event at
/// hand where there is one.
pub open spec fn output_lines(state: StateView) -> Seq<Seq<char>> {
    match state.traversal {
        Some(t) => seq![t.node.text],
        None => match state.current_event {
            Some(e) => seq![position_line(state.pos), e.preview],
            None => seq![position_line(state.pos)],
        },
    }
}

/// The line of an item in the listing of the inventory: its name, and for
/// a weapon its damage.
pub open spec fn item_line(item: ItemView) -> Seq<char> {
    match item.item_type {
        ItemType::Weapon(w) => item.name + ": "@ + digits(w.damage as nat) + " damage"@,
        ItemType::Normal => item.name,
    }
}

/// The listing of an inventory: a line for each item, or one line that
/// says that there is none.
pub open spec fn inventory_lines(inventory: Seq<ItemView>) -> Seq<Seq<char>> {
    if inventory.len() == 0 {
        seq!["You have no items."@]
    } else {
        inventory.map_values(|item: ItemView| item_line(item))
    }
}

/// The line of the item at index `i` in the menu: the index, a full stop,
/// a blank and the name.
pub open spec fn menu_line(i: int, item: ItemView) -> Seq<char> {
    digits(i as nat) + ". "@ + item.name
}

/// The menu from which an item is picked: a line for each item.
pub open spec fn menu_lines(inventory: Seq<ItemView>) -> Seq<Seq<char>> {
    Seq::new(inventory.len(), |i: int| menu_line(i, inventory[i]))
}

fn position_text(pos: &Pos) -> (s: String)
    ensures
        s@ == position_line(*pos),
{
    let mut s = String::from_str("You are at (");
    s.append(integer_text(pos.x as i64).as_str());
    s.append(", ");
    s.append(integer_text(pos.y as i64).as_str());
    s.append(")");
    s
}

fn item_text(item: &Item) -> (s: String)
    ensures
        s@ == item_line(item@),
{
    let mut s = item.name.clone();
    match item.item_type {
        ItemType::Weapon(w) => {
            s.append(": ");
            s.append(natural_text(w.damage as u64).as_str());
            s.append(" damage");
        },
        ItemType::Normal => {},
    }
    s
}

impl Reality {
    /// What is shown of the game as it stands.
    pub fn output(&self) -> (lines: Vec<String>)
        ensures
            views(lines@) == output_lines(self@.state),
    {
        let mut lines: Vec<String> = Vec::new();
        match &self.state.traversal {
            Some(t) => {
                lines.push(t.node.text.clone());
            },
            None => {
                lines.push(position_text(&self.state.pos));
                match &self.state.current_event {
                    Some(e) => {
                        lines.push(e.preview.clone());
                    },
                    None => {},
                }
            },
        }
        assert(views(lines@) =~= output_lines(self@.state));
        lines
    }

    /// The listing of the inventory.
    pub fn inventory_listing(&self) -> (lines: Vec<String>)
        ensures
            views(lines@) == inventory_lines(self@.state.inventory),
    {
        let mut lines: Vec<String> = Vec::new();
        let mut i: usize = 0;
        while i < self.state.inventory.len()
            invariant
                i <= self.state.inventory.len(),
                lines.len() == i,
                forall|j: int|
                    0 <= j < i ==> (#[trigger] lines[j])@ == item_line(self.state.inventory[j]@),
            decreases self.state.inventory.len() - i,
        {
            lines.push(item_text(&self.state.inventory[i]));
            i += 1;
        }
        if self.state.inventory.len() == 0 {
            lines.push(String::from_str("You have no items."));
        }
        assert(views(lines@) =~= inventory_lines(self@.state.inventory));
        lines
    }

    /// The menu from which an item is picked.
    pub fn item_menu(&self) -> (lines: Vec<String>)
        ensures
            views(lines@) == menu_lines(self@.state.inventory),
    {
        let mut lines: Vec<String> = Vec::new();
        let mut i: usize = 0;
        while i < self.state.inventory.len()
            invariant
                i <= self.state.inventory.len(),
                lines.len() == i,
                forall|j: int|
                    0 <= j < i ==> (#[trigger] lines[j])@ == menu_line(
                        j,
                        self.state.inventory[j]@,
                    ),
            decreases self.state.inventory.len() - i,
        {
            let mut line = natural_text(i as u64);
            line.append(". ");
            line.append(self.state.inventory[i].name.as_str());
            lines.push(line);
            i += 1;
        }
        assert(views(lines@) =~= menu_lines(self@.state.inventory));
        lines
    }
}

} // verus!
