//! Items that events grant and the player carries.

use vstd::prelude::*;
use vstd::std_specs::cmp::PartialEqSpecImpl;

verus! {

/// What makes an item a weapon.
#[derive(Clone, Copy, Debug, PartialEq, Eq, Structural, Hash)]
pub struct WeaponData {
    pub damage: u16,
}

/// The kind of an item.
#[derive(Clone, Copy, Debug, PartialEq, Eq, Structural, Hash)]
pub enum ItemType {
    Weapon(WeaponData),
    Normal,
}

/// An item. Two items with the same id, name and kind are interchangeable.
#[derive(Debug, Hash)]
pub struct Item {
    pub id: u16,
    pub name: String,
    pub item_type: ItemType,
}

/// The mathematical value of an [`Item`].
pub struct ItemView {
    pub id: u16,
    pub name: Seq<char>,
    pub item_type: ItemType,
}

impl View for Item {
    type V = ItemView;

    open spec fn view(&self) -> ItemView {
        ItemView { id: self.id, name: self.name@, item_type: self.item_type }
    }
}

impl Clone for Item {
    fn clone(&self) -> (r: Self)
        ensures
            r@ == self@,
    {
        Item { id: self.id, name: self.name.clone(), item_type: self.item_type }
    }
}

impl PartialEq for Item {
    fn eq(&self, other: &Self) -> (r: bool) {
        self.id == other.id && self.name == other.name && self.item_type == other.item_type
    }
}

impl PartialEqSpecImpl for Item {
    open spec fn obeys_eq_spec() -> bool {
        true
    }

    open spec fn eq_spec(&self, other: &Self) -> bool {
        self@ == other@
    }
}

impl Eq for Item {

}

} // verus!
