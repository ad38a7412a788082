//! Loading a world from a KDL document.
//!
//! A document is a list of nodes. A node `event` with two integers, a child
//! `preview` holding a string, and a child `tree` places an event. Inside a
//! tree, `text` sets what the node shows, each `item` adds an item that the
//! node grants, and each `tree` with a string or an integer adds an edge.

use vstd::prelude::*;
use crate::action::{Action, ActionView};
use crate::document::{
    kdl_parse,
    nodes_view,
    read_document,
    DocNode,
    DocNodeView,
    DocValue,
    DocValueView,
};
use crate::edges::lemma_with_edge_wf;
use crate::game::{Reality, RealityView, StateView};
use crate::grid::Pos;
use crate::item::{Item, ItemType, ItemView, WeaponData};
use crate::tree::{Event, EventNode, EventNodeView, EventTree, EventTreeView, EventView};

verus! {

/// Whether `i` is the first node of `doc` named `name`.
pub open spec fn is_first_named(doc: Seq<DocNodeView>, name: Seq<char>, i: int) -> bool {
    &&& 0 <= i < doc.len()
    &&& doc[i].name == name
    &&& forall|j: int| 0 <= j < i ==> (#[trigger] doc[j]).name != name
}

/// The first node of `doc` named `name`.
pub open spec fn named(doc: Seq<DocNodeView>, name: Seq<char>) -> Option<DocNodeView> {
    if exists|i: int| is_first_named(doc, name, i) {
        Some(doc[choose|i: int| is_first_named(doc, name, i)])
    } else {
        None
    }
}

/// The string that is the entry `i` of `n`.
pub open spec fn text_at(n: DocNodeView, i: int) -> Option<Seq<char>> {
    if 0 <= i < n.entries.len() {
        match n.entries[i] {
            DocValueView::Text(s) => Some(s),
            _ => None,
        }
    } else {
        None
    }
}

/// The integer that is the entry `i` of `n`.
pub open spec fn integer_at(n: DocNodeView, i: int) -> Option<i128> {
    if 0 <= i < n.entries.len() {
        match n.entries[i] {
            DocValueView::Integer(v) => Some(v),
            _ => None,
        }
    } else {
        None
    }
}

/// The kind of item that a node `type` states: `"N"` for a normal one,
/// `"W"` and the damage for a weapon. The damage is cut to 16 bits.
pub open spec fn item_type_of(n: DocNodeView) -> Option<ItemType> {
    match text_at(n, 0) {
        Some(kind) => if kind == "N"@ {
            Some(ItemType::Normal)
        } else if kind == "W"@ {
            match integer_at(n, 1) {
                Some(d) => Some(ItemType::Weapon(WeaponData { damage: d as u16 })),
                None => None,
            }
        } else {
            None
        },
        None => None,
    }
}

/// The item that the block `doc` describes by its nodes `id`, `name` and
/// `type`. The id is cut to 16 bits.
pub open spec fn item_of(doc: Seq<DocNodeView>) -> Option<ItemView> {
    match (named(doc, "id"@), named(doc, "name"@), named(doc, "type"@)) {
        (Some(id), Some(name), Some(kind)) => match (
            integer_at(id, 0),
            text_at(name, 0),
            item_type_of(kind),
        ) {
            (Some(i), Some(s), Some(t)) => Some(ItemView { id: i as u16, name: s, item_type: t }),
            _ => None,
        },
        _ => None,
    }
}

/// The action that labels the edge which a node `tree` adds: a string is
/// a plain command, an integer the use of the item with that id, cut to 16
/// bits.
pub open spec fn edge_action(n: DocNodeView) -> Option<ActionView> {
    if 0 < n.entries.len() {
        match n.entries[0] {
            DocValueView::Text(s) => Some(ActionView::Simple(s)),
            DocValueView::Integer(v) => Some(ActionView::UseItem(v as u16)),
            DocValueView::Other => None,
        }
    } else {
        None
    }
}

/// The tree without text, items or edges.
pub open spec fn empty_tree() -> EventTreeView {
    EventTreeView {
        node: EventNodeView { text: Seq::empty(), items: Seq::empty() },
        sub: Seq::empty(),
    }
}

/// The tree that the node `n` describes by its block of children; `None`
/// where it has no block or a child of the block is malformed.
pub open spec fn tree_of(n: DocNodeView) -> Option<EventTreeView>
    decreases n, 0nat,
{
    match n.children {
        Some(c) => tree_fold(c, c.len()),
        None => None,
    }
}

/// The tree after the first `k` nodes of the block `c` have been read.
pub open spec fn tree_fold(c: Seq<DocNodeView>, k: nat) -> Option<EventTreeView>
    decreases c, k,
{
    if k == 0 || k > c.len() {
        Some(empty_tree())
    } else {
        match tree_fold(c, (k - 1) as nat) {
            Some(acc) => {
                let child = c[k - 1];
                if child.name == "tree"@ {
                    match (edge_action(child), tree_of(child)) {
                        (Some(a), Some(t)) => Some(acc.with_edge(a, t)),
                        _ => None,
                    }
                } else {
                    tree_leaf_step(acc, child)
                }
            },
            None => None,
        }
    }
}

/// What a child other than `tree` does to the tree read so far: `text`
/// sets the text, `item` adds an item, any other is passed over.
pub open spec fn tree_leaf_step(acc: EventTreeView, child: DocNodeView) -> Option<EventTreeView> {
    if child.name == "text"@ {
        match text_at(child, 0) {
            Some(s) => Some(
                EventTreeView {
                    node: EventNodeView { text: s, items: acc.node.items },
                    sub: acc.sub,
                },
            ),
            None => None,
        }
    } else if child.name == "item"@ {
        match child.children {
            Some(block) => match item_of(block) {
                Some(it) => Some(
                    EventTreeView {
                        node: EventNodeView { text: acc.node.text, items: acc.node.items.push(it) },
                        sub: acc.sub,
                    },
                ),
                None => None,
            },
            None => None,
        }
    } else {
        Some(acc)
    }
}

/// The position and the event that a node `event` describes: two integers,
/// each cut to 16 bits, and among its children a `preview` with a string and
/// a `tree`.
pub open spec fn event_of(n: DocNodeView) -> Option<(Pos, EventView)> {
    match (integer_at(n, 0), integer_at(n, 1), n.children) {
        (Some(x), Some(y), Some(c)) => match (named(c, "preview"@), named(c, "tree"@)) {
            (Some(p), Some(t)) => match (text_at(p, 0), tree_of(t)) {
                (Some(preview), Some(tree)) => Some(
                    (Pos { x: x as i16, y: y as i16 }, EventView { preview, tree }),
                ),
                _ => None,
            },
            _ => None,
        },
        _ => None,
    }
}

/// The world after the first `k` nodes of `doc` have been read: each node
/// `event` places its event, in place of one placed there before; any other
/// node is passed over.
pub open spec fn world_fold(doc: Seq<DocNodeView>, k: nat) -> Option<Map<Pos, EventView>>
    decreases k,
{
    if k == 0 || k > doc.len() {
        Some(Map::empty())
    } else {
        match world_fold(doc, (k - 1) as nat) {
            Some(w) => if doc[k - 1].name == "event"@ {
                match event_of(doc[k - 1]) {
                    Some((pos, event)) => Some(w.insert(pos, event)),
                    None => None,
                }
            } else {
                Some(w)
            },
            None => None,
        }
    }
}

/// The game that a document describes: the initial state in the world of
/// its events; `None` where an event of the document is malformed.
pub open spec fn reality_of(doc: Seq<DocNodeView>) -> Option<RealityView> {
    match world_fold(doc, doc.len()) {
        Some(w) => Some(RealityView { state: StateView::initial(), world: w }),
        None => None,
    }
}

proof fn lemma_first_named_unique(doc: Seq<DocNodeView>, name: Seq<char>, i: int)
    requires
        is_first_named(doc, name, i),
    ensures
        named(doc, name) == Some(doc[i]),
{
    let k = choose|k: int| is_first_named(doc, name, k);
    if k < i {
        assert(doc[k].name != name);
    }
    if i < k {
        assert(doc[i].name != name);
    }
}

proof fn lemma_children_view(n: DocNode)
    ensures
        n@.children == match n.children {
            Some(c) => Some(nodes_view(c@)),
            None => None,
        },
{
    match n.children {
        Some(c) => {
            assert(n@.children->0 =~= nodes_view(c@));
        },
        None => {},
    }
}

/// The tree read from a node is well formed: no action labels two edges
/// of a node of it.
pub proof fn lemma_tree_of_wf(n: DocNodeView)
    ensures
        tree_of(n) matches Some(t) ==> t.wf(),
    decreases n, 0nat,
{
    match n.children {
        Some(c) => {
            lemma_tree_fold_wf(c, c.len());
        },
        None => {},
    }
}

proof fn lemma_tree_fold_wf(c: Seq<DocNodeView>, k: nat)
    ensures
        tree_fold(c, k) matches Some(t) ==> t.wf(),
    decreases c, k,
{
    if k == 0 || k > c.len() {
        assert(empty_tree().wf());
    } else {
        lemma_tree_fold_wf(c, (k - 1) as nat);
        match tree_fold(c, (k - 1) as nat) {
            Some(acc) => {
                let child = c[k - 1];
                if child.name == "tree"@ {
                    lemma_tree_of_wf(child);
                    match (edge_action(child), tree_of(child)) {
                        (Some(a), Some(t)) => {
                            lemma_with_edge_wf(acc, a, t);
                        },
                        _ => {},
                    }
                } else {
                    match tree_leaf_step(acc, child) {
                        Some(t) => {
                            assert(t.sub == acc.sub);
                            assert(t.wf());
                        },
                        None => {},
                    }
                }
            },
            None => {},
        }
    }
}

proof fn lemma_tree_fold_fails(c: Seq<DocNodeView>, k: nat, m: nat)
    requires
        k <= m <= c.len(),
        tree_fold(c, k) is None,
    ensures
        tree_fold(c, m) is None,
    decreases m,
{
    if k < m {
        lemma_tree_fold_fails(c, k, (m - 1) as nat);
    }
}

proof fn lemma_world_fold_fails(doc: Seq<DocNodeView>, k: nat, m: nat)
    requires
        k <= m <= doc.len(),
        world_fold(doc, k) is None,
    ensures
        world_fold(doc, m) is None,
    decreases m,
{
    if k < m {
        lemma_world_fold_fails(doc, k, (m - 1) as nat);
    }
}

fn find_node<'a>(doc: &'a Vec<DocNode>, name: &String) -> (r: Option<&'a DocNode>)
    ensures
        match r {
            Some(n) => named(nodes_view(doc@), name@) == Some(n@),
            None => named(nodes_view(doc@), name@) is None,
        },
{
    let ghost d = nodes_view(doc@);
    let mut i: usize = 0;
    while i < doc.len()
        invariant
            i <= doc.len(),
            d == nodes_view(doc@),
            forall|j: int| 0 <= j < i ==> (#[trigger] d[j]).name != name@,
        decreases doc.len() - i,
    {
        if doc[i].name == *name {
            proof {
                lemma_first_named_unique(d, name@, i as int);
            }
            return Some(&doc[i]);
        }
        i += 1;
    }
    None
}

fn entry_text(n: &DocNode, i: usize) -> (r: Option<&String>)
    ensures
        match r {
            Some(s) => text_at(n@, i as int) == Some(s@),
            None => text_at(n@, i as int) is None,
        },
{
    if i < n.entries.len() {
        match &n.entries[i] {
            DocValue::Text(s) => Some(s),
            _ => None,
        }
    } else {
        None
    }
}

fn entry_integer(n: &DocNode, i: usize) -> (r: Option<i128>)
    ensures
        r == integer_at(n@, i as int),
{
    if i < n.entries.len() {
        match &n.entries[i] {
            DocValue::Integer(v) => Some(*v),
            _ => None,
        }
    } else {
        None
    }
}

fn low_u16(v: i128) -> (r: u16)
    ensures
        r == v as u16,
{
    #[verifier::truncate]
    (v as u16)
}

fn low_i16(v: i128) -> (r: i16)
    ensures
        r == v as i16,
{
    #[verifier::truncate]
    (v as i16)
}

fn parse_item_type(n: &DocNode) -> (r: Option<ItemType>)
    ensures
        r == item_type_of(n@),
{
    match entry_text(n, 0) {
        Some(kind) => {
            if *kind == String::from_str("N") {
                Some(ItemType::Normal)
            } else if *kind == String::from_str("W") {
                match entry_integer(n, 1) {
                    Some(d) => Some(ItemType::Weapon(WeaponData { damage: low_u16(d) })),
                    None => None,
                }
            } else {
                None
            }
        },
        None => None,
    }
}

/// Reads an item out of the block of a node `item`.
pub fn parse_item(it: &Vec<DocNode>) -> (r: Option<Item>)
    ensures
        match r {
            Some(item) => item_of(nodes_view(it@)) == Some(item@),
            None => item_of(nodes_view(it@)) is None,
        },
{
    let id = match find_node(it, &String::from_str("id")) {
        Some(n) => match entry_integer(n, 0) {
            Some(v) => low_u16(v),
            None => {
                return None;
            },
        },
        None => {
            return None;
        },
    };
    let name = match find_node(it, &String::from_str("name")) {
        Some(n) => match entry_text(n, 0) {
            Some(s) => s.clone(),
            None => {
                return None;
            },
        },
        None => {
            return None;
        },
    };
    let item_type = match find_node(it, &String::from_str("type")) {
        Some(n) => match parse_item_type(n) {
            Some(t) => t,
            None => {
                return None;
            },
        },
        None => {
            return None;
        },
    };
    Some(Item { id, name, item_type })
}

fn parse_action(n: &DocNode) -> (r: Option<Action>)
    ensures
        match r {
            Some(a) => edge_action(n@) == Some(a@),
            None => edge_action(n@) is None,
        },
{
    if 0 < n.entries.len() {
        match &n.entries[0] {
            DocValue::Text(s) => Some(Action::Simple(s.clone())),
            DocValue::Integer(v) => Some(Action::UseItem(low_u16(*v))),
            DocValue::Other => None,
        }
    } else {
        None
    }
}

/// Reads the tree that the node `ev` describes by its block of children.
pub fn parse_tree(ev: &DocNode) -> (r: Option<EventTree>)
    ensures
        match r {
            Some(t) => tree_of(ev@) == Some(t@) && t@.wf(),
            None => tree_of(ev@) is None,
        },
    decreases ev,
{
    proof {
        lemma_tree_of_wf(ev@);
    }
    let children = match &ev.children {
        Some(c) => c,
        None => {
            return None;
        },
    };
    proof {
        lemma_children_view(*ev);
    }
    let ghost c = nodes_view(children@);
    let tree_name = String::from_str("tree");
    let text_name = String::from_str("text");
    let item_name = String::from_str("item");
    let mut tree = EventTree::new(EventNode { text: String::new(), items: Vec::new() });
    assert(tree@.node.items =~= Seq::empty());
    let mut i: usize = 0;
    while i < children.len()
        invariant
            i <= children.len(),
            ev.children == Some(*children),
            ev@.children == Some(c),
            c == nodes_view(children@),
            tree_name@ == "tree"@,
            text_name@ == "text"@,
            item_name@ == "item"@,
            tree_fold(c, i as nat) == Some(tree@),
        decreases children.len() - i,
    {
        let node = &children[i];
        assert(c[i as int] == node@);
        let ghost before = tree@;
        let mut ok = true;
        if node.name == tree_name {
            match parse_action(node) {
                Some(act) => match parse_tree(node) {
                    Some(sub) => {
                        tree.insert(act, sub);
                    },
                    None => {
                        ok = false;
                    },
                },
                None => {
                    ok = false;
                },
            }
        } else if node.name == text_name {
            match entry_text(node, 0) {
                Some(s) => {
                    tree.node.text = s.clone();
                    assert(tree@.sub =~= before.sub);
                },
                None => {
                    ok = false;
                },
            }
        } else if node.name == item_name {
            proof {
                lemma_children_view(*node);
            }
            match &node.children {
                Some(block) => match parse_item(block) {
                    Some(item) => {
                        tree.node.items.push(item);
                        assert(tree@.sub =~= before.sub);
                        assert(tree@.node.items =~= before.node.items.push(item@));
                    },
                    None => {
                        ok = false;
                    },
                },
                None => {
                    ok = false;
                },
            }
        }
        if !ok {
            proof {
                assert(tree_fold(c, (i + 1) as nat) is None);
                lemma_tree_fold_fails(c, (i + 1) as nat, c.len());
            }
            return None;
        }
        i += 1;
    }
    Some(tree)
}

fn parse_event(n: &DocNode) -> (r: Option<(Pos, Event)>)
    ensures
        match r {
            Some((pos, event)) => event_of(n@) == Some((pos, event@)),
            None => event_of(n@) is None,
        },
{
    let x = match entry_integer(n, 0) {
        Some(v) => low_i16(v),
        None => {
            return None;
        },
    };
    let y = match entry_integer(n, 1) {
        Some(v) => low_i16(v),
        None => {
            return None;
        },
    };
    proof {
        lemma_children_view(*n);
    }
    let children = match &n.children {
        Some(c) => c,
        None => {
            return None;
        },
    };
    let preview = match find_node(children, &String::from_str("preview")) {
        Some(p) => match entry_text(p, 0) {
            Some(s) => s.clone(),
            None => {
                return None;
            },
        },
        None => {
            return None;
        },
    };
    let tree = match find_node(children, &String::from_str("tree")) {
        Some(t) => match parse_tree(t) {
            Some(tree) => tree,
            None => {
                return None;
            },
        },
        None => {
            return None;
        },
    };
    Some((Pos { x, y }, Event { preview, tree }))
}

/// Builds the game that the nodes of a document describe.
pub fn reality_from_document(doc: &Vec<DocNode>) -> (r: Option<Reality>)
    ensures
        match r {
            Some(reality) => reality_of(nodes_view(doc@)) == Some(reality@),
            None => reality_of(nodes_view(doc@)) is None,
        },
{
    let ghost d = nodes_view(doc@);
    let event_name = String::from_str("event");
    let mut reality = Reality::default();
    let mut i: usize = 0;
    while i < doc.len()
        invariant
            i <= doc.len(),
            d == nodes_view(doc@),
            event_name@ == "event"@,
            reality@.state == StateView::initial(),
            world_fold(d, i as nat) == Some(reality@.world),
        decreases doc.len() - i,
    {
        let node = &doc[i];
        assert(d[i as int] == node@);
        if node.name == event_name {
            match parse_event(node) {
                Some((pos, event)) => {
                    reality.world.insert(pos, event);
                },
                None => {
                    proof {
                        assert(world_fold(d, (i + 1) as nat) is None);
                        lemma_world_fold_fails(d, (i + 1) as nat, d.len());
                    }
                    return None;
                },
            }
        }
        i += 1;
    }
    Some(reality)
}

/// Builds the game that the KDL text `data` describes. `None` where the
/// text is no KDL document or an event of the document is malformed.
pub fn reality_from_kdl(data: String) -> (r: Option<Reality>)
    ensures
        match r {
            Some(reality) => kdl_parse(data@) matches Some(doc) && reality_of(doc) == Some(
                reality@,
            ),
            None => kdl_parse(data@) matches Some(doc) ==> reality_of(doc) is None,
        },
{
    match read_document(data.as_str()) {
        Some(doc) => reality_from_document(&doc),
        None => None,
    }
}

} // verus!
