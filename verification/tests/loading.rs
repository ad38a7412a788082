use exploration::action::Action;
use exploration::document::{read_document, DocNode, DocValue};
use exploration::grid::Pos;
use exploration::item::{Item, ItemType, WeaponData};
use exploration::read_kdl::{parse_item, parse_tree, reality_from_document, reality_from_kdl};

const GUY: &str = r#"
event 1 0 {
    preview "There is a guy"
    tree "root" {
        text "hello"
        tree "k" {
            text "TEST"
        }
        tree 7 {
            text "you found the individual"
            item {
                id 2
                name "sword"
                type "W" 5
            }
            item {
                id 3
                name "coin"
                type "N"
            }
        }
    }
}
note "not an event"
event -3 2 {
    tree "x" {
    }
    preview "A door"
}
"#;

fn text(s: &str) -> DocValue {
    DocValue::Text(s.to_string())
}

fn node(name: &str, entries: Vec<DocValue>, children: Option<Vec<DocNode>>) -> DocNode {
    DocNode { name: name.to_string(), entries, children }
}

fn item_block(id: DocValue, name: DocValue, kind: Vec<DocValue>) -> Vec<DocNode> {
    vec![node("id", vec![id], None), node("name", vec![name], None), node("type", kind, None)]
}

fn event_node(x: i128, y: i128, children: Vec<DocNode>) -> DocNode {
    node("event", vec![DocValue::Integer(x), DocValue::Integer(y)], Some(children))
}

#[test]
fn read_document_carries_names_values_and_children() {
    let doc = read_document("a 1 \"two\" #true k=3 {\n  b\n}\nc 1.5 #null").unwrap();
    assert_eq!(doc.len(), 2);
    assert_eq!(doc[0].name, "a");
    assert_eq!(doc[0].entries.len(), 4);
    assert!(matches!(doc[0].entries[0], DocValue::Integer(1)));
    assert!(matches!(&doc[0].entries[1], DocValue::Text(s) if s == "two"));
    assert!(matches!(doc[0].entries[2], DocValue::Other));
    assert!(matches!(doc[0].entries[3], DocValue::Integer(3)));
    let inner = doc[0].children.as_ref().unwrap();
    assert_eq!(inner.len(), 1);
    assert_eq!(inner[0].name, "b");
    assert!(inner[0].entries.is_empty());
    assert!(inner[0].children.is_none());
    assert_eq!(doc[1].name, "c");
    assert!(matches!(doc[1].entries[0], DocValue::Other));
    assert!(matches!(doc[1].entries[1], DocValue::Other));
    assert!(doc[1].children.is_none());
}

#[test]
fn read_document_rejects_what_is_no_document() {
    assert!(read_document("event 1 0 {").is_none());
    assert!(read_document("a \"unclosed").is_none());
    assert!(read_document("").unwrap().is_empty());
}

#[test]
fn reality_from_kdl_builds_the_world() {
    let r = reality_from_kdl(GUY.to_string()).unwrap();
    assert_eq!(r.state.pos, Pos { x: 0, y: 0 });
    assert!(r.state.inventory.is_empty());
    assert!(r.state.current_event.is_none());
    assert!(r.state.traversal.is_none());
    let guy = r.world.get(&Pos { x: 1, y: 0 }).unwrap();
    assert_eq!(guy.preview, "There is a guy");
    assert_eq!(guy.tree.node.text, "hello");
    assert!(guy.tree.node.items.is_empty());
    assert_eq!(guy.tree.edge_count(), 2);
    assert_eq!(*guy.tree.edge(0).unwrap().0, Action::Simple("k".to_string()));
    assert_eq!(guy.tree.edge(0).unwrap().1.node.text, "TEST");
    assert_eq!(*guy.tree.edge(1).unwrap().0, Action::UseItem(7));
    let found = guy.tree.edge(1).unwrap().1;
    assert_eq!(found.node.text, "you found the individual");
    assert_eq!(
        found.node.items,
        vec![
            Item { id: 2, name: "sword".to_string(), item_type: ItemType::Weapon(WeaponData { damage: 5 }) },
            Item { id: 3, name: "coin".to_string(), item_type: ItemType::Normal },
        ]
    );
    let door = r.world.get(&Pos { x: -3, y: 2 }).unwrap();
    assert_eq!(door.preview, "A door");
    assert_eq!(door.tree.node.text, "");
    assert!(door.tree.edge_count() == 0);
    assert!(r.world.get(&Pos { x: 0, y: 0 }).is_none());
}

#[test]
fn reality_from_kdl_of_an_empty_text_is_the_default() {
    let r = reality_from_kdl(String::new()).unwrap();
    assert!(r.world.get(&Pos { x: 0, y: 0 }).is_none());
    assert_eq!(r.state.pos, Pos { x: 0, y: 0 });
}

#[test]
fn reality_from_kdl_rejects_bad_text_and_bad_events() {
    assert!(reality_from_kdl("event 1 0 {".to_string()).is_none());
    assert!(reality_from_kdl("event 1 0".to_string()).is_none());
    assert!(reality_from_kdl("event 1 {\n preview \"p\"\n tree \"r\" {\n }\n}".to_string()).is_none());
    assert!(reality_from_kdl("event \"1\" 0 {\n preview \"p\"\n tree \"r\" {\n }\n}".to_string()).is_none());
    assert!(reality_from_kdl("event 1 0 {\n tree \"r\" {\n }\n}".to_string()).is_none());
    assert!(reality_from_kdl("event 1 0 {\n preview \"p\"\n}".to_string()).is_none());
    assert!(reality_from_kdl("event 1 0 {\n preview 5\n tree \"r\" {\n }\n}".to_string()).is_none());
    assert!(reality_from_kdl("event 1 0 {\n preview \"p\"\n tree \"r\"\n}".to_string()).is_none());
    assert!(reality_from_kdl("event 1 0 {\n preview \"p\"\n tree \"r\" {\n  tree #true {\n  }\n }\n}".to_string()).is_none());
    assert!(reality_from_kdl("event 1 0 {\n preview \"p\"\n tree \"r\" {\n }\n}".to_string()).is_some());
}

#[test]
fn later_event_at_a_position_replaces_the_earlier() {
    let doc = vec![
        event_node(2, 2, vec![node("preview", vec![text("one")], None), node("tree", vec![], Some(vec![]))]),
        event_node(2, 2, vec![node("preview", vec![text("two")], None), node("tree", vec![], Some(vec![]))]),
    ];
    let r = reality_from_document(&doc).unwrap();
    assert_eq!(r.world.get(&Pos { x: 2, y: 2 }).unwrap().preview, "two");
}

#[test]
fn coordinates_are_cut_to_sixteen_bits() {
    let doc = vec![event_node(65537, -65535, vec![node("preview", vec![text("far")], None), node("tree", vec![], Some(vec![]))])];
    let r = reality_from_document(&doc).unwrap();
    assert_eq!(r.world.get(&Pos { x: 1, y: 1 }).unwrap().preview, "far");
    let doc = vec![event_node(32768, 40000, vec![node("preview", vec![text("wrapped")], None), node("tree", vec![], Some(vec![]))])];
    let r = reality_from_document(&doc).unwrap();
    assert_eq!(r.world.get(&Pos { x: -32768, y: -25536 }).unwrap().preview, "wrapped");
}

#[test]
fn first_preview_and_first_tree_count() {
    let doc = vec![event_node(
        0,
        1,
        vec![
            node("tree", vec![], Some(vec![node("text", vec![text("first")], None)])),
            node("preview", vec![text("one")], None),
            node("preview", vec![text("two")], None),
            node("tree", vec![], Some(vec![node("text", vec![text("second")], None)])),
        ],
    )];
    let r = reality_from_document(&doc).unwrap();
    let e = r.world.get(&Pos { x: 0, y: 1 }).unwrap();
    assert_eq!(e.preview, "one");
    assert_eq!(e.tree.node.text, "first");
}

#[test]
fn parse_tree_reads_children_in_order() {
    let n = node(
        "tree",
        vec![],
        Some(vec![
            node("text", vec![text("a")], None),
            node("tree", vec![text("go")], Some(vec![node("text", vec![text("one")], None)])),
            node("other", vec![], None),
            node("text", vec![text("b")], None),
            node("tree", vec![DocValue::Integer(65543)], Some(vec![])),
            node("tree", vec![text("go")], Some(vec![node("text", vec![text("two")], None)])),
            node("item", vec![], Some(item_block(DocValue::Integer(1), text("rope"), vec![text("N")]))),
        ]),
    );
    let t = parse_tree(&n).unwrap();
    assert_eq!(t.node.text, "b");
    assert_eq!(t.node.items, vec![Item { id: 1, name: "rope".to_string(), item_type: ItemType::Normal }]);
    assert_eq!(t.edge_count(), 2);
    assert_eq!(*t.edge(0).unwrap().0, Action::Simple("go".to_string()));
    assert_eq!(t.edge(0).unwrap().1.node.text, "two");
    assert_eq!(*t.edge(1).unwrap().0, Action::UseItem(7));
}

#[test]
fn parse_tree_rejects_malformed_children() {
    assert!(parse_tree(&node("tree", vec![], None)).is_none());
    assert!(parse_tree(&node("tree", vec![], Some(vec![node("text", vec![], None)]))).is_none());
    assert!(parse_tree(&node("tree", vec![], Some(vec![node("text", vec![DocValue::Integer(1)], None)]))).is_none());
    assert!(parse_tree(&node("tree", vec![], Some(vec![node("tree", vec![], Some(vec![]))]))).is_none());
    assert!(parse_tree(&node("tree", vec![], Some(vec![node("tree", vec![DocValue::Other], Some(vec![]))]))).is_none());
    assert!(parse_tree(&node("tree", vec![], Some(vec![node("tree", vec![text("a")], None)]))).is_none());
    assert!(parse_tree(&node("tree", vec![], Some(vec![node("item", vec![], None)]))).is_none());
    assert!(parse_tree(&node("tree", vec![], Some(vec![node("item", vec![], Some(vec![]))]))).is_none());
    assert!(parse_tree(&node("tree", vec![], Some(vec![]))).is_some());
}

#[test]
fn parse_item_reads_both_kinds() {
    assert_eq!(
        parse_item(&item_block(DocValue::Integer(4), text("rope"), vec![text("N")])),
        Some(Item { id: 4, name: "rope".to_string(), item_type: ItemType::Normal })
    );
    assert_eq!(
        parse_item(&item_block(DocValue::Integer(65541), text("axe"), vec![text("W"), DocValue::Integer(-1)])),
        Some(Item { id: 5, name: "axe".to_string(), item_type: ItemType::Weapon(WeaponData { damage: 65535 }) })
    );
}

#[test]
fn parse_item_rejects_malformed_items() {
    assert!(parse_item(&vec![]).is_none());
    assert!(parse_item(&item_block(text("4"), text("rope"), vec![text("N")])).is_none());
    assert!(parse_item(&item_block(DocValue::Integer(4), DocValue::Integer(1), vec![text("N")])).is_none());
    assert!(parse_item(&item_block(DocValue::Integer(4), text("rope"), vec![text("n")])).is_none());
    assert!(parse_item(&item_block(DocValue::Integer(4), text("rope"), vec![text("W")])).is_none());
    assert!(parse_item(&item_block(DocValue::Integer(4), text("rope"), vec![text("W"), text("5")])).is_none());
    assert!(parse_item(&item_block(DocValue::Integer(4), text("rope"), vec![])).is_none());
    assert!(parse_item(&item_block(DocValue::Integer(4), text("rope"), vec![DocValue::Other])).is_none());
    let mut no_name = item_block(DocValue::Integer(4), text("rope"), vec![text("N")]);
    no_name.remove(1);
    assert!(parse_item(&no_name).is_none());
}
