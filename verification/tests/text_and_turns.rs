use exploration::action::Action;
use exploration::game::Reality;
use exploration::grid::Pos;
use exploration::item::{Item, ItemType, WeaponData};
use exploration::text::{integer_text, natural_text, parse_index};
use exploration::tree::{Event, EventNode, EventTree};

fn item(id: u16, name: &str) -> Item {
    Item { id, name: name.to_string(), item_type: ItemType::Normal }
}

fn weapon(id: u16, name: &str, damage: u16) -> Item {
    Item { id, name: name.to_string(), item_type: ItemType::Weapon(WeaponData { damage }) }
}

fn lines(v: &[&str]) -> Vec<String> {
    v.iter().map(|s| s.to_string()).collect()
}

fn game() -> Reality {
    let mut found = EventTree::new(EventNode { text: "you found the individual".to_string(), items: vec![weapon(9, "axe", 12)] });
    found.insert(Action::Simple("i".to_string()), EventTree::new(EventNode { text: "inside".to_string(), items: Vec::new() }));
    let mut root = EventTree::new(EventNode { text: "".to_string(), items: Vec::new() });
    root.insert(Action::Simple("k".to_string()), EventTree::new(EventNode { text: "TEST".to_string(), items: Vec::new() }));
    root.insert(Action::UseItem(7), found);
    let mut r = Reality::default();
    r.world.insert(Pos { x: 1, y: 0 }, Event { preview: "There is a guy".to_string(), tree: root });
    r.state.inventory.push(item(7, "key"));
    r
}

#[test]
fn natural_text_writes_decimal() {
    assert_eq!(natural_text(0), "0");
    assert_eq!(natural_text(7), "7");
    assert_eq!(natural_text(10), "10");
    assert_eq!(natural_text(65535), "65535");
    assert_eq!(natural_text(1234567890), "1234567890");
    assert_eq!(natural_text(u64::MAX), "18446744073709551615");
}

#[test]
fn integer_text_writes_the_sign() {
    assert_eq!(integer_text(0), "0");
    assert_eq!(integer_text(-1), "-1");
    assert_eq!(integer_text(-32768), "-32768");
    assert_eq!(integer_text(32767), "32767");
    assert_eq!(integer_text(i64::MIN), "-9223372036854775808");
    assert_eq!(integer_text(i64::MAX), "9223372036854775807");
}

#[test]
fn parse_index_reads_digits() {
    assert_eq!(parse_index("0"), Some(0));
    assert_eq!(parse_index("7"), Some(7));
    assert_eq!(parse_index("42"), Some(42));
    assert_eq!(parse_index("007"), Some(7));
    assert_eq!(parse_index("+5"), Some(5));
    assert_eq!(parse_index("+0"), Some(0));
    assert_eq!(parse_index(&usize::MAX.to_string()), Some(usize::MAX));
}

#[test]
fn parse_index_rejects_other_text() {
    for s in ["", "+", "-", "-1", "-0", "++1", "1+", "1 ", " 1", "1.0", "1e3", "0x10", "a", "12a", "٣", "1٣", "é", "+é"] {
        assert_eq!(parse_index(s), None, "{:?}", s);
    }
}

#[test]
fn parse_index_rejects_what_does_not_fit() {
    let mut s = usize::MAX.to_string();
    s.push('0');
    assert_eq!(parse_index(&s), None);
    assert_eq!(parse_index("340282366920938463463374607431768211456"), None);
    let mut t = usize::MAX.to_string();
    let last = t.pop().unwrap();
    t.push(((last as u8) + 1) as char);
    assert_eq!(parse_index(&t), None);
}

#[test]
fn parse_index_agrees_with_std() {
    for s in ["", "0", "9", "10", "+10", "-10", "+", "00", "18446744073709551615", "18446744073709551616", "99999999999999999999999", "4294967295", "4294967296", "1_000", "١"] {
        assert_eq!(parse_index(s), s.parse::<usize>().ok(), "{:?}", s);
    }
}

#[test]
fn output_outside_an_event() {
    let mut r = game();
    assert_eq!(r.output(), lines(&["You are at (0, 0)"]));
    r.travel("a".to_string());
    r.travel("s".to_string());
    assert_eq!(r.output(), lines(&["You are at (-1, -1)"]));
    r.state.pos = Pos { x: -32768, y: 32767 };
    assert_eq!(r.output(), lines(&["You are at (-32768, 32767)"]));
}

#[test]
fn inventory_listing_names_items_and_damage() {
    let mut r = Reality::default();
    assert_eq!(r.inventory_listing(), lines(&["You have no items."]));
    r.state.inventory.push(item(1, "rope"));
    r.state.inventory.push(weapon(2, "sword", 5));
    r.state.inventory.push(weapon(3, "club", 0));
    r.state.inventory.push(weapon(4, "ray", 65535));
    assert_eq!(r.inventory_listing(), lines(&["rope", "sword: 5 damage", "club: 0 damage", "ray: 65535 damage"]));
}

#[test]
fn listing_command_shows_inventory_and_keeps_the_state() {
    let mut r = game();
    r.travel("d".to_string());
    assert_eq!(r.turn("i".to_string(), ""), lines(&["key"]));
    assert_eq!(r.state.pos, Pos { x: 1, y: 0 });
    assert!(r.state.current_event.is_some());
    assert!(r.state.traversal.is_none());
    assert!(r.turn("I".to_string(), "").is_empty());
}

#[test]
fn listing_command_is_an_action_inside_an_event() {
    let mut r = game();
    r.travel("d".to_string());
    r.travel("f".to_string());
    r.progress(Action::UseItem(7));
    assert!(r.turn("i".to_string(), "").is_empty());
    assert_eq!(r.output(), lines(&["inside"]));
}

#[test]
fn item_menu_numbers_from_zero() {
    let mut r = Reality::default();
    assert!(r.item_menu().is_empty());
    for n in 0..11 {
        r.state.inventory.push(item(n, "thing"));
    }
    let menu = r.item_menu();
    assert_eq!(menu.len(), 11);
    assert_eq!(menu[0], "0. thing");
    assert_eq!(menu[10], "10. thing");
}

#[test]
fn choose_item_picks_by_index() {
    let mut r = Reality::default();
    r.state.inventory.push(item(7, "key"));
    r.state.inventory.push(weapon(2, "sword", 5));
    assert_eq!(r.choose_item("0"), Some(item(7, "key")));
    assert_eq!(r.choose_item("+1"), Some(weapon(2, "sword", 5)));
    assert_eq!(r.choose_item("2"), None);
    assert_eq!(r.choose_item(""), None);
    assert_eq!(r.choose_item("key"), None);
    assert_eq!(r.choose_item("-1"), None);
    assert_eq!(r.choose_item("99999999999999999999999999"), None);
    assert_eq!(Reality::default().choose_item("0"), None);
}

#[test]
fn get_action_reads_commands() {
    let mut r = Reality::default();
    r.state.inventory.push(item(7, "key"));
    assert_eq!(r.get_action("k".to_string(), ""), Some(Action::Simple("k".to_string())));
    assert_eq!(r.get_action("".to_string(), "0"), Some(Action::Simple("".to_string())));
    assert_eq!(r.get_action("ee".to_string(), "0"), Some(Action::Simple("ee".to_string())));
    assert_eq!(r.get_action("e".to_string(), "0"), Some(Action::UseItem(7)));
    assert_eq!(r.get_action("E".to_string(), "0"), Some(Action::UseItem(7)));
    assert_eq!(r.get_action("e".to_string(), "1"), None);
    assert_eq!(r.get_action("e".to_string(), "zero"), None);
}

#[test]
fn wants_item_only_inside_an_event() {
    let mut r = game();
    assert!(!r.wants_item("e"));
    r.travel("d".to_string());
    r.travel("f".to_string());
    assert!(r.wants_item("e"));
    assert!(r.wants_item("E"));
    assert!(!r.wants_item("k"));
    assert!(!r.wants_item("ee"));
}

#[test]
fn bad_reply_uses_up_the_turn() {
    let mut r = game();
    r.travel("d".to_string());
    r.travel("f".to_string());
    for reply in ["", "1", "key", "-0"] {
        assert!(r.turn("e".to_string(), reply).is_empty());
        assert!(r.state.path.is_empty());
        assert_eq!(r.output(), lines(&[""]));
    }
}

#[test]
fn input_shows_the_round() {
    let mut r = game();
    assert_eq!(r.input("d".to_string(), ""), lines(&["You are at (0, 0)"]));
    assert_eq!(r.input("i".to_string(), ""), lines(&["You are at (1, 0)", "There is a guy", "key"]));
    assert_eq!(r.input("f".to_string(), ""), lines(&["You are at (1, 0)", "There is a guy"]));
    assert_eq!(r.input("e".to_string(), "0"), lines(&["", "0. key"]));
    assert_eq!(r.output(), lines(&["you found the individual"]));
}

#[test]
fn run_plays_a_script() {
    let mut r = game();
    let shown = r.run(&lines(&["d", "f", "e", "0", "q", "k", "e"]));
    assert_eq!(
        shown,
        lines(&[
            "You are at (0, 0)",
            "You are at (1, 0)",
            "There is a guy",
            "",
            "0. key",
            "you found the individual",
            "",
            "TEST",
            "0. key",
            "1. axe",
        ])
    );
    assert_eq!(r.state.path, vec![Action::Simple("k".to_string())]);
    assert_eq!(r.output(), lines(&["TEST"]));
    assert_eq!(r.state.inventory, vec![item(7, "key"), weapon(9, "axe", 12)]);
}

#[test]
fn run_without_lines_shows_nothing() {
    let mut r = game();
    assert!(r.run(&Vec::new()).is_empty());
    assert_eq!(r.state.pos, Pos { x: 0, y: 0 });
}
