use exploration::game::Reality;
use exploration::grid::{Pos, MAX};
use exploration::tree::{Event, EventNode, EventTree};

fn leaf(text: &str) -> EventTree {
    EventTree::new(EventNode { text: text.to_string(), items: Vec::new() })
}

fn guy() -> Event {
    Event { preview: "There is a guy".to_string(), tree: leaf("") }
}

#[test]
fn bound_clamps_both_axes() {
    assert_eq!(Pos { x: 10, y: -10 }.bound(3), Pos { x: 3, y: -3 });
    assert_eq!(Pos { x: -4, y: 4 }.bound(3), Pos { x: -3, y: 3 });
    assert_eq!(Pos { x: 2, y: -1 }.bound(3), Pos { x: 2, y: -1 });
    assert_eq!(Pos { x: 3, y: -3 }.bound(3), Pos { x: 3, y: -3 });
}

#[test]
fn bound_with_zero_collapses_to_origin() {
    assert_eq!(Pos { x: 7, y: -7 }.bound(0), Pos { x: 0, y: 0 });
}

#[test]
fn bound_beyond_coordinate_range_keeps_position() {
    let p = Pos { x: i16::MIN, y: i16::MAX };
    assert_eq!(p.bound(u16::MAX), p);
    assert_eq!(p.bound(32768), p);
    assert_eq!(p.bound(32767), Pos { x: -32767, y: 32767 });
}

#[test]
fn max_is_three() {
    assert_eq!(MAX, 3);
}

#[test]
fn default_starts_at_origin_with_nothing() {
    let r = Reality::default();
    assert_eq!(r.state.pos, Pos { x: 0, y: 0 });
    assert!(r.state.inventory.is_empty());
    assert!(r.state.current_event.is_none());
    assert!(r.state.traversal.is_none());
    assert!(r.state.path.is_empty());
    assert!(r.world.get(&Pos { x: 0, y: 0 }).is_none());
}

#[test]
fn each_letter_steps_one_way() {
    let mut r = Reality::default();
    r.travel("w".to_string());
    assert_eq!(r.state.pos, Pos { x: 0, y: 1 });
    r.travel("D".to_string());
    assert_eq!(r.state.pos, Pos { x: 1, y: 1 });
    r.travel("s".to_string());
    assert_eq!(r.state.pos, Pos { x: 1, y: 0 });
    r.travel("A".to_string());
    assert_eq!(r.state.pos, Pos { x: 0, y: 0 });
    r.travel("W".to_string());
    r.travel("S".to_string());
    r.travel("a".to_string());
    r.travel("d".to_string());
    assert_eq!(r.state.pos, Pos { x: 0, y: 0 });
}

#[test]
fn other_input_does_not_step() {
    let mut r = Reality::default();
    for input in ["", "x", "ww", "wd", " w", "north", "é"] {
        r.travel(input.to_string());
        assert_eq!(r.state.pos, Pos { x: 0, y: 0 });
    }
}

#[test]
fn seven_steps_east_clamp_at_three() {
    let mut r = Reality::default();
    for _ in 0..7 {
        r.travel("d".to_string());
    }
    assert_eq!(r.state.pos, Pos { x: 3, y: 0 });
}

#[test]
fn position_stays_in_field_on_every_step() {
    let mut r = Reality::default();
    let moves = "wwwwwaaaaaaasssssssssddddddddddwawdsdsadwwwddd";
    for c in moves.chars() {
        r.travel(c.to_string());
        assert!(-3 <= r.state.pos.x && r.state.pos.x <= 3);
        assert!(-3 <= r.state.pos.y && r.state.pos.y <= 3);
    }
}

#[test]
fn step_from_far_outside_lands_on_the_edge() {
    let mut r = Reality::default();
    r.state.pos = Pos { x: i16::MAX, y: i16::MIN };
    r.travel("d".to_string());
    assert_eq!(r.state.pos, Pos { x: 3, y: -3 });
    r.state.pos = Pos { x: i16::MAX, y: i16::MIN };
    r.travel("s".to_string());
    assert_eq!(r.state.pos, Pos { x: 3, y: -3 });
}

#[test]
fn arrival_caches_the_event_and_leaving_clears_it() {
    let mut r = Reality::default();
    r.world.insert(Pos { x: 1, y: 0 }, guy());
    r.travel("d".to_string());
    assert_eq!(r.state.current_event.as_ref().unwrap().preview, "There is a guy");
    r.travel("d".to_string());
    assert!(r.state.current_event.is_none());
}

#[test]
fn stray_key_changes_nothing() {
    let mut r = Reality::default();
    r.world.insert(Pos { x: 0, y: 0 }, guy());
    for input in ["x", "", "dd", "wa", "q", "e"] {
        r.travel(input.to_string());
        assert_eq!(r.state.pos, Pos { x: 0, y: 0 });
        assert!(r.state.current_event.is_none());
        assert!(r.state.traversal.is_none());
    }
    r.state.pos = Pos { x: 9, y: 9 };
    r.travel("x".to_string());
    assert_eq!(r.state.pos, Pos { x: 9, y: 9 });
}

#[test]
fn stray_key_keeps_the_event_at_hand() {
    let mut r = Reality::default();
    r.world.insert(Pos { x: 1, y: 0 }, guy());
    r.travel("d".to_string());
    r.travel("x".to_string());
    assert_eq!(r.state.pos, Pos { x: 1, y: 0 });
    assert_eq!(r.state.current_event.as_ref().unwrap().preview, "There is a guy");
}

#[test]
fn interact_enters_the_event_without_moving() {
    let mut r = Reality::default();
    r.world.insert(Pos { x: 1, y: 0 }, guy());
    r.travel("d".to_string());
    r.travel("f".to_string());
    assert_eq!(r.state.pos, Pos { x: 1, y: 0 });
    assert!(r.state.traversal.is_some());
    assert!(r.state.current_event.is_some());
    assert!(r.state.path.is_empty());
}

#[test]
fn interact_without_event_does_nothing() {
    let mut r = Reality::default();
    r.travel("F".to_string());
    assert!(r.state.traversal.is_none());
    assert_eq!(r.state.pos, Pos { x: 0, y: 0 });
}

#[test]
fn world_insert_replaces_the_event_at_a_position() {
    let mut r = Reality::default();
    let p = Pos { x: -2, y: 3 };
    r.world.insert(p, guy());
    r.world.insert(p, Event { preview: "A door".to_string(), tree: leaf("") });
    assert_eq!(r.world.get(&p).unwrap().preview, "A door");
    assert!(r.world.get(&Pos { x: 3, y: -2 }).is_none());
    assert!(r.world.get(&Pos { x: -2, y: 2 }).is_none());
    assert!(r.world.get(&Pos { x: -1, y: 3 - 256 }).is_none());
}
