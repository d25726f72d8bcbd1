use std::collections::HashSet;

use repame::input::{GamepadAxis, GamepadButton, Key, PhysicalKey, PointerButton};
use repame::scalar::Scalar;
use repame::shell::ids::sorted_ids;
use repame::shell::levels::apply_scheduler_levels;
use repame::shell::shortcuts::{game_shortcut_map, shortcut_fired};
use repame::shell::store::{chosen_path, store_steps, StoreStep};
use repame::shell::{
    shared_edges, take, KeyPress, PadBank, PadBridge, PadEvent, PadRoster, PolledLevels, Staging,
};

fn s(v: f32) -> Scalar {
    Scalar::from_bits(v.to_bits())
}

fn at(code: &str) -> PhysicalKey {
    PhysicalKey::from_name(code)
}

fn key(physical: PhysicalKey) -> KeyPress {
    KeyPress { key: Key::Character('x'), down: true, is_repeat: false, physical: Some(physical) }
}

fn focused() -> PolledLevels {
    PolledLevels {
        held_keys: Vec::new(),
        window_focused: true,
        mouse_primary: false,
        mouse_secondary: false,
    }
}

type Stage = Staging<[f32; 2]>;

#[test]
fn edges_dedupe_while_held() {
    let mut st = Stage::default();
    st.handle_key(&key(at("KeyW")));
    st.handle_key(&key(at("KeyW")));
    assert_eq!(st.take_edges().len(), 1);
}

#[test]
fn focus_loss_clears_levels() {
    let mut st = Stage::default();
    st.handle_key(&key(at("KeyW")));
    st.set_window_focused(false);
    assert!(st.held.is_empty());
}

#[test]
fn missed_key_release_drops_level_without_synthesizing_edge() {
    let mut staging = Stage::default();
    staging.window_focused = true;
    staging.stage_physical(at("KeyW"), true, false);
    assert!(staging.held.contains(&at("KeyW")));
    assert_eq!(staging.take_edges().len(), 1);

    staging.feed_polled(&focused());
    assert!(!staging.held.contains(&at("KeyW")), "missed W release must drop the level");
    assert!(staging.take_edges().is_empty(), "repair must never synthesize press edges");
}

#[test]
fn missed_mouse_release_drops_level() {
    let mut staging = Stage::default();
    staging.window_focused = true;
    staging.pick_down(PointerButton::Primary);
    assert!(staging.lmb_held);

    staging.feed_polled(&focused());
    assert!(!staging.lmb_held, "missed button-up must drop LMB");
}

#[test]
fn focus_loss_cancels_all_pending_input() {
    let mut staging = Stage::default();
    staging.window_focused = true;
    staging.stage_physical(at("KeyW"), true, false);
    staging.take_edges();
    staging.pick_down(PointerButton::Primary);
    staging.pick_down(PointerButton::Secondary);
    staging.stage_click([10.0, 10.0], [10.0, 10.0]);
    staging.touch_down(7, [100.0, 100.0]);

    staging.set_window_focused(false);

    assert!(staging.held.is_empty());
    assert!(staging.take_edges().is_empty());
    assert!(!staging.lmb_held && !staging.rmb_held);
    assert!(staging.clicks.is_empty(), "staged clicks must not survive alt-tab");
    assert!(staging.mouse_edges.is_empty(), "mouse edges must not survive alt-tab");
    assert!(!staging.take_rmb_down(), "RMB latch must not survive alt-tab");
    assert!(staging.touch_active.is_empty(), "touch contacts must not survive alt-tab");
    assert!(
        staging.capture_pending_physical.is_none()
            && staging.capture_pending_key.is_none()
            && staging.capture_pending_mouse.is_none()
    );
}

#[test]
fn polled_focus_loss_cancels_too() {
    let mut staging = Stage::shared();
    staging.stage_physical(at("KeyW"), true, false);
    staging.touch_down(7, [1.0, 2.0]);
    let mut away = focused();
    away.window_focused = false;
    staging.feed_polled(&away);
    assert!(staging.held.is_empty());
    assert!(staging.edges.is_empty());
    assert!(staging.touch_active.is_empty());
    assert!(!staging.window_focused);
}

#[test]
fn held_keys_leave_one_edge() {
    let mut staging = Stage::default();
    let space = |down, is_repeat| KeyPress { key: Key::Space, down, is_repeat, physical: None };
    staging.handle_key(&space(true, false));
    staging.handle_key(&space(true, true));
    staging.handle_key(&space(true, false));
    assert_eq!(staging.take_edges(), vec![at("Space")]);
    staging.handle_key(&space(false, false));
    assert!(staging.held.is_empty());
    staging.stage_physical_key(at("Space"), true);
    assert_eq!(staging.take_edges(), vec![at("Space")]);
    assert!(staging.take_edges().is_empty());
    let escape = KeyPress { key: Key::Escape, down: true, is_repeat: false, physical: None };
    staging.handle_key(&escape);
    assert!(staging.take_edges().is_empty());
}

#[test]
fn mouse_buttons_are_taken_once() {
    let mut staging = Stage::default();
    staging.pick_down(PointerButton::Primary);
    staging.pick_down(PointerButton::Tertiary);
    let mouse = staging.mouse_state(true);
    assert!(mouse.left_held && !mouse.left_pressed && mouse.right_held && mouse.right_pressed);
    staging.stage_click([1.0, 2.0], [3.0, 4.0]);
    assert!(staging.mouse_state(true).left_pressed);
    let mouse = staging.mouse_state(false);
    assert!(!mouse.left_held && !mouse.left_pressed && mouse.right_held);
    staging.pick_up(PointerButton::Primary);
    assert!(!staging.lmb_held && staging.rmb_held);
    staging.pick_up(PointerButton::Secondary);
    assert!(!staging.rmb_held);
    assert!(staging.take_rmb_down());
    assert!(!staging.take_rmb_down());
    assert_eq!(
        staging.take_mouse_edges(),
        vec![
            (PointerButton::Primary, true),
            (PointerButton::Tertiary, true),
            (PointerButton::Primary, false),
            (PointerButton::Secondary, false),
        ]
    );
    assert!(staging.take_mouse_edges().is_empty());
    let clicks = staging.take_clicks();
    assert_eq!(clicks.len(), 1);
    assert_eq!(clicks[0].world, [1.0, 2.0]);
    assert_eq!(clicks[0].dp, [3.0, 4.0]);
    assert!(staging.take_clicks().is_empty());
}

#[test]
fn pads_are_live_while_they_report() {
    let mut staging = Stage::shared();
    let pad = PadBridge::default().snapshot();
    assert!(!staging.pad_live);
    staging.stage_gamepad(pad);
    assert!(staging.pad_live);
    assert_eq!(staging.take_pads(), vec![pad]);
    assert!(staging.pad_live);
    assert!(staging.take_pads().is_empty());
    assert!(!staging.pad_live);
}

#[test]
fn levels_follow_the_polled_hardware() {
    let code = |name: &str| name.strip_prefix("Key").and_then(|k| k.chars().next());
    let none = |_: &char| -> Option<&'static [&'static str]> { None };
    let only_w = |c: &char| -> Option<&'static [&'static str]> {
        if *c == 'W' {
            Some(&["KeyW"])
        } else {
            None
        }
    };
    let mut held: HashSet<char> = HashSet::from(['W', 'x']);
    let (mut lmb, mut rmb, mut focus) = (true, true, false);
    let mut polled = focused();
    polled.held_keys = vec!["KeyA".to_string(), "Space".to_string()];
    polled.mouse_primary = true;
    apply_scheduler_levels(&mut held, &mut lmb, &mut rmb, &mut focus, &polled, code, only_w);
    assert_eq!(held, HashSet::from(['A', 'x']));
    assert!(lmb && !rmb && focus);
    polled.window_focused = false;
    apply_scheduler_levels(&mut held, &mut lmb, &mut rmb, &mut focus, &polled, code, none);
    assert!(held.is_empty());
    assert!(!lmb && !rmb && !focus);
}

#[test]
fn touches_report_their_start_once_as_new() {
    let mut staging = Stage::default();
    staging.touch_down(3, [1.0, 2.0]);
    staging.touch_move(3, [4.0, 5.0]);
    let first = staging.touch_contacts();
    assert_eq!(first.len(), 1);
    assert_eq!(first[0].start, [1.0, 2.0]);
    assert_eq!(first[0].pos, [4.0, 5.0]);
    assert!(first[0].just_pressed);
    assert!(!staging.touch_contacts()[0].just_pressed);
    staging.touch_up(3);
    assert!(staging.touch_contacts().is_empty());
}

#[test]
fn rising_edge_fires_once() {
    let mut b = PadBridge::default();
    b.button(GamepadButton::South, true);
    assert!(b.snapshot().south_pressed);
    b.clear_edges();
    b.button(GamepadButton::South, true);
    assert!(!b.snapshot().south_pressed);
}

#[test]
fn trigger_threshold_edges() {
    let mut b = PadBridge::default();
    b.axis(GamepadAxis::RightTrigger, s(0.8));
    let snap = b.snapshot();
    assert!(snap.right_trigger_held && snap.right_trigger_pressed);
}

#[test]
fn pads_come_in_order_of_their_ids() {
    let mut bank = PadBank::default();
    bank.feed(&vec![
        PadEvent::Connected { id: 9 },
        PadEvent::Button { id: 9, button: GamepadButton::South, pressed: true },
        PadEvent::Axis { id: 2, axis: GamepadAxis::LeftStickX, value: s(0.25) },
    ]);
    assert!(bank.live());
    let snaps = bank.drain();
    assert_eq!(snaps.len(), 2);
    assert!(!snaps[0].south_pressed && snaps[1].south_pressed);
    assert!(!bank.drain()[1].south_pressed, "edges fire once");
    bank.feed(&vec![PadEvent::Disconnected { id: 9 }, PadEvent::Disconnected { id: 2 }]);
    assert!(!bank.live());
}

#[test]
fn rosters_follow_connections() {
    let mut roster = PadRoster::default();
    roster.note(&vec![
        PadEvent::Connected { id: 5 },
        PadEvent::Connected { id: 1 },
        PadEvent::Connected { id: 5 },
    ]);
    assert_eq!(roster.connected_ids(), vec![1, 5]);
    roster.note(&vec![PadEvent::Disconnected { id: 1 }]);
    assert_eq!(roster.connected_count(), 1);
    assert_eq!(sorted_ids(&vec![3, 1, 2]), vec![1, 2, 3]);
}

#[test]
fn shortcuts_latch_until_taken() {
    let map = game_shortcut_map("pause", "restart", "confirm");
    assert_eq!(map[0].0.key, Key::Escape);
    assert_eq!(map[1].1, "restart");
    let mut edges = shared_edges();
    assert!(shortcut_fired(&mut edges, "restart", "pause", "restart", "confirm"));
    assert!(!shortcut_fired(&mut edges, "other", "pause", "restart", "confirm"));
    assert_eq!(take(&mut edges), (false, true, false));
    assert_eq!(take(&mut edges), (false, false, false));
}

#[test]
fn set_paths_win_over_the_default() {
    let other = "/work/s.json".to_string();
    let set = Some("/tmp/x.json".to_string());
    assert_eq!(chosen_path(set, other.clone()), "/tmp/x.json");
    assert_eq!(chosen_path(Some(String::new()), other.clone()), other);
    assert_eq!(chosen_path(None, other.clone()), other);
}

#[test]
fn saves_go_through_a_temporary_file() {
    let text = |t: &str| t.to_string();
    let steps = store_steps(Some(text("d")), text("d/s.tmp"), text("d/s.json"));
    assert_eq!(
        steps,
        vec![
            StoreStep::CreateDirs(text("d")),
            StoreStep::Write(text("d/s.tmp")),
            StoreStep::Rename { from: text("d/s.tmp"), to: text("d/s.json") },
        ]
    );
    assert_eq!(store_steps(Some(text("")), text("s.tmp"), text("s.json")).len(), 2);
    assert_eq!(store_steps(None, text("s.tmp"), text("s.json")).len(), 2);
}
