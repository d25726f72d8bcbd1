use std::collections::HashSet;

use repame::input::{
    chord_for_physical, decode_keymap_entry, encode_keymap_entry, glyph_for_physical,
    reconcile_held, threshold_text, ActionMap, ActionState, AimTracker, Binding, GamepadAxis,
    GamepadButton, GamepadState, Key, KeyChord, Keymap, KeymapDevice, KeymapEntry, Modifiers,
    PhysicalKey, PointerButton, RemapSession, TouchContact,
};
use repame::scalar::Scalar;

fn s(v: f32) -> Scalar {
    Scalar::from_bits(v.to_bits())
}

fn f(v: Scalar) -> f32 {
    f32::from_bits(v.bits)
}

fn at(code: &str) -> PhysicalKey {
    PhysicalKey::from_name(code)
}

fn encode(entry: &KeymapEntry) -> String {
    let number = match entry {
        KeymapEntry::Axis { threshold, .. } => format!("{}", f(*threshold)),
        _ => String::new(),
    };
    encode_keymap_entry(entry, &number)
}

fn decode(text: &str) -> KeymapEntry {
    let threshold = threshold_text(text).and_then(|t| t.parse::<f32>().ok()).map(s);
    decode_keymap_entry(text, threshold)
}

fn chord(c: char) -> KeymapEntry {
    KeymapEntry::Key(KeyChord::new(Key::Character(c), Modifiers::default()))
}

#[test]
fn fresh_px_wins_stale_px_yields_none() {
    let mut t: AimTracker<[f32; 2]> = AimTracker::default();
    assert_eq!(t.live_px(), None);
    t.stage_hover([10.0, 10.0], [0.0, 0.0]);
    t.cursor_move([100.0, 100.0]);
    assert_eq!(t.live_px(), Some([0.0, 0.0]));
    for _ in 0..40 {
        t.stage_hover([10.0, 10.0], [50.0, 50.0]);
    }
    assert_eq!(t.live_px(), Some([50.0, 50.0]));
    assert_eq!(t.baked(), Some([10.0, 10.0]));
}

#[test]
fn cursor_takes_over_from_a_stale_hover() {
    let mut t: AimTracker<[f32; 2]> = AimTracker::default();
    t.stage_hover([1.0, 1.0], [2.0, 2.0]);
    for _ in 0..30 {
        t.cursor_move([9.0, 9.0]);
        assert_eq!(t.live_px(), Some([2.0, 2.0]));
    }
    t.cursor_move([9.0, 9.0]);
    assert_eq!(t.live_px(), Some([9.0, 9.0]));
}

#[test]
fn consuming_everything_spares_what_is_up() {
    let mut map = jump_map();
    map.bind("duck", Binding::Pad(GamepadButton::East));
    let mut st = ActionState::new(map);
    st.pad(GamepadButton::South, true);
    st.consume_all();
    assert!(!st.pressed(&"jump"));
    st.pad(GamepadButton::East, true);
    assert!(st.pressed(&"duck") && st.just_pressed(&"duck"));
}

#[test]
fn snapshots_start_at_rest() {
    let pad = GamepadState::default();
    assert_eq!((f(pad.left_stick.x), f(pad.right_stick.y)), (0.0, 0.0));
    assert!(!pad.south_pressed && !pad.right_trigger_held && !pad.north_pressed);
    let touch: TouchContact<[f32; 2]> = TouchContact::default();
    assert_eq!((touch.start, touch.pos, touch.just_pressed), ([0.0; 2], [0.0; 2], false));
}

#[test]
fn actions_are_listed_once() {
    let mut map = jump_map();
    map.bind("duck", Binding::Pad(GamepadButton::East));
    let mut listed = map.actions();
    listed.sort();
    assert_eq!(listed, vec!["duck", "jump"]);
}

#[test]
fn axis_threshold_sign_selects_side() {
    let active = |t: f32, v: f32| Binding::axis_active(s(t), s(v));
    assert!(active(0.5, 0.7));
    assert!(!active(0.5, 0.3));
    assert!(active(-0.5, -0.7));
    assert!(!active(-0.5, -0.3));
    assert!(!active(0.0, 0.0));
    assert!(active(0.0, 0.1));
    assert!(active(0.0, -0.1));
    assert!(!active(0.0, f32::NAN));
    assert!(!active(0.5, f32::NAN));
    assert!(!active(-0.5, f32::NAN));
}

#[test]
fn bindings_hash_for_sets() {
    let mut set = HashSet::new();
    set.insert(Binding::Pad(GamepadButton::South));
    assert!(set.contains(&Binding::Pad(GamepadButton::South)));
    set.insert(Binding::Mouse(PointerButton::Primary));
    assert!(set.contains(&Binding::Mouse(PointerButton::Primary)));
    assert!(!set.contains(&Binding::Mouse(PointerButton::Secondary)));
    set.insert(Binding::Axis { axis: GamepadAxis::LeftStickX, threshold: s(0.5) });
    assert!(set.contains(&Binding::Axis { axis: GamepadAxis::LeftStickX, threshold: s(0.5) }));
    assert!(!set.contains(&Binding::Axis { axis: GamepadAxis::LeftStickX, threshold: s(0.6) }));
    let _ = KeyChord::new(Key::Space, Modifiers::default());
}

#[test]
fn zero_thresholds_are_one_binding() {
    let up = Binding::Axis { axis: GamepadAxis::LeftStickY, threshold: s(0.0) };
    let down = Binding::Axis { axis: GamepadAxis::LeftStickY, threshold: s(-0.0) };
    assert_eq!(up, down);
    let mut set = HashSet::new();
    set.insert(up);
    assert!(set.contains(&down));
}

#[test]
fn same_bindings_are_found_in_lists() {
    let list = vec![
        Binding::Pad(GamepadButton::South),
        Binding::Physical(at("KeyZ")),
        Binding::Axis { axis: GamepadAxis::LeftStickX, threshold: s(0.5) },
    ];
    assert!(Binding::Physical(at("KeyZ")).is_in(&list));
    assert!(!Binding::Physical(at("KeyX")).is_in(&list));
    let axis = Binding::Axis { axis: GamepadAxis::LeftStickX, threshold: s(0.5) };
    assert!(axis.same(&list[2]));
    assert_eq!(Binding::from_entry(&KeymapEntry::Unbound), None);
    assert_eq!(
        Binding::from_entry(&KeymapEntry::Pad(GamepadButton::South)),
        Some(Binding::Pad(GamepadButton::South))
    );
}

#[derive(Clone, Copy, PartialEq, Eq, Hash, Debug)]
enum Code {
    W,
    Space,
}

fn code_for(name: &str) -> Option<Code> {
    Some(match name {
        "KeyW" => Code::W,
        "Space" => Code::Space,
        _ => return None,
    })
}

fn names(code: &Code) -> Option<&'static [&'static str]> {
    Some(match code {
        Code::W => &["KeyW"],
        Code::Space => &["Space"],
    })
}

#[test]
fn drops_stuck_levels_and_repairs_missed_presses() {
    let mut staged: HashSet<Code> = [Code::W].into_iter().collect();
    let polled = vec!["Space".to_string()];
    reconcile_held(&mut staged, &polled, code_for, names);
    assert!(!staged.contains(&Code::W));
    assert!(staged.contains(&Code::Space));
}

#[test]
fn unknown_codes_are_left_alone() {
    let mut staged: HashSet<Code> = [Code::W].into_iter().collect();
    let polled = vec!["KeyX".to_string()];
    reconcile_held(
        &mut staged,
        &polled,
        |_: &str| None::<Code>,
        |_: &Code| None::<&'static [&'static str]>,
    );
    assert!(staged.contains(&Code::W));
}

#[test]
fn reconcile_never_synthesizes_edges_for_levels_only_repair() {
    let mut staged: HashSet<u8> = HashSet::from([1]);
    let polled = vec!["Space".to_string()];
    reconcile_held(
        &mut staged,
        &polled,
        |_: &str| Some(2u8),
        |code: &u8| -> Option<&'static [&'static str]> {
            if *code == 1 {
                Some(&[])
            } else {
                Some(&["Space"])
            }
        },
    );
    assert!(!staged.contains(&1));
    assert!(staged.contains(&2));
}

#[test]
fn unbound_action_has_no_bindings() {
    let map: ActionMap<&str> = ActionMap::new();
    assert!(map.bindings_for(&"jump").is_empty());
}

#[test]
fn context_gating() {
    let space = Binding::Key(KeyChord::new(Key::Space, Modifiers::default()));
    let mut map = ActionMap::new();
    map.bind("jump", space);
    map.bind("pause", space);
    map.in_context("gameplay", "jump");
    let active = vec!["gameplay".to_string()];
    assert!(map.live_in(&"jump", &active));
    assert!(map.live_in(&"pause", &active));
    let menu = vec!["menu".to_string()];
    assert!(!map.live_in(&"jump", &menu));
    assert!(map.live_in(&"pause", &menu));
}

#[test]
fn resolve_clears_capture() {
    let mut session: RemapSession<&str> = RemapSession::default();
    session.begin("north", KeymapDevice::KeyboardMouse);
    assert!(session.armed());
    assert!(session.resolve_physical(at("KeyZ")));
    assert!(!session.armed());
}

#[test]
fn captures_lower_letters_and_skip_function_keys() {
    let mut session: RemapSession<&str> = RemapSession::default();
    assert!(!session.resolve_key(&Key::Character('W')));
    session.begin("north", KeymapDevice::KeyboardMouse);
    assert!(!session.resolve_key(&Key::F(5)));
    assert!(session.armed());
    assert!(session.resolve_key(&Key::Character('W')));
    assert_eq!(session.map.keyboard(&"north"), chord('w'));
    session.begin("north", KeymapDevice::Gamepad);
    session.cancel();
    assert!(!session.armed());
    session.begin("fire", KeymapDevice::KeyboardMouse);
    assert!(session.resolve_mouse(true));
    assert_eq!(session.map.keyboard(&"fire"), KeymapEntry::Mouse(PointerButton::Primary));
}

fn jump_map() -> ActionMap<&'static str> {
    let mut map = ActionMap::new();
    map.bind("jump", Binding::Key(KeyChord::new(Key::Space, Modifiers::default())));
    map.bind("jump", Binding::Pad(GamepadButton::South));
    map
}

fn space() -> KeyChord {
    KeyChord::new(Key::Space, Modifiers::default())
}

#[test]
fn edges_clear_at_tick_end() {
    let mut st = ActionState::new(jump_map());
    st.key(&space(), true);
    assert!(st.just_pressed(&"jump"));
    assert!(st.pressed(&"jump"), "South still held");
    assert!(st.just_pressed(&"jump"));
    st.end_tick();
    assert!(!st.just_pressed(&"jump"));
    assert!(st.pressed(&"jump"), "South still held");
    st.key(&space(), false);
    assert!(st.just_released(&"jump"));
    assert!(!st.pressed(&"jump"));
    st.end_tick();
    assert!(!st.just_released(&"jump"), "no release while OR-held");
}

#[test]
fn pad_and_key_drive_same_action() {
    let mut st = ActionState::new(jump_map());
    st.pad(GamepadButton::South, true);
    assert!(st.just_pressed(&"jump"));
    st.end_tick();
    st.pad(GamepadButton::South, false);
    st.end_tick();
    st.key(&space(), true);
    assert!(st.just_pressed(&"jump"));
}

#[test]
fn axis_threshold_flips() {
    let mut map = ActionMap::new();
    map.bind("left", Binding::Axis { axis: GamepadAxis::LeftStickX, threshold: s(-0.5) });
    let mut st = ActionState::new(map);
    st.axis(GamepadAxis::LeftStickX, s(-0.2));
    assert!(!st.pressed(&"left"));
    st.axis(GamepadAxis::LeftStickX, s(-0.8));
    assert!(st.just_pressed(&"left"));
    assert_eq!(f(st.axis_value(GamepadAxis::LeftStickX)), -0.8);
    st.axis(GamepadAxis::LeftStickX, s(0.0));
    assert!(st.just_released(&"left"));
}

#[test]
fn consume_hides_from_late_readers() {
    let mut st = ActionState::new(jump_map());
    st.key(&space(), true);
    assert!(st.consume(&"jump"));
    assert!(!st.pressed(&"jump"));
    assert!(!st.just_pressed(&"jump"));
    st.clear_consumed();
    assert!(st.pressed(&"jump"), "South still held");
}

#[test]
fn context_gates_sim_action() {
    let mut map = jump_map();
    map.in_context("gameplay", "jump");
    let mut st = ActionState::new(map);
    st.set_contexts(&["menu"]);
    st.key(&space(), true);
    assert!(!st.pressed(&"jump"));
    st.set_contexts(&["gameplay"]);
    st.key(&space(), true);
    assert!(st.pressed(&"jump"), "South still held");
}

#[test]
fn context_switch_drops_pending_edges() {
    let mut map = jump_map();
    map.in_context("gameplay", "jump");
    let mut st = ActionState::new(map);
    st.set_contexts(&["gameplay"]);
    st.key(&space(), true);
    assert!(st.just_pressed(&"jump"));
    st.set_contexts(&["menu"]);
    assert!(!st.just_pressed(&"jump"));
    assert!(!st.pressed(&"jump"));
    st.key(&space(), false);
    st.set_contexts(&["gameplay"]);
    assert!(!st.just_released(&"jump"), "no release while OR-held");
}

#[test]
fn mock_drives_without_hardware() {
    let mut st = ActionState::new(jump_map());
    st.mock(&"jump", true);
    assert!(st.just_pressed(&"jump"));
    st.mock(&"jump", false);
    assert!(st.just_released(&"jump"));
}

#[test]
fn multi_binding_release_is_or() {
    let mut st = ActionState::new(jump_map());
    st.key(&space(), true);
    st.pad(GamepadButton::South, true);
    assert!(st.pressed(&"jump"), "South still held");
    st.end_tick();
    st.key(&space(), false);
    assert!(st.pressed(&"jump"), "South still held");
    assert!(!st.just_released(&"jump"), "no release while OR-held");
    st.pad(GamepadButton::South, false);
    assert!(!st.pressed(&"jump"));
    assert!(st.just_released(&"jump"));
}

#[test]
fn consume_hides_release_too() {
    let mut st = ActionState::new(jump_map());
    st.key(&space(), true);
    st.end_tick();
    st.key(&space(), false);
    assert!(st.just_released(&"jump"));
    st.consume(&"jump");
    assert!(!st.just_released(&"jump"), "no release while OR-held");
}

fn strength(st: &ActionState<&'static str>, action: &'static str) -> f32 {
    let drive = st.drive(&action);
    let mut best: f32 = if drive.button { 1.0 } else { 0.0 };
    for (threshold, value) in drive.axes {
        let t = f(threshold).abs().clamp(0.0, 0.95);
        let a = f(value).abs();
        if a > t {
            best = best.max(((a - t) / (1.0 - t)).clamp(0.0, 1.0).max(1e-6));
        }
    }
    best.clamp(0.0, 1.0)
}

fn vector(st: &ActionState<&'static str>, deadzone: f32) -> (f32, f32) {
    let mut x = strength(st, "right") - strength(st, "left");
    let mut y = strength(st, "jump") - strength(st, "jump");
    let len = (x * x + y * y).sqrt();
    if len < deadzone.max(0.0) {
        return (0.0, 0.0);
    }
    if len > 1.0 {
        x /= len;
        y /= len;
    }
    (x, y)
}

#[test]
fn strength_and_vector_behaviour() {
    let mut map = ActionMap::new();
    map.bind("right", Binding::Axis { axis: GamepadAxis::LeftStickX, threshold: s(0.2) });
    map.bind("left", Binding::Axis { axis: GamepadAxis::LeftStickX, threshold: s(-0.2) });
    map.bind("jump", Binding::Key(KeyChord::new(Key::Space, Modifiers::default())));
    let mut st = ActionState::new(map);
    assert_eq!(strength(&st, "right"), 0.0);
    assert_eq!(vector(&st, 0.2), (0.0, 0.0));
    st.axis(GamepadAxis::LeftStickX, s(0.5));
    assert!((strength(&st, "right") - 0.375).abs() < 1e-6);
    assert_eq!(strength(&st, "left"), 0.0);
    let (x, y) = vector(&st, 0.2);
    assert!((x - 0.375).abs() < 1e-6 && y.abs() < 1e-6);
    assert_eq!(vector(&st, 0.6), (0.0, 0.0));
    st.axis(GamepadAxis::LeftStickX, s(0.1));
    assert_eq!(strength(&st, "right"), 0.0);
    st.key(&space(), true);
    assert_eq!(strength(&st, "jump"), 1.0);
}

#[test]
fn chord_covers_full_physical_alphabet() {
    assert_eq!(
        chord_for_physical(at("KeyW")),
        Some(KeyChord::new(Key::Character('w'), Modifiers::default()))
    );
    assert_eq!(
        chord_for_physical(at("Digit1")),
        Some(KeyChord::new(Key::Character('1'), Modifiers::default()))
    );
    assert_eq!(
        chord_for_physical(at("Minus")),
        Some(KeyChord::new(Key::Character('-'), Modifiers::default()))
    );
    assert_eq!(
        chord_for_physical(at("Space")),
        Some(KeyChord::new(Key::Space, Modifiers::default()))
    );
    assert_eq!(chord_for_physical(at("F5")), None);
    assert_eq!(chord_for_physical(at("Unidentified")), None);
}

#[test]
fn glyph_covers_letters_digits_punctuation() {
    assert_eq!(glyph_for_physical(at("KeyQ")), Some('q'));
    assert_eq!(glyph_for_physical(at("Digit7")), Some('7'));
    assert_eq!(glyph_for_physical(at("Minus")), Some('-'));
    assert_eq!(glyph_for_physical(at("Slash")), Some('/'));
    assert_eq!(glyph_for_physical(at("Space")), None);
    assert_eq!(glyph_for_physical(at("F1")), None);
}

#[test]
fn positions_are_read_by_their_code_names() {
    assert_eq!(at("KeyW").name(), "KeyW");
    assert_eq!(at("no such key").name(), "Unidentified");
    assert!(at("KeyW").same(&at("KeyW")));
    assert!(!at("KeyW").same(&at("KeyA")));
    assert_eq!(at("KeyW").name(), repose_core::input::PhysicalKey::KeyW.name());
}

#[test]
fn keyboard_and_gamepad_sides_stay_separate() {
    let mut map = Keymap::new();
    map.set_keyboard("fire", KeymapEntry::Mouse(PointerButton::Primary));
    map.set_gamepad("fire", KeymapEntry::Pad(GamepadButton::South));
    assert_eq!(map.active(&"fire", false), KeymapEntry::Mouse(PointerButton::Primary));
    assert_eq!(map.active(&"fire", true), KeymapEntry::Pad(GamepadButton::South));
}

#[test]
fn gamepad_falls_back_to_keyboard_when_unbound() {
    let mut map = Keymap::new();
    map.set_keyboard("north", chord('w'));
    assert_eq!(map.active(&"north", true), chord('w'));
    assert_eq!(map.active(&"missing", true), KeymapEntry::Unbound);
}

#[test]
fn capture_overwrites_one_side_only() {
    let mut map = Keymap::new();
    map.set_keyboard("fire", KeymapEntry::Mouse(PointerButton::Primary));
    map.set_gamepad("fire", KeymapEntry::Pad(GamepadButton::South));
    let capture = map.begin_capture("fire", KeymapDevice::KeyboardMouse);
    map.resolve_capture(&capture, Some(chord('f')));
    assert_eq!(map.keyboard(&"fire"), chord('f'));
    assert_eq!(map.gamepad(&"fire"), KeymapEntry::Pad(GamepadButton::South));
    let capture = map.begin_capture("fire", KeymapDevice::Gamepad);
    map.resolve_capture(&capture, None);
    assert_eq!(map.gamepad(&"fire"), KeymapEntry::Unbound);
    assert_eq!(map.active(&"fire", true), chord('f'));
}

#[test]
fn entries_round_trip_through_strings() {
    let entries = [
        KeymapEntry::Unbound,
        chord('w'),
        KeymapEntry::Key(KeyChord::new(
            Key::Space,
            Modifiers { shift: true, ..Modifiers::default() },
        )),
        KeymapEntry::Mouse(PointerButton::Primary),
        KeymapEntry::Mouse(PointerButton::Secondary),
        KeymapEntry::Mouse(PointerButton::Tertiary),
        KeymapEntry::Pad(GamepadButton::DPadUp),
        KeymapEntry::Axis { axis: GamepadAxis::LeftTrigger, threshold: s(0.5) },
    ];
    for entry in entries {
        let text = encode(&entry);
        assert_eq!(decode(&text), entry, "round trip {text:?}");
    }
    assert_eq!(decode("bogus"), KeymapEntry::Unbound);
}

fn plain(key: Key) -> KeymapEntry {
    KeymapEntry::Key(KeyChord::new(key, Modifiers::default()))
}

#[test]
fn codec_keeps_logical_and_physical_distinct() {
    let unambiguous = [
        plain(Key::Character('w')),
        plain(Key::Character('1')),
        KeymapEntry::Physical(at("KeyW")),
        KeymapEntry::Physical(at("Digit1")),
        KeymapEntry::Physical(at("Minus")),
        KeymapEntry::Mouse(PointerButton::Primary),
        KeymapEntry::Mouse(PointerButton::Secondary),
        KeymapEntry::Pad(GamepadButton::South),
        KeymapEntry::Axis { axis: GamepadAxis::LeftTrigger, threshold: s(0.5) },
        KeymapEntry::Unbound,
    ];
    for entry in unambiguous {
        let text = encode(&entry);
        assert_eq!(decode(&text), entry, "round trip {text:?}");
    }

    let named_keys = [
        Key::Space,
        Key::Tab,
        Key::Enter,
        Key::Escape,
        Key::ArrowUp,
        Key::ArrowDown,
        Key::ArrowLeft,
        Key::ArrowRight,
        Key::ShiftLeft,
        Key::ShiftRight,
    ];
    let named_positions = [
        "Space",
        "Tab",
        "Enter",
        "Escape",
        "ArrowUp",
        "ArrowDown",
        "ArrowLeft",
        "ArrowRight",
        "ShiftLeft",
        "ShiftRight",
        "KeyW",
    ];
    for (key, position) in named_keys.into_iter().zip(named_positions) {
        let logical = plain(key);
        let physical = KeymapEntry::Physical(at(position));
        let ltext = encode(&logical);
        let ptext = encode(&physical);
        assert_ne!(ltext, ptext, "wire forms must differ for {key:?}");
        assert_eq!(decode(&ltext), logical, "logical {ltext:?}");
        assert_eq!(decode(&ptext), physical, "physical {ptext:?}");
    }

    let shifted = KeymapEntry::Key(KeyChord::new(
        Key::Space,
        Modifiers { shift: true, ..Modifiers::default() },
    ));
    let text = encode(&shifted);
    assert_eq!(decode(&text), shifted, "modifiers survive");

    assert_eq!(decode("Space"), plain(Key::Space), "bare Space is the logical default");
    assert_eq!(decode("phys:Space"), KeymapEntry::Physical(at("Space")));
    assert_eq!(
        decode("KeyW"),
        KeymapEntry::Physical(at("KeyW")),
        "bare KeyW stays physical"
    );
}

#[test]
fn clearing_edges_keeps_what_was_consumed() {
    let fire = KeyChord::new(Key::Character('f'), Modifiers::default());
    let mut map = ActionMap::new();
    map.bind("jump", Binding::Key(space()));
    map.bind("fire", Binding::Key(fire));
    let mut state = ActionState::new(map);
    state.key(&space(), true);
    state.key(&fire, true);
    assert!(state.consume(&"jump"));
    assert!(state.just_pressed(&"fire"));
    state.clear_edges();
    assert!(!state.just_pressed(&"fire"));
    assert!(state.pressed(&"fire"), "levels stay");
    assert!(!state.pressed(&"jump"), "consumed until the tick ends");
    state.end_tick();
    assert!(state.pressed(&"jump"));
}

#[test]
fn consume_expires_at_tick_end() {
    let mut map = ActionMap::new();
    map.bind("jump", Binding::Key(space()));
    let mut state = ActionState::new(map);
    state.key(&space(), true);
    assert!(state.consume(&"jump"));
    assert!(!state.pressed(&"jump"));
    state.end_tick();
    assert!(state.pressed(&"jump"), "consume must not leak past tick end");
}

#[test]
fn physical_capture_binds_physical_and_drives_action() {
    let mut session: RemapSession<&str> = RemapSession::default();
    session.begin("jump", KeymapDevice::KeyboardMouse);
    assert!(session.resolve_physical(at("KeyZ")));
    assert_eq!(session.map.keyboard(&"jump"), KeymapEntry::Physical(at("KeyZ")));

    let map = session.map.to_action_map();
    assert!(map.bindings_for(&"jump").contains(&Binding::Physical(at("KeyZ"))));
    let mut state: ActionState<&str> = ActionState::new(map);
    state.physical(at("KeyZ"), true);
    assert!(state.pressed(&"jump"));
    assert!(state.just_pressed(&"jump"));
    state.end_tick();
    state.physical(at("KeyZ"), false);
    assert!(!state.pressed(&"jump"));
    assert!(state.just_released(&"jump"));
}

#[test]
fn replace_map_swaps_live_evaluation() {
    let mut first = ActionMap::new();
    first.bind("jump", Binding::Key(space()));
    let mut state: ActionState<&str> = ActionState::new(first);
    state.key(&space(), true);
    assert!(state.pressed(&"jump"));
    state.key(&space(), false);
    state.end_tick();

    let chord_e = KeyChord::new(Key::Character('e'), Modifiers::default());
    let mut second = ActionMap::new();
    second.bind("jump", Binding::Key(chord_e));
    state.replace_map(second);
    state.key(&space(), true);
    assert!(!state.pressed(&"jump"), "old binding must go dead");
    assert!(!state.just_pressed(&"jump"));
    state.key(&space(), false);
    state.key(&chord_e, true);
    assert!(state.pressed(&"jump"));
    assert!(state.just_pressed(&"jump"));
}

#[test]
fn contexts_of_a_keymap_gate_gameplay_and_menu() {
    let mut keys: Keymap<&'static str> = Keymap::new();
    keys.set_keyboard("fire", chord('f'));
    keys.set_keyboard("back", chord('b'));
    let map = keys.to_action_map_contexts(&["fire"], &["back"]);
    assert!(map.has_contexts());
    assert!(map.live_in(&"fire", &vec!["gameplay".to_string()]));
    assert!(!map.live_in(&"fire", &vec!["menu".to_string()]));
    assert!(map.live_in(&"back", &vec!["menu".to_string()]));
}
