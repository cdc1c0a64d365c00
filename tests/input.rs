use anyviewer::permissions::{DeviceInfo, Permission, PermissionManager};
use anyviewer::input::{
    parse_key, InputAction, InputConfig, InputError, InputPlanner, Key, KeyModifier, KeyboardEvent, KeyboardEventType,
    MouseButtonType, MouseEvent, MouseEventType,
};

fn mouse(kind: MouseEventType, x: i32, y: i32) -> MouseEvent {
    MouseEvent { x, y, event_type: kind, button: Some(MouseButtonType::Left), delta: None, modifiers: Vec::new() }
}

fn presses(actions: &[InputAction]) -> usize {
    actions.iter().filter(|a| matches!(a, InputAction::Press(_))).count()
}

#[test]
fn two_close_clicks_make_one_double_click() {
    let mut config = InputConfig::default_config();
    config.double_click_speed = 500;
    let mut planner = InputPlanner::new(config);
    let first = planner.plan_mouse(&mouse(MouseEventType::Click, 100, 100), 1000);
    assert_eq!(presses(&first), 1);
    let second = planner.plan_mouse(&mouse(MouseEventType::Click, 100, 100), 1200);
    assert_eq!(second.len(), 8);
    assert_eq!(presses(&second), 2);
}

#[test]
fn slow_or_distant_clicks_stay_single() {
    let mut planner = InputPlanner::new(InputConfig::default_config());
    planner.plan_mouse(&mouse(MouseEventType::Click, 100, 100), 0);
    assert_eq!(planner.plan_mouse(&mouse(MouseEventType::Click, 100, 100), 600).len(), 4);
    assert_eq!(planner.plan_mouse(&mouse(MouseEventType::Click, 103, 104), 700).len(), 4);
    assert_eq!(planner.plan_mouse(&mouse(MouseEventType::Click, 106, 104), 800).len(), 8);
}

#[test]
fn scrolls_are_three_ticks() {
    let mut planner = InputPlanner::new(InputConfig::default_config());
    let mut e = mouse(MouseEventType::Scroll, 0, 0);
    e.delta = Some(120);
    assert!(matches!(planner.plan_mouse(&e, 0)[..], [InputAction::Scroll(3)]));
    e.delta = Some(-1);
    assert!(matches!(planner.plan_mouse(&e, 0)[..], [InputAction::Scroll(-3)]));
}

#[test]
fn smoothed_moves_walk_the_line() {
    let mut planner = InputPlanner::new(InputConfig::default_config());
    let actions = planner.plan_mouse(&mouse(MouseEventType::Move, 100, -50), 0);
    assert_eq!(actions.len(), 20);
    assert!(matches!(actions[0], InputAction::MoveTo(10, -5)));
    assert!(matches!(actions[1], InputAction::Wait(1)));
    assert!(matches!(actions[18], InputAction::MoveTo(100, -50)));
    let mut config = InputConfig::default_config();
    config.smooth_mouse_movement = false;
    let mut direct = InputPlanner::new(config);
    assert!(matches!(direct.plan_mouse(&mouse(MouseEventType::Move, 5, 5), 0)[..], [InputAction::MoveTo(5, 5)]));
}

#[test]
fn drags_end_on_release() {
    let mut planner = InputPlanner::new(InputConfig::default_config());
    planner.plan_mouse(&mouse(MouseEventType::Press, 10, 10), 0);
    planner.plan_mouse(&mouse(MouseEventType::Drag, 20, 20), 1);
    assert!(planner.get_input_stats().is_dragging);
    planner.plan_mouse(&mouse(MouseEventType::Release, 20, 20), 2);
    let stats = planner.get_input_stats();
    assert!(!stats.is_dragging);
    assert_eq!(stats.mouse_position, (20, 20));
}

#[test]
fn disabled_mouse_does_nothing() {
    let mut config = InputConfig::default_config();
    config.enable_mouse = false;
    let mut planner = InputPlanner::new(config);
    assert!(planner.plan_mouse(&mouse(MouseEventType::Click, 1, 1), 0).is_empty());
}

#[test]
fn key_names() {
    assert_eq!(parse_key("ENTER"), Ok(Key::Return));
    assert_eq!(parse_key("a"), Ok(Key::Unicode('a')));
    assert_eq!(parse_key("A"), Ok(Key::Unicode('a')));
    assert_eq!(parse_key("F12"), Ok(Key::F12));
    assert_eq!(parse_key("!"), Ok(Key::Unicode('!')));
    assert_eq!(parse_key("é"), Ok(Key::Unicode('é')));
    assert_eq!(parse_key("NoSuchKey"), Err(InputError::UnknownKey));
}

#[test]
fn keyboard_events_press_modifiers_first() {
    let mut planner = InputPlanner::new(InputConfig::default_config());
    let e = KeyboardEvent {
        event_type: KeyboardEventType::KeyPress,
        key: Some("c".to_string()),
        key_code: None,
        text: None,
        modifiers: vec![KeyModifier::Ctrl],
    };
    let actions = planner.plan_keyboard(&e).unwrap();
    assert!(matches!(
        actions[..],
        [InputAction::KeyDown(Key::Control), InputAction::KeyDown(Key::Unicode('c')), InputAction::Wait(250), InputAction::KeyUp(Key::Unicode('c'))]
    ));
    let bad = KeyboardEvent { event_type: KeyboardEventType::KeyDown, key: Some("bogus".to_string()), key_code: None, text: None, modifiers: Vec::new() };
    assert_eq!(planner.plan_keyboard(&bad).unwrap_err(), InputError::UnknownKey);
    let text = KeyboardEvent { event_type: KeyboardEventType::TextInput, key: None, key_code: None, text: Some("hi".to_string()), modifiers: Vec::new() };
    assert!(matches!(&planner.plan_keyboard(&text).unwrap()[..], [InputAction::Text(t)] if t == "hi"));
}

#[test]
fn input_needs_input_control() {
    use_gate();
}

fn use_gate() {
    let mut permissions = PermissionManager::new();
    let device = DeviceInfo { name: "d".to_string(), os: "linux".to_string(), version: "1".to_string(), ip_address: None };
    permissions.grant_permission("c1".to_string(), device, vec![Permission::ScreenView], None, 0);
    let mut planner = InputPlanner::new(InputConfig::default_config());
    assert!(!planner.allow_event(&permissions, "c1", 1));
    assert!(!planner.allow_event(&permissions, "nobody", 1));
    assert_eq!(planner.denied_count(), 2);
    let device = DeviceInfo { name: "d".to_string(), os: "linux".to_string(), version: "1".to_string(), ip_address: None };
    permissions.grant_permission("c1".to_string(), device, vec![Permission::InputControl], None, 2);
    assert!(planner.allow_event(&permissions, "c1", 3));
    assert_eq!(planner.denied_count(), 2);
}
