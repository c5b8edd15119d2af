use game_utils::input::KeyboardState;
use game_utils::intent::{
    resolve_intent, ConfigError, DirectionMapping, KEY_A, KEY_D, KEY_S, KEY_W,
};
use game_utils::vector::vec2_is_zero;

fn held(keys: &[u32]) -> KeyboardState {
    let mut state = KeyboardState::new();
    for k in keys {
        state.press(*k);
    }
    state
}

#[test]
fn is_zero_exact() {
    assert!(vec2_is_zero([0, 0]));
    assert!(!vec2_is_zero([1, 0]));
    assert!(!vec2_is_zero([0, -1]));
}

#[test]
fn press_release_and_tick() {
    let mut state = KeyboardState::new();
    assert!(state.press(KEY_W));
    assert!(!state.press(KEY_W));
    assert!(state.is_down(KEY_W));
    assert_eq!(state.keys_down, vec![KEY_W]);
    assert_eq!(state.new_keys, vec![KEY_W]);
    state.end_tick();
    assert!(state.new_keys.is_empty());
    assert!(!state.press(KEY_W));
    assert!(state.new_keys.is_empty());
    state.release(KEY_W);
    assert!(!state.is_down(KEY_W));
    assert!(state.keys_down.is_empty());
    state.release(KEY_W);
    assert!(state.keys_down.is_empty());
}

#[test]
fn release_keeps_new_keys_until_tick_ends() {
    let mut state = KeyboardState::new();
    assert!(state.press(KEY_D));
    state.release(KEY_D);
    assert!(!state.is_down(KEY_D));
    assert_eq!(state.new_keys, vec![KEY_D]);
    assert!(state.press(KEY_D));
    assert_eq!(state.keys_down, vec![KEY_D]);
    assert_eq!(state.new_keys, vec![KEY_D]);
    state.end_tick();
    assert!(state.new_keys.is_empty());
    assert!(state.is_down(KEY_D));
}

#[test]
fn standard_mapping_directions() {
    let m = DirectionMapping::standard();
    assert_eq!(m.direction(KEY_W), Some([0, -1]));
    assert_eq!(m.direction(KEY_S), Some([0, 1]));
    assert_eq!(m.direction(KEY_A), Some([-1, 0]));
    assert_eq!(m.direction(KEY_D), Some([1, 0]));
    assert_eq!(m.direction(0x20), None);
}

#[test]
fn add_mapping_errors() {
    let mut m = DirectionMapping::new();
    assert_eq!(m.add_mapping(KEY_W, [0, 2]), Err(ConfigError::NotUnitDirection));
    assert_eq!(m.direction(KEY_W), None);
    assert_eq!(m.add_mapping(KEY_W, [1, -1]), Err(ConfigError::NotUnitDirection));
    assert_eq!(m.add_mapping(KEY_W, [0, 0]), Err(ConfigError::NotUnitDirection));
    assert_eq!(m.add_mapping(KEY_W, [-1, 0]), Ok(()));
    assert_eq!(m.add_mapping(KEY_W, [0, 1]), Err(ConfigError::DuplicateKey));
    assert_eq!(m.direction(KEY_W), Some([-1, 0]));
}

#[test]
fn forward_only() {
    let m = DirectionMapping::standard();
    assert_eq!(resolve_intent(&held(&[KEY_W]), &m), [0, -1]);
}

#[test]
fn diagonal_is_not_unit() {
    let m = DirectionMapping::standard();
    assert_eq!(resolve_intent(&held(&[KEY_W, KEY_D]), &m), [1, -1]);
    assert_eq!(resolve_intent(&held(&[KEY_S, KEY_A]), &m), [-1, 1]);
}

#[test]
fn opposite_keys_cancel() {
    let m = DirectionMapping::standard();
    let intent = resolve_intent(&held(&[KEY_W, KEY_S]), &m);
    assert_eq!(intent, [0, 0]);
    assert!(vec2_is_zero(intent));
    let intent = resolve_intent(&held(&[KEY_A, KEY_D]), &m);
    assert!(vec2_is_zero(intent));
}

#[test]
fn unmapped_keys_ignored() {
    let m = DirectionMapping::standard();
    assert_eq!(resolve_intent(&held(&[0x20, KEY_D, 0x71]), &m), [1, 0]);
    assert!(vec2_is_zero(resolve_intent(&held(&[0x20]), &m)));
    assert!(vec2_is_zero(resolve_intent(&KeyboardState::new(), &m)));
}

#[test]
fn order_does_not_matter() {
    let m = DirectionMapping::standard();
    let a = resolve_intent(&held(&[KEY_D, KEY_W, KEY_A, KEY_A]), &m);
    let b = resolve_intent(&held(&[KEY_A, KEY_D, KEY_W]), &m);
    assert_eq!(a, b);
    assert_eq!(a, [0, -1]);
}

#[test]
fn released_key_no_longer_counts() {
    let m = DirectionMapping::standard();
    let mut state = held(&[KEY_W, KEY_D]);
    state.release(KEY_W);
    assert_eq!(resolve_intent(&state, &m), [1, 0]);
}
