use adventure::input::{InteractionId, KeyCode, Modifiers, MouseButton};

#[test]
fn modifiers_default_is_none() {
    assert_eq!(Modifiers::default(), Modifiers::none());
    assert!(Modifiers::none().is_empty());
}

#[test]
fn modifiers_with_shift_not_empty() {
    let m = Modifiers { shift: true, ..Modifiers::none() };
    assert!(!m.is_empty());
}

#[test]
fn mouse_button_distinct() {
    assert_ne!(MouseButton::Left, MouseButton::Right);
    assert_ne!(MouseButton::Other(3), MouseButton::Other(4));
}

#[test]
fn interaction_id_default_is_none() {
    assert_eq!(InteractionId::default(), InteractionId::none());
    assert!(InteractionId::none().is_none());
    assert!(!InteractionId::new(1).is_none());
}

#[test]
fn digit_hotkey() {
    assert!(KeyCode::Digit(1).is_verb_hotkey());
    assert!(KeyCode::Digit(9).is_verb_hotkey());
    assert!(!KeyCode::Digit(0).is_verb_hotkey());
    assert!(!KeyCode::Escape.is_verb_hotkey());
}

#[test]
fn letter_distinct() {
    assert_ne!(KeyCode::Letter('a'), KeyCode::Letter('b'));
}

#[test]
fn arrow_keys() {
    assert_ne!(KeyCode::Up, KeyCode::Down);
    assert_ne!(KeyCode::Left, KeyCode::Right);
}
