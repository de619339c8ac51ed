use vicki::input::{update_button_mask, ElementState, MouseButton, MouseState};

#[test]
fn press_sets_the_bit_of_the_button() {
    assert_eq!(update_button_mask(0, ElementState::Pressed, MouseButton::Left), 0b001);
    assert_eq!(update_button_mask(0, ElementState::Pressed, MouseButton::Middle), 0b010);
    assert_eq!(update_button_mask(0, ElementState::Pressed, MouseButton::Right), 0b100);
    assert_eq!(update_button_mask(0b001, ElementState::Pressed, MouseButton::Right), 0b101);
    assert_eq!(update_button_mask(0b101, ElementState::Pressed, MouseButton::Right), 0b101);
}

#[test]
fn release_clears_the_bit_of_the_button() {
    assert_eq!(update_button_mask(0b111, ElementState::Released, MouseButton::Left), 0b110);
    assert_eq!(update_button_mask(0b111, ElementState::Released, MouseButton::Middle), 0b101);
    assert_eq!(update_button_mask(0b111, ElementState::Released, MouseButton::Right), 0b011);
    assert_eq!(update_button_mask(0b010, ElementState::Released, MouseButton::Left), 0b010);
}

#[test]
fn other_buttons_count_as_the_left_one() {
    assert_eq!(update_button_mask(0, ElementState::Pressed, MouseButton::Other(7)), 0b001);
    assert_eq!(update_button_mask(0b011, ElementState::Released, MouseButton::Other(0)), 0b010);
}

#[test]
fn higher_bits_of_the_mask_are_kept() {
    assert_eq!(
        update_button_mask(0xffff_fff8, ElementState::Pressed, MouseButton::Middle),
        0xffff_fffa
    );
    assert_eq!(
        update_button_mask(0xffff_ffff, ElementState::Released, MouseButton::Right),
        0xffff_fffb
    );
}

#[test]
fn mouse_state_is_copied_as_it_is() {
    let state = MouseState { pos: (3, 4), button_mask: 5 };
    let copy = state.clone();
    assert_eq!(copy, state);
}
