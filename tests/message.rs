use icn2037_life::controls::{
    game_brightness_at, game_brightness_index, is_long_press, key_edge, next_game_brightness_index,
    step_light_brightness, Key, KeyEvent,
};
use icn2037_life::message::{clear_message, fill_message, pixel_message, ICN2037Message};

#[test]
fn pixel_messages() {
    assert_eq!(pixel_message(3, 4, 7), Some(ICN2037Message::SetPixel((3, 4, 7))));
    assert_eq!(pixel_message(-1, 4, 7), None);
    assert_eq!(pixel_message(1, -4, 7), None);
}

#[test]
fn fill_messages_cover_the_whole_area() {
    assert_eq!(fill_message(2, 3, 4, 5, 9), Some(ICN2037Message::FillPixels((2, 3, 6, 8, 9))));
    assert_eq!(fill_message(-2, -3, 4, 5, 1), Some(ICN2037Message::FillPixels((0, 0, 2, 2, 1))));
    assert_eq!(fill_message(-5, 0, 4, 5, 1), None);
    assert_eq!(fill_message(0, 0, 0, 5, 1), None);
}

#[test]
fn clear_messages() {
    assert_eq!(clear_message(0), ICN2037Message::Clear);
    assert_eq!(clear_message(6), ICN2037Message::Fullfill(6));
}

#[test]
fn key_edges() {
    assert_eq!(key_edge(Key::A, false, true), Some(KeyEvent::Pressed(Key::A)));
    assert_eq!(key_edge(Key::B, true, false), Some(KeyEvent::Released(Key::B)));
    assert_eq!(key_edge(Key::A, true, true), None);
    assert!(is_long_press(1001));
    assert!(!is_long_press(1000));
}

#[test]
fn brightness_cycles() {
    assert_eq!(game_brightness_index(8), 2);
    assert_eq!(game_brightness_index(9), 0);
    assert_eq!(game_brightness_at(next_game_brightness_index(3)), 1);
    assert_eq!(game_brightness_at(next_game_brightness_index(1)), 8);
    assert_eq!(step_light_brightness(15, 1), 15);
    assert_eq!(step_light_brightness(1, -1), 1);
    assert_eq!(step_light_brightness(7, -1), 6);
}

#[test]
fn noise_is_folded_into_the_seed() {
    let mut seed = [0u8; 16];
    icn2037_life::rng::mix_noise(&mut seed, 17, 300);
    assert_eq!(seed[1], ((300 + 17) % 254) as u8);
    icn2037_life::rng::mix_noise(&mut seed, 1, 62);
    assert_eq!(seed[1], 63 ^ 63);
    assert!(seed.iter().all(|b| *b == 0));
}
