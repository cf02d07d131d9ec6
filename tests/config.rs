use icn2037_life::config::{Page, State, STATE_SIZE};

fn stored(s: &State) -> Vec<u8> {
    s.encode()
}

#[test]
fn corrupted_magic_falls_back_to_defaults() {
    let mut s = State::default();
    s.page = Page::Light;
    s.game_brightness = 4;
    let mut rec = stored(&s);
    rec[0] ^= 0xff;
    let out = State::load(&rec);
    assert!(out.persist);
    assert_eq!(out.state.page, Page::Game);
    assert_eq!(out.state.game_brightness, 15);
    assert_eq!(out.state.light_brightness, 15);
    assert!(!out.state.serial_mode);
    assert_eq!(out.state.version(), b"v0.1.0".to_vec());
}

#[test]
fn valid_record_loads_its_settings() {
    let mut s = State::default();
    s.page = Page::Light;
    s.game_brightness = 8;
    s.light_brightness = 3;
    s.serial_mode = true;
    let rec = stored(&s);
    assert_eq!(rec.len(), STATE_SIZE);
    assert_eq!(&rec[0..8], &0x1145141919810u64.to_le_bytes());
    let out = State::load(&rec);
    assert!(!out.persist);
    assert_eq!(out.state.page, Page::Light);
    assert_eq!(out.state.game_brightness, 8);
    assert_eq!(out.state.light_brightness, 3);
    assert!(out.state.serial_mode);
    assert_eq!(out.state.version, s.version);
}

#[test]
fn other_version_falls_back() {
    let mut s = State::default();
    s.version[5] = b'9';
    let out = State::load(&stored(&s));
    assert!(out.persist);
    assert_eq!(out.state.version(), b"v0.1.0".to_vec());
}

#[test]
fn short_or_blank_record_falls_back() {
    assert!(State::load(&[0u8; 16]).persist);
    assert!(State::load(&[0xffu8; 512]).persist);
}

#[test]
fn version_stops_at_nul() {
    let s = State::default();
    assert_eq!(s.version.len(), 64);
    assert_eq!(s.version(), b"v0.1.0".to_vec());
}
