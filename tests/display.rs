use icn2037_life::display::{panel_map, DisplayConfig, Error, PinOp, RenderAction, ICN2037};
use icn2037_life::message::ICN2037Message;

fn panel() -> ICN2037 {
    let config = DisplayConfig::new(25, 16, panel_map);
    assert!(config.is_valid());
    ICN2037::new(config, vec![0u16; 25 * 16])
}

fn plane_bits(dev: &ICN2037, x: usize, y: usize) -> Vec<bool> {
    let (idx, off) = panel_map(x, y);
    let pl = dev.frame_buffer_len();
    (0..16).map(|k| (dev.buffer[k * pl + idx] >> off) & 1 == 1).collect()
}

#[test]
fn panel_layout_is_valid() {
    let config = DisplayConfig::new(25, 16, panel_map);
    assert!(config.is_valid());
    assert_eq!(panel_map(0, 0), (0, 15));
    assert_eq!(panel_map(0, 15), (0, 0));
    assert_eq!(panel_map(24, 15), (24, 0));
}

#[test]
fn shared_bits_make_layout_invalid() {
    let config = DisplayConfig::new(4, 4, |_x, _y| (0, 0));
    assert!(!config.is_valid());
    let wide = DisplayConfig::new(4, 4, |x, y| (0, x + 4 * y + 1));
    assert!(!wide.is_valid());
    let ok = DisplayConfig::new(4, 4, |x, y| (0, x + 4 * y));
    assert!(ok.is_valid());
}

#[test]
fn gray_rows_light_v_planes() {
    for v in 0u8..16 {
        let mut dev = panel();
        dev.set_pixel_gray(7, 9, v);
        let on = plane_bits(&dev, 7, 9).iter().filter(|b| **b).count();
        assert_eq!(on, v as usize);
    }
}

#[test]
fn gray_rows_are_spread() {
    let mut dev = panel();
    dev.set_pixel_gray(3, 3, 4);
    let bits = plane_bits(&dev, 3, 3);
    let expected: Vec<bool> = [1, 0, 0, 0, 1, 0, 0, 0, 1, 0, 0, 0, 1, 0, 0, 0].iter().map(|b| *b == 1).collect();
    assert_eq!(bits, expected);
}

#[test]
fn gray_write_reads_back_and_overwrites() {
    let mut dev = panel();
    dev.set_pixel_gray(10, 5, 15);
    dev.set_pixel_gray(10, 5, 1);
    let bits = plane_bits(&dev, 10, 5);
    let expected: Vec<bool> = (0..16).map(|k| k == 0).collect();
    assert_eq!(bits, expected);
}

#[test]
fn gray8_at_2_3_sets_half_the_planes() {
    let mut dev = panel();
    dev.set_pixel_gray(2, 3, 8);
    let (idx, off) = panel_map(2, 3);
    assert_eq!((idx, off), (1, 2));
    let bits = plane_bits(&dev, 2, 3);
    assert_eq!(bits.iter().filter(|b| **b).count(), 8);
    assert_eq!(bits.iter().filter(|b| !**b).count(), 8);
    for k in 0..16 {
        assert_eq!(bits[k], k % 2 == 0);
    }
    let lit: usize = dev.buffer.iter().map(|w| w.count_ones() as usize).sum();
    assert_eq!(lit, 8);
}

#[test]
fn off_panel_writes_change_nothing() {
    let mut dev = panel();
    dev.set_pixel_gray(1, 1, 9);
    let before = dev.buffer.clone();
    dev.set_pixel(25, 0, true, 0);
    dev.set_pixel(0, 16, true, 0);
    dev.set_pixel_gray(25, 3, 15);
    dev.set_pixel_gray(3, 16, 15);
    dev.set_pixel_gray(usize::MAX, usize::MAX, 15);
    assert_eq!(dev.buffer, before);
}

#[test]
fn set_pixel_touches_one_bit() {
    let mut dev = panel();
    dev.set_pixel(2, 3, true, 25);
    assert_eq!(dev.buffer[26], 1 << 2);
    dev.set_pixel(2, 3, false, 25);
    assert!(dev.buffer.iter().all(|w| *w == 0));
}

#[test]
fn partial_buffer_keeps_resident_planes() {
    let config = DisplayConfig::new(25, 16, panel_map);
    let mut dev = ICN2037::new(config, vec![0u16; 25]);
    dev.set_pixel_gray(2, 3, 15);
    assert_eq!(dev.buffer.len(), 25);
    assert_eq!(dev.buffer[1], 1 << 2);
}

#[test]
fn write_16b_sends_high_byte_first() {
    let dev = panel();
    assert_eq!(
        dev.write_16b(0xabcd),
        vec![PinOp::SpiWrite(0xab, 0xcd), PinOp::SetLe(true), PinOp::SetLe(false)]
    );
}

#[test]
fn start_blanks_and_lowers_latch() {
    let dev = panel();
    assert_eq!(dev.start(), vec![PinOp::SetOe(true), PinOp::SetLe(false)]);
}

#[test]
fn flush_shifts_one_plane_then_strobes() {
    let mut dev = panel();
    dev.set_pixel_gray(2, 3, 15);
    let ops = dev.flush(25);
    assert_eq!(ops.len(), 25 * 3 + 2);
    assert_eq!(ops[3], PinOp::SpiWrite(0, 4));
    assert_eq!(ops[0], PinOp::SpiWrite(0, 0));
    assert_eq!(&ops[75..], &[PinOp::SetOe(true), PinOp::SetOe(false)]);
}

#[test]
fn refresh_flushes_all_planes_in_order() {
    let mut dev = panel();
    dev.buffer[25 * 5] = 0x1234;
    let ops = dev.refresh();
    assert_eq!(ops.len(), 16 * (25 * 3 + 2));
    assert_eq!(ops[5 * 77], PinOp::SpiWrite(0x12, 0x34));
}

#[test]
fn failures_map_to_errors() {
    assert_eq!(PinOp::SpiWrite(1, 2).failure(), Error::BusError);
    assert_eq!(PinOp::SetLe(true).failure(), Error::PinError);
    assert_eq!(PinOp::SetOe(false).failure(), Error::PinError);
}

#[test]
fn clear_is_applied_before_next_refresh() {
    let mut dev = panel();
    assert!(matches!(dev.task_step(Some(ICN2037Message::SetPixel((4, 4, 15)))), RenderAction::Applied));
    assert!(matches!(dev.task_step(None), RenderAction::Refresh(_)));
    assert!(matches!(dev.task_step(Some(ICN2037Message::Clear)), RenderAction::Applied));
    assert!(dev.buffer.iter().all(|w| *w == 0));
    match dev.task_step(None) {
        RenderAction::Refresh(ops) => {
            assert_eq!(ops.len(), 16 * 77);
            assert!(ops.iter().all(|op| !matches!(op, PinOp::SpiWrite(a, b) if *a != 0 || *b != 0)));
        }
        RenderAction::Applied => panic!("an empty queue refreshes"),
    }
}

#[test]
fn messages_update_pixels() {
    let mut dev = panel();
    dev.apply_message(ICN2037Message::FillPixels((1, 1, 3, 3, 8)));
    for (x, y) in [(1, 1), (2, 1), (1, 2), (2, 2)] {
        assert_eq!(plane_bits(&dev, x, y).iter().filter(|b| **b).count(), 8);
    }
    assert_eq!(plane_bits(&dev, 3, 3).iter().filter(|b| **b).count(), 0);
    dev.apply_message(ICN2037Message::FillPixels((20, 10, 100, 100, 3)));
    assert_eq!(plane_bits(&dev, 24, 15).iter().filter(|b| **b).count(), 3);
    dev.apply_message(ICN2037Message::SetPixel((0, 0, 200)));
    assert_eq!(plane_bits(&dev, 0, 0).iter().filter(|b| **b).count(), 15);
    dev.apply_message(ICN2037Message::SetPixel((30, 0, 5)));
    dev.apply_message(ICN2037Message::Fullfill(4));
    for x in 0..25 {
        for y in 0..16 {
            assert_eq!(plane_bits(&dev, x, y).iter().filter(|b| **b).count(), 4);
        }
    }
}

#[test]
fn brightness_dims_every_pixel() {
    let mut dev = panel();
    dev.apply_message(ICN2037Message::SetPixel((5, 5, 15)));
    dev.apply_message(ICN2037Message::SetBrightness(0));
    assert!(dev.buffer.iter().all(|w| *w == 0));
    dev.apply_message(ICN2037Message::SetBrightness(8));
    assert_eq!(plane_bits(&dev, 5, 5).iter().filter(|b| **b).count(), 8);
    dev.apply_message(ICN2037Message::SetPixel((6, 5, 15)));
    assert_eq!(plane_bits(&dev, 6, 5).iter().filter(|b| **b).count(), 8);
    dev.apply_message(ICN2037Message::SetBrightness(15));
    assert_eq!(plane_bits(&dev, 5, 5).iter().filter(|b| **b).count(), 15);
    assert_eq!(plane_bits(&dev, 6, 5).iter().filter(|b| **b).count(), 15);
}
