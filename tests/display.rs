use bw_display::address::get_address;
use bw_display::display::{DisplayError, Ssd1680Display, FRAME_BUFFER_SIZE};
use bw_display::refresh::{ControllerStep, INITIAL_REFRESH_COUNT};
use bw_display::TransparencySetting;

fn display(width: u16, height: u16) -> Ssd1680Display {
    Ssd1680Display::new(width, height)
}

#[test]
fn address_of_pixel() {
    let a = get_address(3, 2, 16);
    assert_eq!(a.buffer_position, 4);
    assert_eq!(a.byte_offset, 3);
    let b = get_address(15, 0, 16);
    assert_eq!(b.buffer_position, 1);
    assert_eq!(b.byte_offset, 7);
    let c = get_address(175, 295, 176);
    assert_eq!(c.buffer_position, 21 + 295 * 22);
    assert_eq!(c.byte_offset, 7);
}

#[test]
fn address_offsets_stay_below_eight() {
    for x in 0..64u16 {
        let a = get_address(x, 5, 64);
        assert_eq!(a.buffer_position, (x / 8) as usize + 5 * 8);
        assert_eq!(a.byte_offset, (x % 8) as u8);
        assert!(a.byte_offset < 8);
    }
}

#[test]
fn new_display_is_black_and_sized() {
    let d = display(16, 4);
    assert_eq!(d.width(), 16);
    assert_eq!(d.height(), 4);
    assert_eq!(d.buffer().len(), FRAME_BUFFER_SIZE);
    assert!(d.buffer().iter().all(|b| *b == 0));
    assert_eq!(d.active_len(), 8);
    assert_eq!(d.refresh_count(), INITIAL_REFRESH_COUNT);
}

#[test]
fn full_panel_active_len() {
    let d = display(176, 296);
    assert_eq!(d.active_len(), FRAME_BUFFER_SIZE);
}

#[test]
fn fill_white_then_every_pixel_is_white() {
    let mut d = display(16, 4);
    assert_eq!(d.fill(true), Ok(()));
    for y in 0..4 {
        for x in 0..16 {
            assert!(d.pixel(x, y));
        }
    }
    assert!(d.buffer().iter().all(|b| *b == 0xFF));
}

#[test]
fn fill_black_then_every_pixel_is_black() {
    let mut d = display(16, 4);
    d.fill(true).unwrap();
    assert_eq!(d.fill(false), Ok(()));
    for y in 0..4 {
        for x in 0..16 {
            assert!(!d.pixel(x, y));
        }
    }
    assert!(d.buffer().iter().all(|b| *b == 0));
}

#[test]
fn set_pixel_reads_back_and_keeps_neighbours() {
    let mut d = display(16, 4);
    d.set_pixel(2, 1, true).unwrap();
    assert_eq!(d.set_pixel(3, 1, true), Ok(()));
    assert!(d.pixel(3, 1));
    assert!(d.pixel(2, 1));
    assert!(!d.pixel(4, 1));
    assert_eq!(d.buffer()[2], 0b0000_1100);
    assert_eq!(d.set_pixel(2, 1, false), Ok(()));
    assert!(!d.pixel(2, 1));
    assert!(d.pixel(3, 1));
    assert_eq!(d.buffer()[2], 0b0000_1000);
}

#[test]
fn set_pixel_out_of_bounds() {
    let mut d = display(16, 4);
    assert_eq!(d.set_pixel(16, 0, true), Err(DisplayError::OutOfBounds));
    assert_eq!(d.set_pixel(0, 4, true), Err(DisplayError::OutOfBounds));
    assert!(d.buffer().iter().all(|b| *b == 0));
}

#[test]
fn set_buffer_round_trip() {
    let mut d = display(176, 296);
    let bytes: Vec<u8> = (0..FRAME_BUFFER_SIZE).map(|i| (i * 7 % 256) as u8).collect();
    assert_eq!(d.set_buffer(&bytes), Ok(()));
    assert_eq!(d.buffer(), &bytes[..]);
}

#[test]
fn set_buffer_size_mismatch() {
    let mut d = display(16, 4);
    let short = vec![0xAAu8; FRAME_BUFFER_SIZE - 1];
    assert_eq!(d.set_buffer(&short), Err(DisplayError::SizeMismatch));
    let long = vec![0xAAu8; FRAME_BUFFER_SIZE + 1];
    assert_eq!(d.set_buffer(&long), Err(DisplayError::SizeMismatch));
    assert!(d.buffer().iter().all(|b| *b == 0));
}

fn blit_white_byte_at(x: u16) -> (u8, u8) {
    let mut d = display(16, 2);
    assert_eq!(d.draw_buffer(&[0xFF], x, 0, 8, 1), Ok(()));
    (d.buffer()[0], d.buffer()[1])
}

#[test]
fn blit_alignment_offset_zero() {
    assert_eq!(blit_white_byte_at(0), (0xFF, 0x00));
}

#[test]
fn blit_alignment_offset_one() {
    assert_eq!(blit_white_byte_at(1), (0x7F, 0x80));
}

#[test]
fn blit_alignment_offset_four() {
    assert_eq!(blit_white_byte_at(4), (0x0F, 0xF0));
}

#[test]
fn blit_alignment_offset_seven() {
    assert_eq!(blit_white_byte_at(7), (0x01, 0xFE));
}

#[test]
fn blit_keeps_uncovered_bits() {
    let mut d = display(16, 2);
    d.fill(true).unwrap();
    assert_eq!(d.draw_buffer(&[0x00], 4, 1, 8, 1), Ok(()));
    assert_eq!(d.buffer()[0], 0xFF);
    assert_eq!(d.buffer()[1], 0xFF);
    assert_eq!(d.buffer()[2], 0xF0);
    assert_eq!(d.buffer()[3], 0x0F);
}

#[test]
fn blit_two_rows_two_bytes() {
    let mut d = display(32, 3);
    let src = [0x12, 0x34, 0x56, 0x78];
    assert_eq!(d.draw_buffer(&src, 8, 1, 16, 2), Ok(()));
    assert_eq!(&d.buffer()[0..12], &[0, 0, 0, 0, 0, 0x12, 0x34, 0, 0, 0x56, 0x78, 0]);
}

#[test]
fn blit_is_idempotent() {
    let src = [0xA5, 0x3C, 0x0F, 0xF0];
    let mut once = display(32, 4);
    once.set_pixel(0, 0, true).unwrap();
    once.set_pixel(31, 3, true).unwrap();
    let mut twice = display(32, 4);
    twice.set_pixel(0, 0, true).unwrap();
    twice.set_pixel(31, 3, true).unwrap();
    once.draw_buffer(&src, 3, 1, 16, 2).unwrap();
    twice.draw_buffer(&src, 3, 1, 16, 2).unwrap();
    twice.draw_buffer(&src, 3, 1, 16, 2).unwrap();
    assert_eq!(once.buffer(), twice.buffer());
}

#[test]
fn blit_unsupported_transparency() {
    let mut d = display(16, 2);
    assert_eq!(
        d.draw_buffer_with_transparency(&[0xFF], 0, 0, 8, 1, TransparencySetting::BlackTransparent),
        Err(DisplayError::UnsupportedTransparency)
    );
    assert_eq!(
        d.draw_buffer_with_transparency(&[0xFF], 0, 0, 8, 1, TransparencySetting::WhiteTransparent),
        Err(DisplayError::UnsupportedTransparency)
    );
    assert!(d.buffer().iter().all(|b| *b == 0));
    assert_eq!(
        d.draw_buffer_with_transparency(&[0xFF], 0, 0, 8, 1, TransparencySetting::Opaque),
        Ok(())
    );
    assert_eq!(d.buffer()[0], 0xFF);
}

#[test]
fn blit_out_of_bounds() {
    let mut d = display(16, 2);
    assert_eq!(d.draw_buffer(&[0xFF], 9, 0, 8, 1), Err(DisplayError::OutOfBounds));
    assert_eq!(d.draw_buffer(&[0xFF, 0xFF], 0, 1, 8, 2), Err(DisplayError::OutOfBounds));
    assert_eq!(d.draw_buffer(&[0xFF], 8, 1, 8, 1), Ok(()));
    assert_eq!(d.buffer()[3], 0xFF);
}

#[test]
fn blit_size_mismatch() {
    let mut d = display(16, 2);
    assert_eq!(d.draw_buffer(&[0xFF, 0xFF], 0, 0, 8, 1), Err(DisplayError::SizeMismatch));
    assert_eq!(d.draw_buffer(&[0xFF], 0, 0, 12, 1), Err(DisplayError::SizeMismatch));
    assert_eq!(d.draw_buffer(&[0xFF, 0xFF], 0, 0, 12, 1), Ok(()));
}

fn run_refresh(d: &mut Ssd1680Display, force_full: bool) -> Vec<ControllerStep> {
    let mut steps = vec![d.begin_refresh(force_full)];
    while let Some(step) = d.finish_refresh_step(true) {
        steps.push(step);
    }
    steps
}

#[test]
fn refresh_cadence() {
    let mut d = display(16, 2);
    assert_eq!(run_refresh(&mut d, false), vec![ControllerStep::HardwareInit, ControllerStep::WriteFrame, ControllerStep::FullRefresh, ControllerStep::DeepSleep]);
    assert_eq!(d.refresh_count(), 0);
    for expected in 1..=5u8 {
        assert_eq!(
            run_refresh(&mut d, false),
            vec![ControllerStep::HardwareInit, ControllerStep::WriteFrame, ControllerStep::PartialRefresh, ControllerStep::DeepSleep]
        );
        assert_eq!(d.refresh_count(), expected);
    }
    assert_eq!(run_refresh(&mut d, false), vec![ControllerStep::HardwareInit, ControllerStep::WriteFrame, ControllerStep::FullRefresh, ControllerStep::DeepSleep]);
    assert_eq!(d.refresh_count(), 0);
}

#[test]
fn forced_refresh_is_full() {
    let mut d = display(16, 2);
    run_refresh(&mut d, false);
    run_refresh(&mut d, false);
    run_refresh(&mut d, false);
    assert_eq!(d.refresh_count(), 2);
    assert_eq!(run_refresh(&mut d, true), vec![ControllerStep::HardwareInit, ControllerStep::WriteFrame, ControllerStep::FullRefresh, ControllerStep::DeepSleep]);
    assert_eq!(d.refresh_count(), 0);
    assert_eq!(run_refresh(&mut d, true), vec![ControllerStep::HardwareInit, ControllerStep::WriteFrame, ControllerStep::FullRefresh, ControllerStep::DeepSleep]);
    assert_eq!(d.refresh_count(), 0);
}

#[test]
fn failed_write_stops_refresh() {
    let mut d = display(16, 2);
    run_refresh(&mut d, false);
    run_refresh(&mut d, false);
    assert_eq!(d.refresh_count(), 1);
    assert_eq!(d.begin_refresh(false), ControllerStep::HardwareInit);
    assert_eq!(d.finish_refresh_step(true), Some(ControllerStep::WriteFrame));
    assert_eq!(d.finish_refresh_step(false), None);
    assert_eq!(d.finish_refresh_step(true), None);
    assert_eq!(d.refresh_count(), 1);
}

#[test]
fn failed_update_keeps_counter() {
    let mut d = display(16, 2);
    d.begin_refresh(false);
    assert_eq!(d.finish_refresh_step(true), Some(ControllerStep::WriteFrame));
    assert_eq!(d.finish_refresh_step(true), Some(ControllerStep::FullRefresh));
    assert_eq!(d.finish_refresh_step(false), None);
    assert_eq!(d.refresh_count(), INITIAL_REFRESH_COUNT);
}
