use nodem_esp32::color::ColorPattern;
use nodem_esp32::frame::{render_led, Framebuffer, FRAME_LEN, MAX_BYTES_PER_LED, MAX_LED_DATA_BYTES, MAX_RESET_BYTES};
use nodem_esp32::iled::IledConfig;
use nodem_esp32::timing::TimingConfig;

#[test]
fn frame_sizes() {
    assert_eq!(MAX_BYTES_PER_LED, 40);
    assert_eq!(MAX_LED_DATA_BYTES, 5120);
    assert_eq!(MAX_RESET_BYTES, 1000);
    assert_eq!(FRAME_LEN, 6120);
}

#[test]
fn led_is_encoded_bit_by_bit() {
    let t = TimingConfig::default();
    let p = ColorPattern::parse("g8").unwrap();
    let mut buf = [0u8; 4];
    render_led(&mut buf, (0, 0b1010_0001, 0, 0, 0), &p, &t);
    assert_eq!(buf, [0b1110_1000, 0b1110_1000, 0b1000_1000, 0b1000_1110]);
}

#[test]
fn narrow_channels_keep_their_high_bits() {
    let t = TimingConfig::parse("10", "00", "1000", "0").unwrap();
    let p = ColorPattern::parse("r4").unwrap();
    let mut buf = [0u8; 1];
    render_led(&mut buf, (0b1011_1111, 0, 0, 0, 0), &p, &t);
    assert_eq!(buf, [0b1000_1010]);
}

#[test]
fn symbols_cross_bytes() {
    let t = TimingConfig::parse("110", "100", "1250", "100").unwrap();
    let p = ColorPattern::parse("r8").unwrap();
    let mut buf = [0u8; 3];
    render_led(&mut buf, (0xff, 0, 0, 0, 0), &p, &t);
    assert_eq!(buf, [0b1101_1011, 0b0110_1101, 0b1011_0110]);
}

#[test]
fn frames_follow_the_chain() {
    let config = IledConfig::parse("2:2:ltxi,10:00:1000:0:r4,#f0,#00").unwrap();
    let mut fb = Framebuffer::blank(config);
    fb.set(0, 1, true);
    let mut frame = [7u8; FRAME_LEN];
    fb.render(&mut frame);
    assert_eq!(&frame[..5], &[0, 0, 0, 0b1010_1010, 0]);
    assert!(frame[5..].iter().all(|b| *b == 0));
    fb.set(0, 1, false);
    fb.set(1, 1, true);
    fb.render(&mut frame);
    assert_eq!(&frame[..4], &[0, 0, 0b1010_1010, 0]);
}

#[test]
fn blank_frames_are_dark() {
    let config = IledConfig::parse("3:1,10:00:1000:0:r4,#f0,#80").unwrap();
    let fb = Framebuffer::blank(config);
    let mut frame = [0u8; FRAME_LEN];
    fb.render(&mut frame);
    assert_eq!(&frame[..4], &[0b1000_0000, 0b1000_0000, 0b1000_0000, 0]);
}

#[test]
fn largest_frame_fits() {
    let config =
        IledConfig::parse("128:1,11111111:10000000:1000:1000000:r8g8b8w8c8,#ffffffffff,").unwrap();
    let mut fb = Framebuffer::blank(config);
    for x in 0..128 {
        fb.set(x, 0, true);
    }
    let mut frame = [0u8; FRAME_LEN];
    fb.render(&mut frame);
    assert!(frame[..5120].iter().all(|b| *b == 255));
    assert!(frame[5120..].iter().all(|b| *b == 0));
}
