use nodem_esp32::driver::{DeviceMapping, DriverKind, DriverView};
use nodem_esp32::frame::Framebuffer;
use nodem_esp32::global::{shown, Global, DISPLAY_BUFFER_ILED, DISPLAY_BUFFER_OLED};
use nodem_esp32::iled::{read_iled_config, IledConfig};
use nodem_esp32::iled_task::{sample_from_dom, sample_from_view, IledAction, IledTask, CHECK_INTERVAL_MS};
use nodem_esp32::nodem::{read_nodem_config, NodemConfig};

fn shared(config: &str) -> Global {
    Global::new(NodemConfig::parse(config).unwrap(), "1.2.3")
}

fn draw(g: &mut Global, x: usize, y: usize) {
    let i = y * g.nodem_config.width as usize + x;
    g.display_buffer[i / 8] |= 0x80 >> (i % 8);
}

#[test]
fn driver_names() {
    assert!(DriverKind::parse("iled") == Some(DriverKind::Iled));
    assert!(DriverKind::parse("oled") == Some(DriverKind::Oled));
    assert!(DriverKind::parse("Oled").is_none());
    assert_eq!(DriverKind::Iled.name(), "iled");
    assert_eq!(DriverKind::Oled.name(), "oled");
}

#[test]
fn mappings_read_and_write() {
    let m = DeviceMapping::parse(" oled : -5 : 0 : 2 : 255 ").unwrap();
    assert!(m == DeviceMapping { driver: DriverKind::Oled, x: -5, y: 0, scale_x: 2, scale_y: 255 });
    assert_eq!(m.to_nvs_string(), "oled:-5:0:2:255");
    assert!(DeviceMapping::parse(&m.to_nvs_string()) == Some(m));
    assert_eq!(DeviceMapping::parse("iled:-32768:32767:1:1").unwrap().to_nvs_string(), "iled:-32768:32767:1:1");
    for s in [
        "",
        "oled:0:0:2",
        "oled:0:0:2:2:2",
        "lcd:0:0:1:1",
        "oled:0:0:0:1",
        "oled:0:0:1:0",
        "oled:32768:0:1:1",
        "oled:0:-32769:1:1",
        "oled:0:0:256:1",
        "oled:x:0:1:1",
    ] {
        assert!(DeviceMapping::parse(s).is_none(), "{s}");
    }
}

#[test]
fn framebuffer_configs_read_and_write() {
    let d = NodemConfig::default();
    assert_eq!(d.to_nvs_string(), "128:64:1");
    assert_eq!(d.buffer_len(), 1024);
    let c = NodemConfig::parse("96 : 31 : 1,oled:0:0:1:1,iled:-1:2:3:4").unwrap();
    assert_eq!(c.to_nvs_string(), "96:31:1,oled:0:0:1:1,iled:-1:2:3:4");
    assert_eq!(c.buffer_len(), 372);
    assert!(NodemConfig::parse(&c.to_nvs_string()) == Some(c));
    assert!(c != d);
    assert_eq!(c.mapping(DriverKind::Iled).unwrap().x, -1);
    assert!(d.mapping(DriverKind::Iled).is_none());
    assert_eq!(NodemConfig::parse("3:3:1").unwrap().buffer_len(), 2);
    assert!(NodemConfig::parse("1024:1024:1").is_some());
}

#[test]
fn first_mapping_counts() {
    let c = NodemConfig::parse("8:8:1,oled:1:0:1:1,oled:2:0:1:1").unwrap();
    assert_eq!(c.mapping(DriverKind::Oled).unwrap().x, 1);
}

#[test]
fn framebuffer_configs_refused() {
    for s in [
        "",
        "128:64",
        "128:64:1:1",
        "0:64:1",
        "128:0:1",
        "1025:64:1",
        "128:1025:1",
        "128:64:2",
        "128:64:0",
        "128:64:1,",
        "128:64:1,lcd:0:0:1:1",
        "8:8:1,iled:0:0:1:1,iled:0:0:1:1,iled:0:0:1:1,iled:0:0:1:1,iled:0:0:1:1",
    ] {
        assert!(NodemConfig::parse(s).is_none(), "{s}");
    }
    assert!(NodemConfig::parse("8:8:1,iled:0:0:1:1,iled:0:0:1:1,iled:0:0:1:1,iled:0:0:1:1").is_some());
}

#[test]
fn longest_config_text_fits() {
    let d = "oled:-32768:-32768:255:255";
    let s = format!("1024:1024:1,{d},{d},{d},{d}");
    let c = NodemConfig::parse(&s).unwrap();
    assert_eq!(c.to_nvs_string(), s);
    assert!(s.len() <= nodem_esp32::nodem::NVS_VALUE_MAX_LEN);
}

#[test]
fn stored_framebuffer_config_at_startup() {
    let r = read_nodem_config(None);
    assert!(r.config == NodemConfig::default());
    assert_eq!(r.store.as_deref(), Some("128:64:1"));
    let r = read_nodem_config(Some("nonsense"));
    assert_eq!(r.store.as_deref(), Some("128:64:1"));
    let r = read_nodem_config(Some("64:32:1"));
    assert_eq!(r.config.width, 64);
    assert!(r.store.is_none());
}

#[test]
fn new_state() {
    let g = shared("16:8:1");
    assert_eq!(g.display_buffer, vec![0u8; 16]);
    assert_eq!(g.display_buffer_dirty, [false, false]);
    assert_eq!(g.command_buf_pos, 0);
    assert!(g.iled_config == Some(IledConfig::default()));
    assert!(g.oled_config.is_none());
    assert!(!g.wifi_reconnect && !g.reregister && !g.pkg_reload);
}

#[test]
fn pixels_are_packed_most_significant_first() {
    let mut g = shared("10:2:1");
    g.display_buffer[1] = 0b0110_0000;
    assert!(g.display_pixel(9, 0));
    assert!(g.display_pixel(0, 1));
    assert!(!g.display_pixel(8, 0));
    assert!(!g.display_pixel(1, 1));
    assert!(!g.display_pixel(10, 0));
    assert!(!g.display_pixel(-1, 1));
    assert!(!g.display_pixel(0, -1));
    assert!(!g.display_pixel(0, 2));
}

#[test]
fn resizing() {
    let mut g = shared("8:8:1");
    draw(&mut g, 3, 3);
    assert!(!g.resize_display(NodemConfig::parse("8:8:1,oled:0:0:1:1").unwrap()));
    assert!(g.display_pixel(3, 3));
    assert_eq!(g.display_buffer_dirty, [false, false]);
    assert!(g.nodem_config.mapping(DriverKind::Oled).is_some());
    assert!(g.resize_display(NodemConfig::parse("16:8:1").unwrap()));
    assert_eq!(g.display_buffer, vec![0u8; 16]);
    assert!(g.display_buffer_dirty[DISPLAY_BUFFER_OLED]);
    assert!(g.display_buffer_dirty[DISPLAY_BUFFER_ILED]);
}

#[test]
fn small_framebuffers_are_centered() {
    let mut g = shared("96:32:1,oled:0:0:1:1");
    draw(&mut g, 0, 0);
    let v = DriverView::at(&g, DriverKind::Oled, 128, 64, 0);
    assert!(v.pixel(16, 16));
    assert!(!v.pixel(15, 16));
    assert!(!v.pixel(16, 15));
    let v = DriverView::at(&g, DriverKind::Oled, 64, 32, 0);
    assert!(v.pixel(0, 0));
    assert!(!v.pixel(64, 0));
}

#[test]
fn scaled_and_shifted_framebuffers() {
    let mut g = shared("4:4:1,oled:1:-1:2:3");
    draw(&mut g, 1, 0);
    let v = DriverView::at(&g, DriverKind::Oled, 8, 12, 0);
    for x in 0..8 {
        for y in 0..12 {
            assert_eq!(v.pixel(x, y), x < 2 && (3..6).contains(&y), "{x} {y}");
        }
    }
}

#[test]
fn shifts_reach_into_the_margin() {
    let mut g = shared("2:2:1,iled:-1:0:1:1");
    draw(&mut g, 0, 0);
    let v = DriverView::at(&g, DriverKind::Iled, 6, 2, 0);
    assert!(v.pixel(3, 0));
    assert!(!v.pixel(2, 0));
    let mut h = shared("2:2:1,iled:1:0:1:1");
    draw(&mut h, 0, 0);
    let v = DriverView::at(&h, DriverKind::Iled, 6, 2, 0);
    assert!(v.pixel(1, 0));
}

#[test]
fn unmapped_outputs_show_dots() {
    let g = shared("8:8:1");
    let even = DriverView::at(&g, DriverKind::Oled, 4, 3, 10);
    let odd = DriverView::at(&g, DriverKind::Oled, 4, 3, 11);
    let mut text = String::new();
    for y in 0..3 {
        for x in 0..4 {
            text.push(if even.pixel(x, y) { '*' } else { '.' });
            if x == 0 || y == 0 || x == 3 || y == 2 {
                assert!(even.pixel(x, y) != odd.pixel(x, y));
            } else {
                assert!(!even.pixel(x, y) && !odd.pixel(x, y));
            }
        }
    }
    assert_eq!(text, "*.*....**.*.");
    let edge = [(0, 0), (1, 0), (2, 0), (3, 0), (3, 1), (3, 2), (2, 2), (1, 2), (0, 2), (0, 1), (0, 0)];
    for pair in edge.windows(2) {
        assert!(even.pixel(pair[0].0, pair[0].1) != even.pixel(pair[1].0, pair[1].1));
    }
    assert!(!even.pixel(4, 0) && !even.pixel(0, 3));
}

#[test]
fn the_clock_gives_a_phase() {
    let g = shared("8:8:1");
    let v = DriverView::new(&g, DriverKind::Iled, 2, 2);
    assert!(v.phase < 2);
    assert!(v.mapping.is_none());
    assert!(v.pixel(0, 0) != v.pixel(1, 0));
}

#[test]
fn sampling_crops_the_framebuffer() {
    let mut g = shared("3:3:1,iled:0:0:1:1");
    draw(&mut g, 1, 2);
    draw(&mut g, 2, 0);
    let config = IledConfig::parse("2:4,,,").unwrap();
    let mut fb = Framebuffer::blank(config);
    sample_from_dom(&mut fb, &config, &g);
    for i in 0..8 {
        assert_eq!(fb.pixels[i], i == 5);
    }
    let config = IledConfig::parse("3:3,,,").unwrap();
    let mut a = Framebuffer::blank(config);
    let mut b = Framebuffer::blank(config);
    sample_from_dom(&mut a, &config, &g);
    let view = DriverView::at(&g, DriverKind::Iled, 3, 3, 0);
    sample_from_view(&mut b, &config, &view);
    assert_eq!(a.pixels, b.pixels);
    assert!(a.pixels[7] && a.pixels[2]);
    let config = IledConfig::parse("8:8,,,").unwrap();
    let mut fb = Framebuffer::blank(config);
    sample_from_dom(&mut fb, &config, &g);
    for i in 0..64 {
        assert_eq!(fb.pixels[i], i == 17 || i == 2);
    }
}

#[test]
fn shown_clears_one_flag() {
    let mut g = shared("8:8:1");
    g.display_buffer_dirty = [true, true];
    shown(&mut g, DISPLAY_BUFFER_OLED);
    assert!(!g.display_buffer_dirty[DISPLAY_BUFFER_OLED] && g.display_buffer_dirty[DISPLAY_BUFFER_ILED]);
    shown(&mut g, DISPLAY_BUFFER_ILED);
    assert_eq!(g.display_buffer_dirty, [false, false]);
}

#[test]
fn chain_goes_dark_once() {
    assert_eq!(CHECK_INTERVAL_MS, 100);
    let mut g = shared("2:2:1,iled:0:0:1:1");
    draw(&mut g, 1, 0);
    let startup = read_iled_config(Some("2:2,,#ff,#01"));
    let mut t = IledTask::start(&startup, &mut g);
    assert!(g.iled_config == Some(startup.config) && t.enabled);
    g.display_buffer_dirty = [true, true];
    let action = t.check(&g);
    assert!(action == IledAction::Redraw { rebuild: false });
    let view = DriverView::at(&g, DriverKind::Iled, 2, 2, 0);
    assert_eq!(t.picture(&view).pixels[..4], [false, true, false, false]);
    t.done(&mut g, action);
    assert!(!g.display_buffer_dirty[DISPLAY_BUFFER_ILED] && g.display_buffer_dirty[DISPLAY_BUFFER_OLED]);
    assert!(t.check(&g) == IledAction::Idle);
    g.iled_config = None;
    let mut sent = 0;
    for i in 0..5 {
        g.display_buffer_dirty = [true, true];
        let action = t.check(&g);
        assert!(action == if i == 0 { IledAction::GoDark } else { IledAction::Off });
        if action == IledAction::GoDark {
            let view = DriverView::at(&g, DriverKind::Iled, 2, 2, 0);
            assert!(t.picture(&view).pixels.iter().all(|on| !on));
            sent += 1;
        }
        t.done(&mut g, action);
        assert!(!g.display_buffer_dirty[DISPLAY_BUFFER_ILED] && g.display_buffer_dirty[DISPLAY_BUFFER_OLED]);
    }
    assert_eq!(sent, 1);
    assert!(t.config == startup.config);
    g.display_buffer_dirty = [true, true];
    t.done(&mut g, IledAction::Idle);
    assert!(g.display_buffer_dirty[DISPLAY_BUFFER_ILED]);
}

#[test]
fn chain_task_steps() {
    let config = IledConfig::parse("2:2,,,").unwrap();
    let mut t = IledTask::new(config);
    assert!(t.step(Some(config), false) == IledAction::Idle);
    assert!(t.step(Some(config), true) == IledAction::Redraw { rebuild: false });
    assert!(t.step(None, true) == IledAction::GoDark);
    assert!(t.step(None, true) == IledAction::Off);
    assert!(t.config == config && !t.enabled);
    assert!(t.step(Some(config), false) == IledAction::Redraw { rebuild: false });
    let faster = IledConfig::parse("2:2,ws2816,,").unwrap();
    assert!(t.step(Some(faster), false) == IledAction::Redraw { rebuild: true });
    assert!(t.step(None, false) == IledAction::GoDark);
    assert!(t.step(Some(config), false) == IledAction::Redraw { rebuild: true });
}
