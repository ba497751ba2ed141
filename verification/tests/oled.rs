use nodem_esp32::driver::{DriverKind, DriverView};
use nodem_esp32::global::{Global, OledConnectionStatus, OledStatus};
use nodem_esp32::nodem::NodemConfig;
use nodem_esp32::oled::{read_oled_config, OledConfig, Rotation, NVS_VALUE_MAX_LEN};
use nodem_esp32::oled_task::{page, reinitialized, Flush, FlushStep, OledAction, OledTask};

#[test]
fn display_configs_read_and_write() {
    assert_eq!(OledConfig::default().to_nvs_string(), "ssd1306:128:64:0:0:0");
    let c = OledConfig::parse("ssd1306: 72 : 40 : 28 : 24 : 270").unwrap().unwrap();
    assert!(c == OledConfig { width: 72, height: 40, x: 28, y: 24, rotation: Rotation::Rotate270 });
    assert_eq!(c.rotation.degrees(), 270);
    assert!(OledConfig::parse(&c.to_nvs_string()) == Ok(Some(c)));
    assert!(OledConfig::parse("ssd1306:128:64:0:0") == Ok(Some(OledConfig::default())));
    assert!(c.to_nvs_string().len() <= NVS_VALUE_MAX_LEN);
}

#[test]
fn other_protocols_switch_off() {
    assert!(OledConfig::parse("") == Ok(None));
    assert!(OledConfig::parse("none") == Ok(None));
    assert!(OledConfig::parse("sh1106:128:64:0:0") == Ok(None));
}

#[test]
fn malformed_panels_are_refused() {
    for s in [
        "ssd1306",
        "ssd1306:128:64:0",
        "ssd1306:128:64:0:0:0:0",
        "ssd1306:0:64:0:0",
        "ssd1306:128:0:0:0",
        "ssd1306:129:64:0:0",
        "ssd1306:128:64:1:0",
        "ssd1306:128:64:0:1",
        "ssd1306:128:64:0:0:45",
        "ssd1306:a:64:0:0",
        "ssd1306:65536:64:0:0",
    ] {
        assert!(OledConfig::parse(s) == Err(()), "{s}");
    }
}

#[test]
fn stored_display_at_startup() {
    let r = read_oled_config(None);
    assert!(r.config == Some(OledConfig::default()));
    assert_eq!(r.store.as_deref(), Some("ssd1306:128:64:0:0:0"));
    let r = read_oled_config(Some("ssd1306:1"));
    assert!(r.config == Some(OledConfig::default()));
    assert!(r.store.is_some());
    let r = read_oled_config(Some(""));
    assert!(r.config.is_none() && r.store.is_none());
    let r = read_oled_config(Some("ssd1306:64:32:0:0"));
    assert_eq!(r.config.unwrap().width, 64);
    assert!(r.store.is_none());
}

#[test]
fn pages_hold_eight_rows() {
    let mut g = Global::new(NodemConfig::parse("8:16:1,oled:0:0:1:1").unwrap(), "1");
    g.display_buffer[0] = 0b1000_0000;
    g.display_buffer[7] = 0b1000_0000;
    g.display_buffer[9] = 0b0000_0001;
    let view = DriverView::at(&g, DriverKind::Oled, 8, 16, 0);
    assert_eq!(page(&view, 0), vec![0b1000_0001, 0, 0, 0, 0, 0, 0, 0]);
    assert_eq!(page(&view, 1), vec![0, 0, 0, 0, 0, 0, 0, 0b0000_0010]);
    assert_eq!(page(&view, 2), vec![0; 8]);
}

#[test]
fn polling() {
    let mut t = OledTask::new();
    let mut s = OledStatus::new();
    let c = OledConfig::default();
    assert!(t.poll(Some(c), true, &mut s) == OledAction::Init(c));
    assert!(t.poll(Some(c), true, &mut s) == OledAction::Idle);
    t.initialized(Ok(()), &mut s);
    assert!(matches!(s.status, OledConnectionStatus::Connected));
    assert!(t.poll(Some(c), true, &mut s) == OledAction::Flush(c));
    assert!(t.poll(Some(c), false, &mut s) == OledAction::Idle);
    assert!(t.poll(None, true, &mut s) == OledAction::SwitchOff);
    assert!(matches!(s.status, OledConnectionStatus::Disabled));
    assert!(t.poll(None, true, &mut s) == OledAction::Idle);
    assert!(t.poll(Some(c), true, &mut s) == OledAction::Init(c));
    t.initialized(Err(String::from("no ack")), &mut s);
    assert_eq!(s.to_string(), "OLED: failed (init: no ack)");
    assert!(t.poll(Some(c), true, &mut s) == OledAction::Idle);
    let other = OledConfig { width: 64, ..c };
    assert!(t.poll(Some(other), true, &mut s) == OledAction::Init(other));
}

#[test]
fn starting() {
    let mut g = Global::new(NodemConfig::default(), "1");
    let startup = read_oled_config(None);
    let t = OledTask::start(&startup, &mut g);
    assert!(t.config.is_none() && !t.ready);
    assert!(g.oled_config == startup.config && g.oled_config == Some(OledConfig::default()));
}

#[test]
fn switched_off_from_the_start() {
    let mut t = OledTask::new();
    let mut s = OledStatus::new();
    assert!(t.poll(None, true, &mut s) == OledAction::SwitchOff);
    assert_eq!(s.to_string(), "OLED: disabled");
}

#[test]
fn flushing_counts() {
    let mut s = OledStatus::new();
    let mut f = Flush::new();
    assert!(f.attempted(false, &mut s) == FlushStep::Retry);
    assert!(f.attempted(true, &mut s) == FlushStep::Done);
    assert_eq!((s.errors, s.reinits), (1, 0));
    assert_eq!(s.to_string(), "OLED: connected");
    let mut f = Flush::new();
    assert!(f.attempted(false, &mut s) == FlushStep::Retry);
    assert!(f.attempted(false, &mut s) == FlushStep::Retry);
    assert!(f.attempted(false, &mut s) == FlushStep::Reinit);
    assert_eq!((s.errors, s.reinits), (4, 1));
    reinitialized("bus", Err(String::from("nack")), &mut s);
    assert_eq!(s.to_string(), "OLED: failed (bus, reinit: nack)");
    reinitialized("bus", Ok(()), &mut s);
    assert_eq!(s.to_string(), "OLED: connected");
}
