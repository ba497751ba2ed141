use nodem_esp32::clock::TICKS_PER_SEC;
use nodem_esp32::global::{
    CloudConnectionStatus, CloudStatus, Global, Ipv4Addr, OledStatus, RegistrationStatus, SysStatus,
    WifiConnectionStatus, WifiStatus,
};
use nodem_esp32::heartbeat::{log_cloud, log_wifi, ROLLBACK_PHASE};
use nodem_esp32::nodem::NodemConfig;
use nodem_esp32::nodem_task::{
    check_pkg_header, mark_drawn, pkg_step, restore_command, PkgHeader, PkgStep, ReportTimer, HIDE_REPORT_AFTER,
};
use nodem_esp32::wifi::{
    counter_key, increment_counter, read_wifi_config, wifi_step, Lease, Link, WifiAction, WifiEvent,
};

fn ip(a: u8, b: u8, c: u8, d: u8) -> Ipv4Addr {
    Ipv4Addr { a, b, c, d }
}

fn lease() -> Lease {
    Lease { ip: ip(10, 0, 0, 7), subnet_mask: ip(255, 255, 255, 0), gateway: ip(10, 0, 0, 1) }
}

fn shared() -> Global {
    Global::new(NodemConfig::default(), "1.2.3")
}

#[test]
fn status_lines() {
    let mut w = WifiStatus::new();
    assert_eq!(w.to_string(), "Wifi: waiting for config");
    w.status = WifiConnectionStatus::Connecting;
    assert_eq!(w.to_string(), "Wifi: connecting...");
    w.status = WifiConnectionStatus::Connected;
    assert_eq!(w.to_string(), "Wifi: ");
    w.ip = Some(ip(192, 168, 1, 20));
    assert_eq!(w.to_string(), "Wifi: 192.168.1.20");
    w.status = WifiConnectionStatus::Failed(String::from("no ap"));
    assert_eq!(w.clone().to_string(), "Wifi: failed (no ap)");

    let mut c = CloudStatus::new();
    assert_eq!(c.to_string(), "Reg: waiting for code");
    c.registration = RegistrationStatus::Registering;
    assert_eq!(c.to_string(), "Reg: registering...");
    c.registration = RegistrationStatus::Failed(String::from("x"));
    assert_eq!(c.to_string(), "Reg: failed (x)");
    c.registration = RegistrationStatus::Registered;
    assert_eq!(c.to_string(), "WS: disconnected");
    c.connection = CloudConnectionStatus::Connecting;
    assert_eq!(c.to_string(), "WS: connecting...");
    c.connection = CloudConnectionStatus::Connected;
    c.device_name = Some(String::from("desk"));
    assert_eq!(c.clone().to_string(), "WS: connected (desk)");

    let mut s = SysStatus::new("0.9");
    assert_eq!(s.to_string(), "Sys: 0.9 (?)");
    s.running_slot("ota_1", true);
    assert_eq!(s.to_string(), "Sys: 0.9 (1r)");
    s.running_slot("ota_0", false);
    assert_eq!(s.to_string(), "Sys: 0.9 (0)");
    s.running_slot("factory", false);
    assert_eq!(s.to_string(), "Sys: 0.9 (?)");

    assert_eq!(OledStatus::new().to_string(), "OLED: initializing...");
}

#[test]
fn rollback_phase_ends_once() {
    let mut s = SysStatus::new("1");
    assert!(!s.rollback_over(ROLLBACK_PHASE));
    s.running_slot("ota_0", true);
    assert!(!s.rollback_over(ROLLBACK_PHASE - 1));
    assert!(s.rollback_over(ROLLBACK_PHASE));
    s.marked_valid(false);
    assert!(s.rollback_over(ROLLBACK_PHASE));
    s.marked_valid(true);
    assert!(!s.rollback_over(ROLLBACK_PHASE));
    assert_eq!(ROLLBACK_PHASE, 60_000_000);
}

#[test]
fn heartbeat_lines() {
    let mut g = shared();
    assert_eq!(log_wifi(&g.wifi_status), "Wifi: waiting for config | ssid=- ip=- mask=- gateway=- rssi=-");
    wifi_step(&mut g, WifiEvent::Stored(Some((String::from("home"), String::from("password")))));
    wifi_step(&mut g, WifiEvent::Joined(lease()));
    wifi_step(&mut g, WifiEvent::Looked(Link::Up(Some(-61))));
    assert_eq!(
        log_wifi(&g.wifi_status),
        "Wifi: 10.0.0.7 | ssid=home ip=10.0.0.7 mask=255.255.255.0 gateway=10.0.0.1 rssi=-61dBm"
    );
    g.cloud_status.host = Some(String::from("h"));
    g.oled_status.errors = 12;
    g.oled_status.reinits = 3;
    assert_eq!(
        log_cloud(&g.cloud_status, &g.oled_status),
        "Reg: waiting for code | host=h device=- | OLED: initializing... errors=12 reinits=3"
    );
}

#[test]
fn wifi_settings() {
    assert!(read_wifi_config(Some("a"), None).is_none());
    assert!(read_wifi_config(None, Some("b")).is_none());
    assert_eq!(read_wifi_config(Some("a"), Some("b")), Some((String::from("a"), String::from("b"))));
    assert_eq!(counter_key(true), "conn_ok");
    assert_eq!(counter_key(false), "conn_fail");
    assert_eq!(increment_counter(None), 1);
    assert_eq!(increment_counter(Some(41)), 42);
    assert_eq!(increment_counter(Some(u32::MAX)), u32::MAX);
}

#[test]
fn wifi_task_steps() {
    let mut g = shared();
    let s = wifi_step(&mut g, WifiEvent::Stored(None));
    assert!(matches!(s.next, WifiAction::ReadConfig(2)));
    assert!(matches!(g.wifi_status.status, WifiConnectionStatus::WaitingForConfiguration));
    let s = wifi_step(&mut g, WifiEvent::Stored(Some((String::from("n"), String::from("p")))));
    assert!(matches!(s.next, WifiAction::Join { ssid, pass } if ssid == "n" && pass == "p"));
    let s = wifi_step(&mut g, WifiEvent::NotJoined(String::from("auth")));
    assert!(matches!(s.next, WifiAction::ReadConfig(5)));
    assert_eq!(s.count, Some("conn_fail"));
    assert_eq!(g.wifi_status.to_string(), "Wifi: failed (auth)");
    let s = wifi_step(&mut g, WifiEvent::Joined(lease()));
    assert!(matches!(s.next, WifiAction::Look(1)));
    assert_eq!(s.count, Some("conn_ok"));
    let s = wifi_step(&mut g, WifiEvent::Looked(Link::Unknown));
    assert!(matches!(s.next, WifiAction::Look(1)) && !s.reset && s.count.is_none());
    assert!(g.wifi_status.rssi.is_none());
    wifi_step(&mut g, WifiEvent::Looked(Link::Up(Some(-40))));
    assert_eq!(g.wifi_status.rssi, Some(-40));
    wifi_step(&mut g, WifiEvent::Looked(Link::Up(None)));
    assert_eq!(g.wifi_status.rssi, Some(-40));
    let s = wifi_step(&mut g, WifiEvent::Looked(Link::Down));
    assert!(matches!(s.next, WifiAction::ReadConfig(0)) && !s.reset);
    assert!(matches!(g.wifi_status.status, WifiConnectionStatus::Connecting));
    assert!(g.wifi_status.ip.is_none() && g.wifi_status.rssi.is_none());
    assert_eq!(g.wifi_status.ssid.as_deref(), Some("n"));
}

#[test]
fn wifi_reconnect_is_taken_once() {
    let mut g = shared();
    wifi_step(&mut g, WifiEvent::Joined(lease()));
    g.wifi_reconnect = true;
    let s = wifi_step(&mut g, WifiEvent::Looked(Link::Up(Some(-50))));
    assert!(s.reset && matches!(s.next, WifiAction::ReadConfig(0)));
    assert!(!g.wifi_reconnect);
    assert!(g.wifi_status.rssi.is_none());
}

#[test]
fn report_hides_after_a_while() {
    let mut t = ReportTimer::new();
    let mut g = shared();
    assert!(t.frame(&mut g, 0).message.is_some());
    g.wifi_status.status = WifiConnectionStatus::Connected;
    g.cloud_status.registration = RegistrationStatus::Registered;
    g.cloud_status.connection = CloudConnectionStatus::Connected;
    assert!(t.frame(&mut g, 100).message.is_some());
    assert_eq!(t.connected_since, Some(100));
    assert!(t.frame(&mut g, 99 + HIDE_REPORT_AFTER).message.is_some());
    assert!(t.frame(&mut g, 100 + HIDE_REPORT_AFTER).message.is_none());
    g.sys_status.rollback_pending = true;
    let m = t.frame(&mut g, 200 + HIDE_REPORT_AFTER).message.unwrap();
    assert_eq!(m, "Sys: 1.2.3 (?r){br}Wifi: {br}WS: connected");
    g.sys_status.rollback_pending = false;
    g.cloud_status.connection = CloudConnectionStatus::Disconnected;
    assert!(t.frame(&mut g, 300 + HIDE_REPORT_AFTER).message.is_some());
    assert!(t.connected_since.is_none());
    assert_eq!(HIDE_REPORT_AFTER, 5 * TICKS_PER_SEC);
}

#[test]
fn reload_is_taken_once() {
    let mut t = ReportTimer::new();
    let mut g = shared();
    g.pkg_reload = true;
    assert!(t.frame(&mut g, 0).reload);
    assert!(!t.frame(&mut g, 1).reload);
    mark_drawn(&mut g);
    assert_eq!(g.display_buffer_dirty, [true, true]);
}

#[test]
fn pkg_headers() {
    let h = [0x50, 0x4b, 0x47, 0x30, 1, 2, 0, 0];
    assert!(check_pkg_header(&h, false, 513) == PkgHeader::Found(513));
    assert!(check_pkg_header(&h, false, 512) == PkgHeader::TooLong(513));
    assert!(check_pkg_header(&h, true, usize::MAX) == PkgHeader::Found(0x0102_0000));
    assert!(check_pkg_header(&[255; 8], false, 10) == PkgHeader::Missing);
    assert!(pkg_step(check_pkg_header(&h, false, 513)) == PkgStep::Load(513));
    assert!(pkg_step(check_pkg_header(&h, false, 512)) == PkgStep::Keep);
    assert!(pkg_step(check_pkg_header(&[255; 8], false, 10)) == PkgStep::Unload);
    let mut other = h;
    other[3] = 0x31;
    assert!(check_pkg_header(&other, false, 513) == PkgHeader::Missing);
}

#[test]
fn last_page_is_restored() {
    assert_eq!(restore_command(Some("7"), true).as_deref(), Some("page=7\n"));
    assert!(restore_command(Some("7"), false).is_none());
    assert!(restore_command(None, true).is_none());
}
