use nodem_esp32::command_listener::{
    config_keys, config_text, entries_text, page_write, CommandListener, Entry, EntryValue, Run,
};
use nodem_esp32::commands::{process_line, LineAction, Plan, Ret};
use nodem_esp32::driver::DriverKind;
use nodem_esp32::global::{
    CloudConnectionStatus, Global, Ipv4Addr, OledConnectionStatus, RegistrationStatus, WifiConnectionStatus,
};
use nodem_esp32::iled::IledConfig;
use nodem_esp32::loader::{LoaderResult, UploadMode};
use nodem_esp32::nodem::NodemConfig;
use nodem_esp32::nvs::NvsOp;
use nodem_esp32::oled::OledConfig;

fn plan(line: &str) -> Plan {
    match process_line(line) {
        LineAction::Write(p) => p,
        other => panic!("{other:?}"),
    }
}

fn show(op: &NvsOp) -> String {
    match op {
        NvsOp::Store { namespace, key, value } => format!("{namespace}/{key}={value}"),
        NvsOp::Remove { namespace, key } => format!("{namespace}/{key}-"),
    }
}

fn run(l: &mut CommandListener, line: &str, fail: Option<usize>) -> (Vec<String>, Ret) {
    let mut r = Run::new(plan(line));
    let mut done = Vec::new();
    while let Some(op) = r.op() {
        let text = show(op);
        let ok = fail != Some(done.len());
        done.push(text);
        r.written(ok);
    }
    let ret = l.finish(r);
    (done, ret)
}

#[test]
fn results_have_numbers() {
    assert_eq!(Ret::Done.code(), 0);
    assert_eq!(Ret::Error.code(), 1);
    assert_eq!(Ret::MalformedValue.code(), 2);
}

#[test]
fn lines_that_are_no_commands() {
    assert!(matches!(process_line("hello"), LineAction::Pass));
    assert!(matches!(process_line(""), LineAction::Pass));
    assert!(matches!(process_line("page=256"), LineAction::Pass));
    assert!(matches!(process_line("page=x"), LineAction::Pass));
    assert!(matches!(process_line("pages=1"), LineAction::Pass));
    assert!(matches!(process_line(" page = 12 "), LineAction::RememberPage(p) if p == "12"));
    assert!(matches!(process_line("page=7"), LineAction::RememberPage(p) if p == "7"));
    assert!(process_line("hello").ret() == Ret::Done);
}

#[test]
fn unknown_commands() {
    for line in ["#", "#nope", "#Reset", "#wifi2,a,b", "# ,"] {
        let a = process_line(line);
        assert!(matches!(a, LineAction::Unknown), "{line}");
        assert!(a.ret() == Ret::Error);
    }
}

#[test]
fn shows() {
    assert!(matches!(process_line("#cfg"), LineAction::ShowConfig));
    assert!(matches!(process_line("#stat,x"), LineAction::ShowStatus));
    assert!(matches!(process_line("# nvs "), LineAction::ShowEntries));
}

#[test]
fn reset() {
    let mut l = CommandListener::new();
    assert_eq!(run(&mut l, "#reset", None), (vec![], Ret::Done));
    assert!(l.take_restart());
    assert!(!l.take_restart());
}

#[test]
fn wifi() {
    let mut l = CommandListener::new();
    let (ops, ret) = run(&mut l, "#wifi, home , password1 ", None);
    assert_eq!(ops, ["wifi/ssid=home", "wifi/pass=password1"]);
    assert!(ret == Ret::Done && l.take_wifi_reconnect());
    let (ops, ret) = run(&mut l, "#wifi,,password1", None);
    assert!(ops.is_empty() && ret == Ret::MalformedValue && !l.take_wifi_reconnect());
    let (ops, ret) = run(&mut l, "#wifi,home,short", None);
    assert_eq!(ops, ["wifi/ssid=home"]);
    assert!(ret == Ret::MalformedValue && !l.take_wifi_reconnect());
    let (ops, ret) = run(&mut l, "#wifi,home,password1", Some(0));
    assert_eq!(ops.len(), 1);
    assert!(ret == Ret::Error && !l.take_wifi_reconnect());
    let long = format!("#wifi,{},password1", "s".repeat(33));
    assert!(plan(&long).malformed);
    let pass = format!("#wifi,{},{}", "s".repeat(32), "p".repeat(63));
    assert!(!plan(&pass).malformed);
    let pass = format!("#wifi,{},{}", "s".repeat(32), "p".repeat(64));
    assert!(plan(&pass).malformed);
}

#[test]
fn registration_is_atomic() {
    let mut l = CommandListener::new();
    let (ops, ret) = run(&mut l, "#reg,abc123,desk", None);
    assert_eq!(ops, ["device/reg_code=abc123", "device/device_name=desk"]);
    assert!(ret == Ret::Done && l.take_reregister());
    assert_eq!(l.take_device_name(), Some(Some(String::from("desk"))));
    for line in ["#reg,abc12,desk", "#reg,abc1234,desk", "#reg,abc123,de", "#reg,abc123", "#reg"] {
        let (ops, ret) = run(&mut l, line, None);
        assert!(ops.is_empty() && ret == Ret::MalformedValue, "{line}");
        assert!(!l.take_reregister() && l.take_device_name().is_none());
    }
    let (ops, ret) = run(&mut l, "#reg,abc123,desk", Some(1));
    assert_eq!(ops.len(), 2);
    assert!(ret == Ret::Error && !l.take_reregister());
}

#[test]
fn names_are_counted_in_bytes() {
    let mut l = CommandListener::new();
    let (ops, ret) = run(&mut l, "#name,\u{e9}a", None);
    assert_eq!(ops, ["device/device_name=\u{e9}a"]);
    assert!(ret == Ret::Done);
    assert_eq!(l.take_device_name(), Some(Some(String::from("\u{e9}a"))));
    assert!(!l.take_reregister());
    assert!(plan("#name,ab").malformed);
    assert!(plan(&format!("#name,{}", "\u{e9}".repeat(33))).malformed);
}

#[test]
fn chain() {
    let mut l = CommandListener::new();
    let (ops, ret) = run(&mut l, "#iled,2:2:i,ws2816b,,", None);
    assert_eq!(ops, ["drivers/iled=2:2:ltxi,1110:1000:1250:600:g8r8b8,#1000000000,#0000000000"]);
    assert!(ret == Ret::Done);
    let c = l.take_iled_config().unwrap().unwrap();
    assert_eq!((c.width, c.height), (2, 2));
    let (ops, ret) = run(&mut l, "#iled", None);
    assert_eq!(ops, ["drivers/iled-"]);
    assert!(ret == Ret::Done && l.take_iled_config() == Some(None));
    let (ops, ret) = run(&mut l, "#iled", Some(0));
    assert_eq!(ops.len(), 1);
    assert!(ret == Ret::Done && l.take_iled_config() == Some(None));
    for line in ["#iled,", "#iled, ", "#iled,,", "#iled , , ,,,"] {
        let (ops, ret) = run(&mut l, line, None);
        assert_eq!(ops, ["drivers/iled=1:1:ltx,1110:1000:1250:600:g8r8b8w8,#1000000000,#0000000000"], "{line}");
        assert!(ret == Ret::Done && ret.code() == 0);
        assert!(l.take_iled_config() == Some(IledConfig::parse("")));
    }
    let (ops, _) = run(&mut l, "# iled ", None);
    assert_eq!(ops, ["drivers/iled-"]);
    assert!(l.take_iled_config() == Some(None));
    let (ops, ret) = run(&mut l, "#iled,16:9", None);
    assert!(ops.is_empty() && ret == Ret::MalformedValue && l.take_iled_config().is_none());
}

#[test]
fn chain_config_too_long_to_store() {
    let line = "#iled,128:1:i,11111111:10000000:4294967295:1000000:r8g8b8w8c8,#,#";
    assert!(IledConfig::parse(&line[6..]).is_some());
    assert!(plan(line).malformed);
}

#[test]
fn framebuffer() {
    let mut l = CommandListener::new();
    let (ops, ret) = run(&mut l, "#nodem, 64:32:1,oled:0:0:2:2 ", None);
    assert_eq!(ops, ["nodem/nodem=64:32:1,oled:0:0:2:2"]);
    assert!(ret == Ret::Done);
    assert_eq!(l.take_nodem_config().unwrap().width, 64);
    let (ops, _) = run(&mut l, "#nodem", None);
    assert_eq!(ops, ["nodem/nodem=128:64:1"]);
    assert!(l.take_nodem_config() == Some(NodemConfig::default()));
    let (ops, ret) = run(&mut l, "#nodem,0:0:0", None);
    assert!(ops.is_empty() && ret == Ret::MalformedValue && l.take_nodem_config().is_none());
    let (_, ret) = run(&mut l, "#nodem", Some(0));
    assert!(ret == Ret::Error && l.take_nodem_config().is_none());
}

#[test]
fn display() {
    let mut l = CommandListener::new();
    let (ops, _) = run(&mut l, "#oled,ssd1306:64:32:0:0", None);
    assert_eq!(ops, ["drivers/oled=ssd1306:64:32:0:0:0"]);
    assert_eq!(l.take_oled_config().unwrap().unwrap().height, 32);
    let (ops, _) = run(&mut l, "#oled, off ", None);
    assert_eq!(ops, ["drivers/oled=off"]);
    assert!(l.take_oled_config() == Some(None));
    let (ops, _) = run(&mut l, "#oled", None);
    assert_eq!(ops, ["drivers/oled="]);
    let (ops, ret) = run(&mut l, "#oled,ssd1306:1", None);
    assert!(ops.is_empty() && ret == Ret::MalformedValue);
    assert!(plan(&format!("#oled,{}", "z".repeat(64))).malformed);
    assert!(!plan(&format!("#oled,{}", "z".repeat(63))).malformed);
}

#[test]
fn host() {
    let mut l = CommandListener::new();
    let (ops, ret) = run(&mut l, "#host,example.org", None);
    assert_eq!(ops, ["device/cloud_host=example.org", "device/device_id-", "device/device_secret-"]);
    assert!(ret == Ret::Done && l.take_reregister());
    let (ops, _) = run(&mut l, "#host", None);
    assert_eq!(ops[0], "device/cloud_host-");
    assert!(l.take_reregister());
    let (ops, ret) = run(&mut l, &format!("#host,{}", "h".repeat(129)), None);
    assert_eq!(ops, ["device/device_id-", "device/device_secret-"]);
    assert!(ret == Ret::MalformedValue && l.take_reregister());
    let (ops, ret) = run(&mut l, "#host,example.org", Some(0));
    assert_eq!(ops.len(), 3);
    assert!(ret == Ret::Error && l.take_reregister());
}

#[test]
fn factory() {
    let mut l = CommandListener::new();
    let (ops, ret) = run(&mut l, "#factory", None);
    assert_eq!(
        ops,
        [
            "wifi/ssid-",
            "wifi/pass-",
            "wifi/conn_ok-",
            "wifi/conn_fail-",
            "device/device_name-",
            "device/reg_code-",
            "device/device_id-",
            "device/device_secret-",
            "device/cloud_host-",
            "nodem/last_page-",
            "nodem/nodem=128:64:1",
            "drivers/iled=1:1:ltxi,1110:1000:1250:600:g8r8b8w8,#1000000000,#0000000000",
            "drivers/oled=ssd1306:128:64:0:0:0",
        ]
    );
    assert!(ret == Ret::Done);
    assert!(plan("#factory").erase_pkg);
    assert!(!plan("#reset").erase_pkg);
    let (ops, ret) = run(&mut l, "#factory", Some(10));
    assert_eq!(ops.len(), 13);
    assert!(ret == Ret::Error);
    assert!(l.take_wifi_reconnect() && l.take_reregister());
    assert_eq!(l.take_device_name(), Some(None));
    assert!(l.take_nodem_config() == Some(NodemConfig::default()));
    assert!(l.take_iled_config() == Some(Some(IledConfig::default())));
    assert!(l.take_oled_config() == Some(Some(OledConfig::default())));
    l.pkg_erased();
    assert!(l.take_pkg_updated());
}

#[test]
fn shown_config_can_be_entered_again() {
    let c = IledConfig::parse("4:4:rbyi,ws2816,#123456789a,#01").unwrap();
    let p = plan(&format!("#iled,{}", c.to_csv()));
    assert_eq!(show(&p.ops[0]), format!("drivers/iled={}", c.to_csv()));
    let n = NodemConfig::parse("10:10:1,iled:1:1:1:1").unwrap();
    let p = plan(&format!("#nodem,{}", n.to_nvs_string()));
    assert_eq!(show(&p.ops[0]), format!("nodem/nodem={}", n.to_nvs_string()));
    let o = OledConfig::default().to_nvs_string();
    assert_eq!(show(&plan(&format!("#oled,{o}")).ops[0]), format!("drivers/oled={o}"));
}

#[test]
fn applying() {
    let mut l = CommandListener::new();
    let mut g = Global::new(NodemConfig::default(), "1");
    g.cloud_status.device_name = Some(String::from("old"));
    run(&mut l, "#wifi,home,password1", None);
    run(&mut l, "#reg,abc123,desk", None);
    run(&mut l, "#iled", None);
    run(&mut l, "#oled,ssd1306:64:32:0:0", None);
    run(&mut l, "#nodem,16:16:1,iled:0:0:1:1", None);
    run(&mut l, "#reset", None);
    l.pkg_erased();
    assert!(l.apply(&mut g));
    assert!(g.wifi_reconnect && g.reregister && g.pkg_reload);
    assert_eq!(g.cloud_status.device_name.as_deref(), Some("desk"));
    assert!(g.iled_config.is_none());
    assert_eq!(g.oled_config.unwrap().width, 64);
    assert_eq!(g.display_buffer.len(), 32);
    assert!(g.nodem_config.mapping(DriverKind::Iled).is_some());
    assert!(l.take_restart());
    assert!(!l.apply(&mut g));
    assert!(g.wifi_reconnect && g.iled_config.is_none());
    run(&mut l, "#factory", None);
    assert!(l.apply(&mut g));
    assert!(g.cloud_status.device_name.is_none());
    assert!(g.iled_config.is_some());
}

#[test]
fn uploads() {
    let mut l = CommandListener::new();
    l.uploaded(UploadMode::Pkg, LoaderResult::NotEnoughSpace);
    l.uploaded(UploadMode::Ota, LoaderResult::Aborted);
    assert!(!l.take_pkg_updated() && !l.take_restart());
    l.uploaded(UploadMode::Pkg, LoaderResult::Accepted);
    assert!(l.take_pkg_updated() && !l.take_restart());
    l.uploaded(UploadMode::Ota, LoaderResult::Accepted);
    assert!(!l.take_pkg_updated() && l.take_restart());
}

#[test]
fn pages_are_written_when_they_change() {
    let op = page_write("7", None).unwrap();
    assert_eq!(show(&op), "nodem/last_page=7");
    assert!(page_write("7", Some("7")).is_none());
    assert!(page_write("7", Some("8")).is_some());
    assert!(page_write("+255", None).is_none());
    assert!(page_write("0007", None).is_none());
    assert!(page_write("255", None).is_some());
}

#[test]
fn stored_configuration() {
    let keys: Vec<(&str, &str, bool)> = config_keys().iter().map(|k| (k.namespace, k.key, k.masked)).collect();
    assert_eq!(
        keys,
        [
            ("wifi", "ssid", false),
            ("wifi", "pass", true),
            ("device", "device_name", false),
            ("device", "reg_code", true),
            ("device", "cloud_host", false),
            ("drivers", "iled", false),
            ("nodem", "last_page", false),
            ("nodem", "nodem", false),
            ("drivers", "oled", false),
        ]
    );
    let s = |t: &str| Some(String::from(t));
    let values = vec![s("home"), s("p\u{e4}ss"), None, None, s("h"), s("i"), s("3"), s("n"), s("o")];
    assert_eq!(
        config_text(&values),
        "ssid=home\r\npass=*****\r\ndevice_name=\r\nreg_code=\r\ncloud_host=h\r\niled=i\r\nlast_page=3\r\nnodem=n\r\noled=o\r\n"
    );
}

#[test]
fn device_state() {
    let mut l = CommandListener::new();
    assert_eq!(
        l.status_text(),
        "wifi,waiting,,,,,,\r\ncloud,waiting,disconnected,,,\r\noled,0,,\r\niled,0,\r\n"
    );
    let mut g = Global::new(NodemConfig::default(), "1");
    g.wifi_status.status = WifiConnectionStatus::Connected;
    g.wifi_status.ssid = Some(String::from("home"));
    g.wifi_status.ip = Some(Ipv4Addr { a: 10, b: 0, c: 0, d: 2 });
    g.wifi_status.subnet_mask = Some(Ipv4Addr { a: 255, b: 0, c: 0, d: 0 });
    g.wifi_status.gateway = Some(Ipv4Addr { a: 10, b: 0, c: 0, d: 1 });
    g.wifi_status.rssi = Some(-70);
    g.cloud_status.registration = RegistrationStatus::Registered;
    g.cloud_status.connection = CloudConnectionStatus::Connected;
    g.cloud_status.host = Some(String::from("example.org"));
    g.cloud_status.device_name = Some(String::from("desk"));
    g.oled_config = Some(OledConfig::default());
    g.oled_status.status = OledConnectionStatus::Connected;
    l.update_status(&g);
    assert_eq!(
        l.status_text(),
        "wifi,connected,home,10.0.0.2,255.0.0.0,10.0.0.1,-70,\r\ncloud,registered,connected,example.org,desk,\r\noled,1,128x64,ok\r\niled,1,1x1\r\n"
    );
    g.wifi_status.status = WifiConnectionStatus::Failed(String::from("a,b"));
    g.wifi_status.ip = None;
    g.cloud_status.registration = RegistrationStatus::Failed(String::from("c,d"));
    g.cloud_status.connection = CloudConnectionStatus::Connecting;
    g.oled_status.status = OledConnectionStatus::Failed(String::from("nack"));
    l.update_status(&g);
    assert_eq!(
        l.status_text(),
        "wifi,failed,home,,255.0.0.0,10.0.0.1,-70,a,b\r\ncloud,failed,connecting,example.org,desk,c,d\r\noled,1,128x64,nack\r\niled,1,1x1\r\n"
    );
    g.wifi_status.status = WifiConnectionStatus::Connecting;
    g.cloud_status.registration = RegistrationStatus::Registering;
    g.oled_status.status = OledConnectionStatus::Initializing;
    l.update_status(&g);
    assert!(l.status_text().starts_with("wifi,connecting,"));
    assert!(l.status_text().contains("cloud,registering,"));
    assert!(l.status_text().contains("oled,1,128x64,initializing\r\n"));
    g.oled_status.status = OledConnectionStatus::Disabled;
    l.update_status(&g);
    assert!(l.status_text().contains(",disabled\r\n"));
}

#[test]
fn stored_entries() {
    let e = |key: &str, value| Entry { namespace: String::from("ns"), key: String::from(key), value };
    let entries = vec![
        e("a", EntryValue::Unsigned(u64::MAX)),
        e("b", EntryValue::Signed(i64::MIN)),
        e("c", EntryValue::Text(String::from("t,x"))),
        e("d", EntryValue::Blob(12)),
        e("e", EntryValue::Unknown),
    ];
    assert_eq!(
        entries_text(&entries),
        "ns/a=18446744073709551615\r\nns/b=-9223372036854775808\r\nns/c=t,x\r\nns/d=<blob 12 bytes>\r\nns/e=?\r\n"
    );
    assert_eq!(entries_text(&vec![]), "");
}
