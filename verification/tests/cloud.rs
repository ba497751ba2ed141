use nodem_esp32::clock::TICKS_PER_SEC;
use nodem_esp32::cloud_task::{CloudAction, CloudTask};
use nodem_esp32::global::{CloudConnectionStatus, CloudStatus, Global, RegistrationStatus, WifiConnectionStatus};
use nodem_esp32::nodem::NodemConfig;
use nodem_esp32::nvs::NvsOp;
use nodem_esp32::websocket::{
    device_headers, device_mac_address, next_command, parse_registration_response, plan_credentials,
    read_cloud_host, read_response, register_request, websocket_url, CredentialPlan, EnrolStage, Enrolment,
    RegisterError, PING_INTERVAL,
};

fn some(s: &str) -> Result<Option<String>, String> {
    Ok(Some(String::from(s)))
}

fn none() -> Result<Option<String>, String> {
    Ok(None)
}

fn error() -> Result<Option<String>, String> {
    Err(String::from("flash"))
}

fn shared() -> Global {
    Global::new(NodemConfig::default(), "1")
}

#[test]
fn cloud_host() {
    assert_eq!(read_cloud_host(None), "docker.ws-ai-call-bot.workers.dev");
    assert_eq!(read_cloud_host(Some("")), "docker.ws-ai-call-bot.workers.dev");
    assert_eq!(read_cloud_host(Some("example.org:8443")), "example.org:8443");
}

#[test]
fn code_wins_over_credentials() {
    let p = plan_credentials(some("abc123"), some("id"), some("secret"), some("desk"));
    assert!(matches!(p, CredentialPlan::Register { code, name } if code == "abc123" && name == "desk"));
}

#[test]
fn rejected_codes_are_spent() {
    let p = plan_credentials(some("0"), some("id"), some("secret"), some("desk"));
    assert!(matches!(p, CredentialPlan::Use { id, secret, stored_name }
        if id == "id" && secret == "secret" && stored_name.as_deref() == Some("desk")));
    let p = plan_credentials(some("0"), none(), some("secret"), some("desk"));
    assert!(matches!(p, CredentialPlan::MissingCode));
}

#[test]
fn credentials_without_code() {
    assert!(matches!(plan_credentials(none(), some("i"), error(), none()), CredentialPlan::MissingCode));
    assert!(matches!(plan_credentials(none(), none(), none(), none()), CredentialPlan::MissingCode));
    assert!(matches!(
        plan_credentials(none(), some("i"), some("s"), error()),
        CredentialPlan::Use { stored_name: None, .. }
    ));
}

#[test]
fn codes_without_a_name_are_dropped() {
    assert!(matches!(plan_credentials(some("abc123"), none(), none(), none()), CredentialPlan::DropCode));
    assert!(matches!(plan_credentials(some("abc123"), none(), none(), some("ab")), CredentialPlan::DropCode));
    let long = "x".repeat(65);
    assert!(matches!(plan_credentials(some("abc123"), none(), none(), some(&long)), CredentialPlan::DropCode));
    let fits = "x".repeat(64);
    assert!(matches!(
        plan_credentials(some("abc123"), none(), none(), some(&fits)),
        CredentialPlan::Register { .. }
    ));
}

#[test]
fn storage_errors() {
    assert!(matches!(plan_credentials(error(), none(), none(), none()), CredentialPlan::Failed(e) if e == "flash"));
    assert!(matches!(
        plan_credentials(some("abc123"), none(), none(), error()),
        CredentialPlan::Failed(e) if e == "flash"
    ));
}

#[test]
fn plans_start_with_writes() {
    let p = plan_credentials(some("abc123"), none(), none(), some("desk"));
    let keys: Vec<&str> = p
        .ops()
        .iter()
        .map(|o| match o {
            NvsOp::Remove { key, .. } => *key,
            NvsOp::Store { .. } => panic!(),
        })
        .collect();
    assert_eq!(keys, ["device_id", "device_secret"]);
    let p = plan_credentials(some("abc123"), none(), none(), none());
    assert!(matches!(p.ops()[0], NvsOp::Remove { key: "reg_code", namespace: "device" }));
    assert!(plan_credentials(none(), none(), none(), none()).ops().is_empty());
}

#[test]
fn enrolment_stores_before_it_forgets_the_code() {
    let mut e = Enrolment::new(Ok((String::from("I"), String::from("S"))));
    assert!(matches!(e.op(), Some(NvsOp::Store { key: "device_id", value, .. }) if value == "I"));
    e.written(Ok(()));
    assert!(matches!(e.op(), Some(NvsOp::Store { key: "device_secret", value, .. }) if value == "S"));
    e.written(Ok(()));
    assert!(matches!(e.op(), Some(NvsOp::Remove { key: "reg_code", .. })));
    e.written(Err(String::from("ignored")));
    assert!(e.op().is_none());
    assert_eq!(e.result(), Ok((String::from("I"), String::from("S"))));
}

#[test]
fn enrolment_failures() {
    let mut e = Enrolment::new(Ok((String::from("I"), String::from("S"))));
    e.written(Ok(()));
    e.written(Err(String::from("full")));
    assert!(e.stage == EnrolStage::Failed);
    assert_eq!(e.result(), Err(String::from("full")));
    let mut e = Enrolment::new(Err(String::from("HTTP 500")));
    assert!(matches!(e.op(), Some(NvsOp::Store { key: "reg_code", value, .. }) if value == "0"));
    e.written(Err(String::from("ignored")));
    assert_eq!(e.result(), Err(String::from("HTTP 500")));
}

#[test]
fn registration_requests() {
    let mac = [0x00, 0x1a, 0xff, 0x9c, 0x05, 0xb0];
    assert_eq!(device_mac_address(&mac), "00:1A:FF:9C:05:B0");
    let r = register_request("abc123", "d\u{e9}sk", &mac, "example.org");
    assert_eq!(r.url, "https://example.org/api/devices/register");
    assert_eq!(r.payload, "#reg,abc123,00:1A:FF:9C:05:B0,d\u{e9}sk\r\n");
    assert_eq!(r.content_length, "37");
    assert_eq!(r.payload.len(), 37);
}

#[test]
fn registration_responses() {
    assert!(matches!(parse_registration_response("#id,42,s3cret,desk\r\n"),
        Ok((id, secret)) if id == "42" && secret == "s3cret"));
    assert!(matches!(parse_registration_response("#id,42,s3cret"), Ok(_)));
    assert!(matches!(parse_registration_response("  #id,,,"), Ok((id, secret)) if id.is_empty() && secret.is_empty()));
    assert!(matches!(parse_registration_response("nope"), Err(RegisterError::Unexpected(_))));
    assert!(matches!(parse_registration_response(""), Err(RegisterError::Unexpected(_))));
    assert!(matches!(parse_registration_response("#id"), Err(RegisterError::MissingId(_))));
    assert!(matches!(parse_registration_response("#id,42"), Err(RegisterError::MissingSecret(_))));
}

#[test]
fn registration_errors_in_words() {
    let words = |r: Result<(String, String), RegisterError>| r.err().unwrap().message();
    assert_eq!(words(read_response(404, b"")), "registration request failed with HTTP status 404");
    assert_eq!(words(read_response(199, b"")), "registration request failed with HTTP status 199");
    assert_eq!(words(read_response(300, b"")), "registration request failed with HTTP status 300");
    assert_eq!(words(read_response(200, b"a\"b\n")), "unexpected registration response: \"a\\\"b\\n\"");
    assert_eq!(words(read_response(201, b"#id")), "registration response missing device id: \"#id\"");
    assert_eq!(words(read_response(299, b"#id,1")), "registration response missing device secret: \"#id,1\"");
    let bytes = vec![b'#', 0xff];
    assert_eq!(words(read_response(200, &bytes)), std::str::from_utf8(&bytes).unwrap_err().to_string());
    assert!(matches!(read_response(200, &[0xff]), Err(RegisterError::NotText(_))));
    assert!(read_response(200, b"#id,1,2").is_ok());
}

#[test]
fn connection_texts() {
    assert_eq!(device_headers("7", "k"), "X-Device-Id: 7\r\nX-Device-Secret: k\r\n");
    assert_eq!(websocket_url("example.org"), "wss://example.org/ws/device");
}

#[test]
fn messages_of_several_commands() {
    assert_eq!(next_command(0, 3, 10), Some(3));
    assert_eq!(next_command(3, 7, 10), None);
    assert_eq!(next_command(3, 0, 10), None);
    assert_eq!(next_command(3, usize::MAX, 10), None);
}

#[test]
fn task_waits_for_wifi() {
    let t = CloudTask::new();
    let mut g = shared();
    assert!(matches!(t.resume(&g), CloudAction::AwaitWifi(200)));
    g.wifi_status.status = WifiConnectionStatus::Connected;
    assert!(matches!(t.resume(&g), CloudAction::ReadCredentials(0)));
}

#[test]
fn task_registers() {
    let mut t = CloudTask::new();
    let mut c = CloudStatus::new();
    let (ops, a) = t.stored(&mut c, none(), none(), none(), none());
    assert!(ops.is_empty() && matches!(a, CloudAction::ReadCredentials(2000)));
    assert!(matches!(c.registration, RegistrationStatus::WaitingForCode));
    let (ops, a) = t.stored(&mut c, some("abc123"), none(), none(), some("desk"));
    assert_eq!(ops.len(), 2);
    assert!(matches!(a, CloudAction::Register { code, name } if code == "abc123" && name == "desk"));
    assert!(matches!(c.registration, RegistrationStatus::Registering));
    assert_eq!(c.device_name.as_deref(), Some("desk"));
    let a = t.replied(Ok((String::from("I"), String::from("S"))));
    assert!(matches!(a, CloudAction::Write(NvsOp::Store { key: "device_id", .. })));
    let a = t.written(&mut c, Ok(()));
    assert!(matches!(a, CloudAction::Write(NvsOp::Store { key: "device_secret", .. })));
    let a = t.written(&mut c, Ok(()));
    assert!(matches!(a, CloudAction::Write(NvsOp::Remove { key: "reg_code", .. })));
    assert!(matches!(c.registration, RegistrationStatus::Registering));
    let a = t.written(&mut c, Ok(()));
    assert!(matches!(a, CloudAction::Open { id, secret } if id == "I" && secret == "S"));
    assert!(matches!(c.registration, RegistrationStatus::Registered));
    assert!(c.connection == CloudConnectionStatus::Connecting);
    assert!(t.enrolment.is_none());
}

#[test]
fn task_reports_rejection() {
    let mut t = CloudTask::new();
    let mut c = CloudStatus::new();
    assert!(matches!(t.replied(Err(String::from("no"))), CloudAction::Write(NvsOp::Store { key: "reg_code", .. })));
    assert!(matches!(t.written(&mut c, Ok(())), CloudAction::ReadCredentials(5000)));
    assert!(matches!(&c.registration, RegistrationStatus::Failed(e) if e == "no"));
}

#[test]
fn task_reports_storage_errors() {
    let mut t = CloudTask::new();
    let mut c = CloudStatus::new();
    let (_, a) = t.stored(&mut c, error(), none(), none(), none());
    assert!(matches!(a, CloudAction::ReadCredentials(5000)));
    assert!(matches!(&c.registration, RegistrationStatus::Failed(e) if e == "flash"));
}

#[test]
fn task_opens_and_reports_a_host() {
    let t = CloudTask::new();
    let mut c = CloudStatus::new();
    c.device_name = Some(String::from("desk"));
    let o = t.opening(&mut c, Some("example.org"), "7", "k");
    assert_eq!(o.url, "wss://example.org/ws/device");
    assert_eq!(o.headers, "X-Device-Id: 7\r\nX-Device-Secret: k\r\n");
    assert_eq!(c.host.as_deref(), Some("example.org"));
    assert_eq!(c.device_name.as_deref(), Some("desk"));
    let o = t.opening(&mut c, Some(""), "7", "k");
    assert_eq!(o.url, "wss://docker.ws-ai-call-bot.workers.dev/ws/device");
    assert_eq!(c.host.as_deref(), Some("docker.ws-ai-call-bot.workers.dev"));
    t.no_storage(&mut c, String::from("flash"));
    assert!(matches!(&c.registration, RegistrationStatus::Failed(e) if e == "flash"));
    assert!(c.host.is_some());
}

#[test]
fn task_keeps_a_client() {
    let mut t = CloudTask::new();
    let mut g = shared();
    let (_, a) = t.stored(&mut g.cloud_status, none(), some("i"), some("s"), some("desk"));
    assert!(matches!(a, CloudAction::Open { .. }));
    assert_eq!(g.cloud_status.device_name.as_deref(), Some("desk"));
    assert!(matches!(t.opened(&mut g.cloud_status, false, 0), CloudAction::AwaitWifi(5000)));
    assert!(g.cloud_status.connection == CloudConnectionStatus::Disconnected);
    let start = 7 * TICKS_PER_SEC;
    assert!(matches!(t.opened(&mut g.cloud_status, true, start), CloudAction::Look));
    assert!(matches!(t.looked(&mut g, Some(false), start + PING_INTERVAL), CloudAction::Look));
    assert!(g.cloud_status.connection == CloudConnectionStatus::Disconnected);
    assert!(matches!(t.looked(&mut g, Some(true), start + PING_INTERVAL - 1), CloudAction::Look));
    assert!(g.cloud_status.connection == CloudConnectionStatus::Connected);
    assert!(matches!(t.looked(&mut g, Some(true), start + PING_INTERVAL), CloudAction::Ping(p) if p == "ping,17"));
    assert!(matches!(t.pinged(&mut g, true), CloudAction::Look));
    assert!(matches!(t.looked(&mut g, Some(true), start + PING_INTERVAL + 1), CloudAction::Look));
    g.reregister = true;
    assert!(matches!(t.looked(&mut g, Some(true), start + PING_INTERVAL + 2), CloudAction::Close));
    assert!(!g.reregister);
    assert!(matches!(g.cloud_status.registration, RegistrationStatus::Registering));
    assert!(g.cloud_status.connection == CloudConnectionStatus::Disconnected);
}

#[test]
fn task_drops_a_dead_client() {
    let mut t = CloudTask::new();
    let mut g = shared();
    t.opened(&mut g.cloud_status, true, 0);
    g.cloud_status.connection = CloudConnectionStatus::Connected;
    assert!(matches!(t.pinged(&mut g, false), CloudAction::Close));
    assert!(g.cloud_status.connection == CloudConnectionStatus::Disconnected);
    g.cloud_status.connection = CloudConnectionStatus::Connected;
    assert!(matches!(t.looked(&mut g, None, 1), CloudAction::AwaitWifi(0)));
    assert!(g.cloud_status.connection == CloudConnectionStatus::Disconnected);
}
