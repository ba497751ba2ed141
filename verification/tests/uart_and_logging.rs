use nodem_esp32::global::{Global, COMMAND_BUF_LEN};
use nodem_esp32::log_levels::{apply_log_levels, LogLevel};
use nodem_esp32::nodem::NodemConfig;
use nodem_esp32::uart::{check_overflow, log_uart_recv, processed, read_failed, UartTask};

fn feed(t: &mut UartTask, g: &mut Global, data: &[u8]) -> bool {
    let pos = g.command_buf_pos;
    g.command_buf[pos..pos + data.len()].copy_from_slice(data);
    t.received(g, data.len())
}

fn shared() -> Global {
    Global::new(NodemConfig::default(), "1")
}

#[test]
fn first_byte_silences_logging() {
    let mut t = UartTask::new();
    let mut g = shared();
    assert!(!t.received(&mut g, 0));
    assert!(feed(&mut t, &mut g, b"#"));
    assert!(!feed(&mut t, &mut g, b"cfg"));
    assert_eq!(g.command_buf_pos, 4);
}

#[test]
fn the_rest_moves_to_the_front() {
    let mut t = UartTask::new();
    let mut g = shared();
    feed(&mut t, &mut g, b"#a\n#stat\n#nvs");
    assert!(processed(&mut g, Ok(3)).is_none());
    assert_eq!(&g.command_buf[..g.command_buf_pos], b"#stat\n#nvs");
    assert!(processed(&mut g, Ok(6)).is_none());
    assert_eq!(&g.command_buf[..g.command_buf_pos], b"#nvs");
    assert!(processed(&mut g, Ok(0)).is_none());
    assert_eq!(&g.command_buf[..g.command_buf_pos], b"#nvs");
    feed(&mut t, &mut g, b"\n");
    assert!(processed(&mut g, Ok(5)).is_none());
    assert_eq!(g.command_buf_pos, 0);
}

#[test]
fn failed_responses_and_reads() {
    let mut t = UartTask::new();
    let mut g = shared();
    feed(&mut t, &mut g, b"abc");
    assert_eq!(processed(&mut g, Err(())), Some("uart.1\r\n"));
    assert_eq!(g.command_buf_pos, 3);
    read_failed(&mut g);
    assert_eq!(g.command_buf_pos, 0);
}

#[test]
fn overflow_starts_over() {
    let mut t = UartTask::new();
    let mut g = shared();
    feed(&mut t, &mut g, &[b'x'; COMMAND_BUF_LEN - 1]);
    assert!(check_overflow(&mut g).is_none());
    feed(&mut t, &mut g, b"x");
    assert_eq!(check_overflow(&mut g), Some("uart.2\r\n"));
    assert_eq!(g.command_buf_pos, 0);
}

#[test]
fn received_bytes_are_recorded() {
    assert_eq!(log_uart_recv(b"#stat"), "UART recv text: #stat");
    assert_eq!(log_uart_recv("gr\u{fc}n".as_bytes()), "UART recv text: gr\u{fc}n");
    assert_eq!(log_uart_recv(&[0xff, 0xfe, 0x00]), "UART recv binary (3 bytes)");
    assert_eq!(log_uart_recv(b""), "UART recv text: ");
}

#[test]
fn log_levels_in_any_case() {
    for (s, l) in [
        ("off", LogLevel::Off),
        ("Error", LogLevel::Error),
        ("WARN", LogLevel::Warn),
        ("inFo", LogLevel::Info),
        ("debug", LogLevel::Debug),
        ("trace", LogLevel::Trace),
    ] {
        let p = apply_log_levels(s, LogLevel::Info);
        assert!(p.max == l);
        assert_eq!(p.directives.len(), 1);
        assert_eq!(p.directives[0].target, "*");
        assert!(p.directives[0].level == Some(l));
    }
}

#[test]
fn log_levels_of_targets() {
    let p = apply_log_levels(" warn , nodem_esp32 = debug ,, wifi=error", LogLevel::Info);
    assert!(p.max == LogLevel::Debug);
    assert_eq!(p.directives.len(), 3);
    assert_eq!(p.directives[1].target, "nodem_esp32");
    assert!(p.directives[1].level == Some(LogLevel::Debug));
    assert_eq!(p.directives[2].entry, "wifi=error");
    let p = apply_log_levels("a=trace,off", LogLevel::Info);
    assert!(p.max == LogLevel::Off);
    let p = apply_log_levels("a=error", LogLevel::Info);
    assert!(p.max == LogLevel::Info);
    assert_eq!(LogLevel::Trace.rank(), 5);
}

#[test]
fn invalid_log_levels_change_nothing() {
    let p = apply_log_levels("loud,a=b=debug,x=", LogLevel::Warn);
    assert!(p.max == LogLevel::Warn);
    assert!(p.directives.iter().all(|d| d.level.is_none()));
    assert_eq!(p.directives[1].target, "a");
    assert!(apply_log_levels("", LogLevel::Warn).directives.is_empty());
}
