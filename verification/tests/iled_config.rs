use nodem_esp32::color::{color_to_csv, parse_color, Channel, ColorPattern};
use nodem_esp32::iled::{lookup_chip_protocol, parse_dimension, read_iled_config, IledConfig};
use nodem_esp32::layout::{layout_to_csv, parse_layout, Axis, ChainLayout, HEdge, VEdge};
use nodem_esp32::timing::TimingConfig;

const DEFAULT_TEXT: &str = "1:1:ltxi,1110:1000:1250:600:g8r8b8w8,#1000000000,#0000000000";

#[test]
fn channel_letters_and_values() {
    let color = (1, 2, 3, 4, 5);
    let all = [
        (Channel::Red, 'r', 1),
        (Channel::Green, 'g', 2),
        (Channel::Blue, 'b', 3),
        (Channel::WarmWhite, 'w', 4),
        (Channel::ColdWhite, 'c', 5),
    ];
    for (channel, letter, value) in all {
        assert_eq!(channel.letter(), letter);
        assert_eq!(channel.raw_value(color), value);
    }
}

#[test]
fn color_pattern_reads_and_writes() {
    let p = ColorPattern::parse("g8b8r8w8").unwrap();
    assert_eq!(p.total_bits(), 32);
    assert_eq!(p.to_csv(), "g8b8r8w8");
    let c4 = ColorPattern::parse("c4").unwrap();
    assert_eq!(c4.total_bits(), 4);
    assert_eq!(c4.channels().len(), 1);
    assert_eq!(c4.channels()[0], (Channel::ColdWhite, 4));
    assert_eq!(ColorPattern::parse("r08").unwrap().to_csv(), "r8");
    assert_eq!(ColorPattern::default().to_csv(), "g8r8b8w8");
    assert!(ColorPattern::default() == ColorPattern::parse("g8r8b8w8").unwrap());
}

#[test]
fn color_pattern_refuses() {
    for s in ["", "x8", "r", "r0", "r9", "r8g", "8r", "r8g8b8w8c8r8", "r256", "r8 g8", "R8"] {
        assert!(ColorPattern::parse(s).is_none(), "{s}");
    }
    assert_eq!(ColorPattern::parse("r8g8b8w8c8").unwrap().total_bits(), 40);
    assert_eq!(ColorPattern::parse("r1r1").unwrap().to_csv(), "r1r1");
}

#[test]
fn colors_read_and_write() {
    let none = (9, 9, 9, 9, 9);
    assert_eq!(parse_color("", none), Some(none));
    assert_eq!(parse_color("#", none), Some((0, 0, 0, 0, 0)));
    assert_eq!(parse_color("#0f000001", none), Some((15, 0, 0, 1, 0)));
    assert_eq!(parse_color("#0f0", none), Some((15, 0, 0, 0, 0)));
    assert_eq!(parse_color("#0F1", none), Some((15, 16, 0, 0, 0)));
    assert_eq!(parse_color("#1", none), Some((16, 0, 0, 0, 0)));
    assert_eq!(parse_color("#+f", none), None);
    assert_eq!(parse_color("#f+", none), None);
    assert_eq!(parse_color("#+", none), None);
    for whole in ["#a050300000", "#1000000000", "#00ff10ab70"] {
        let color = parse_color(whole, none);
        let mut s = whole;
        while let Some(shorter) = s.strip_suffix('0') {
            s = shorter;
            assert_eq!(parse_color(s, none), color, "{s}");
        }
    }
    assert_eq!(parse_color("#ffFFffFFff", none), Some((255, 255, 255, 255, 255)));
    assert_eq!(parse_color("#ffffffffff0", none), None);
    assert_eq!(parse_color("0f", none), None);
    assert_eq!(parse_color("#0g", none), None);
    assert_eq!(color_to_csv((1, 2, 3, 4, 255)), "#01020304ff");
    assert_eq!(parse_color(&color_to_csv((1, 2, 3, 4, 255)), none), Some((1, 2, 3, 4, 255)));
}

#[test]
fn layouts_read_in_any_order() {
    let l = ChainLayout { h_edge: HEdge::Right, v_edge: VEdge::Bottom, axis: Axis::Column, serpentine: true };
    assert!(parse_layout("rbyi") == Some(l));
    assert!(parse_layout("iybr") == Some(l));
    assert_eq!(layout_to_csv(&l), "rbyi");
    let d = parse_layout("").unwrap();
    assert_eq!(layout_to_csv(&d), "ltx");
    for s in ["rl", "tb", "xy", "ii", "z", "rr"] {
        assert!(parse_layout(s).is_none(), "{s}");
    }
}

#[test]
fn chain_indices() {
    let plain = parse_layout("ltx").unwrap();
    assert_eq!(plain.led_index(2, 1, 4, 3), 6);
    let snake = parse_layout("ltxi").unwrap();
    assert_eq!(snake.led_index(2, 0, 4, 3), 2);
    assert_eq!(snake.led_index(2, 1, 4, 3), 5);
    let corner = parse_layout("rbx").unwrap();
    assert_eq!(corner.led_index(0, 0, 4, 3), 11);
    assert_eq!(corner.led_index(3, 2, 4, 3), 0);
    let columns = parse_layout("ltyi").unwrap();
    assert_eq!(columns.led_index(0, 2, 4, 3), 2);
    assert_eq!(columns.led_index(1, 2, 4, 3), 3);
    assert!(!snake.line_forward(1));
    assert!(snake.line_forward(2));
}

#[test]
fn chain_indices_are_a_permutation() {
    for text in ["ltx", "rtx", "lbx", "rbx", "lty", "rty", "lby", "rby", "ltxi", "rbyi"] {
        let l = parse_layout(text).unwrap();
        let mut seen = vec![false; 15];
        for y in 0..3 {
            for x in 0..5 {
                let i = l.led_index(x, y, 5, 3);
                assert!(!seen[i], "{text}");
                seen[i] = true;
            }
        }
        assert!(seen.iter().all(|s| *s));
    }
}

#[test]
fn serpentine_neighbours_touch() {
    let l = parse_layout("ltxi").unwrap();
    assert_eq!(l.led_index(3, 0, 4, 2) + 1, l.led_index(3, 1, 4, 2));
}

#[test]
fn timing_reads_and_writes() {
    let t = TimingConfig::parse("1110", "1000", "1250", "600").unwrap();
    assert!(t == TimingConfig::default());
    assert_eq!((t.pattern_high, t.pattern_low, t.resolution), (14, 8, 4));
    assert_eq!(t.to_csv(), "1110:1000:1250:600");
    assert_eq!(t.bit_rate_hz(), 3_200_000);
    assert_eq!(t.sample_rate_hz(), 200_000);
    let wide = TimingConfig::parse("00000001", "10000000", "1000", "1000000").unwrap();
    assert_eq!((wide.pattern_high, wide.pattern_low), (1, 128));
    assert_eq!(wide.to_csv(), "00000001:10000000:1000:1000000");
}

#[test]
fn timing_refuses() {
    let ok = ["10", "01", "1000", "0"];
    assert!(TimingConfig::parse(ok[0], ok[1], ok[2], ok[3]).is_some());
    assert!(TimingConfig::parse("1", "0", "1000", "0").is_none());
    assert!(TimingConfig::parse("111111111", "000000000", "1000", "0").is_none());
    assert!(TimingConfig::parse("10", "010", "1000", "0").is_none());
    assert!(TimingConfig::parse("12", "01", "1000", "0").is_none());
    assert!(TimingConfig::parse("10", "01", "999", "0").is_none());
    assert!(TimingConfig::parse("10", "01", "1000", "1000001").is_none());
    assert!(TimingConfig::parse("10", "01", "", "0").is_none());
    assert!(TimingConfig::parse("10", "01", "4294967296", "0").is_none());
    assert!(TimingConfig::parse("", "", "1000", "0").is_none());
}

#[test]
fn timing_report_numbers() {
    let r = TimingConfig::default().report();
    assert_eq!(r.bclk_hz, 3_200_000);
    assert_eq!(r.mclk_hz, 51_200_000);
    assert_eq!(
        r.text,
        "iLED timing: pattern \"1\"=1110 \"0\"=1000 (resolution 4), 1250ns/pattern, 600ns reset -> bit rate 3200000Hz, I2S sample rate 200000Hz -> BCLK 3200000Hz, MCLK 51200000Hz (= 160MHz source / "
    );
}

#[test]
fn dimensions() {
    assert_eq!(parse_dimension(""), Some(1));
    assert_eq!(parse_dimension("0"), Some(1));
    assert_eq!(parse_dimension("12"), Some(12));
    assert_eq!(parse_dimension("+3"), Some(3));
    assert_eq!(parse_dimension("-1"), None);
    assert_eq!(parse_dimension("x"), None);
    assert_eq!(parse_dimension("99999999999999999999999"), None);
}

#[test]
fn chips() {
    assert_eq!(lookup_chip_protocol("ws2816"), Some("110:100:1250:100:g8r8b8"));
    assert_eq!(lookup_chip_protocol("ws2816b"), Some("1110:1000:1250:600:g8r8b8"));
    assert_eq!(lookup_chip_protocol("ws2816b_rgbw"), Some("1110:1000:1250:600:g8r8b8w8"));
    assert_eq!(lookup_chip_protocol("WS2816"), None);
}

#[test]
fn default_config() {
    let c = IledConfig::default();
    assert_eq!(c.to_csv(), DEFAULT_TEXT);
    assert!(IledConfig::parse("1:1:i,,,") == Some(c));
    assert!(IledConfig::parse_csv(DEFAULT_TEXT) == Some(c));
}

#[test]
fn configs_read() {
    let c = IledConfig::parse(" 8 : 4 : rbyi , ws2816b , #102030 , #01 ").unwrap();
    assert_eq!((c.width, c.height), (8, 4));
    assert_eq!(c.on_color, (16, 32, 48, 0, 0));
    assert_eq!(c.off_color, (1, 0, 0, 0, 0));
    assert_eq!(c.to_csv(), "8:4:rbyi,1110:1000:1250:600:g8r8b8,#1020300000,#0100000000");
    assert!(IledConfig::parse(&c.to_csv()) == Some(c));
    let blank = IledConfig::parse(",,,").unwrap();
    assert!(!blank.layout.serpentine);
    assert_eq!(blank.on_color, (16, 0, 0, 0, 0));
    assert!(IledConfig::parse("16:8").is_some());
    assert!(IledConfig::parse("2:2:,,,,extra").is_some());
}

#[test]
fn configs_refused() {
    for s in [
        "16:9,,,",
        "129:1,,,",
        "99999999999:99999999999,,,",
        "a:1,,,",
        "1:1:q,,,",
        "1:1,1110:1000:1250:600,,",
        "1:1,1110:1000:1250:600:g8:x,,",
        "1:1,nochip,,",
        "1:1,,red,",
        "1:1,,,#zz",
        "1:1,110:100:1250:100:r1,,",
    ] {
        assert!(IledConfig::parse(s).is_none(), "{s}");
    }
}

#[test]
fn stored_chain_at_startup() {
    let first = read_iled_config(None);
    assert!(first.config == IledConfig::default());
    assert!(!first.remove);
    assert_eq!(first.store.as_deref(), Some(DEFAULT_TEXT));
    let bad = read_iled_config(Some("old format"));
    assert!(bad.config == IledConfig::default());
    assert!(bad.remove);
    assert_eq!(bad.store.as_deref(), Some(DEFAULT_TEXT));
    let again = read_iled_config(bad.store.as_deref());
    assert!(again.config == IledConfig::default());
    assert!(again.store.is_none() && !again.remove);
    let other = read_iled_config(Some("2:2:ltx,ws2816,,"));
    assert_eq!(other.config.width, 2);
    assert!(other.store.is_none() && !other.remove);
}
