//! The configuration of an LED chain.
use crate::color::{
    Channel, Color, ColorPattern, color_of, color_text, color_to_csv, depth_sum,
    lemma_color_roundtrip, lemma_color_text_ascii, lemma_color_text_chars, lemma_entries_wf,
    lemma_pattern_roundtrip, lemma_pattern_text_chars, lemma_pattern_text_len, parse_color,
    pattern_of, pattern_text, pattern_wf,
};
use crate::layout::{
    Axis, ChainLayout, HEdge, VEdge, layout_of, layout_text, layout_to_csv, lemma_layout_roundtrip,
    lemma_layout_text_chars, parse_layout,
};
use crate::text::{
    decimal, field, fields, is_space, lacks, lemma_ascii_concat, lemma_blank_pieces,
    lemma_concat_chars, lemma_decimal_ascii, lemma_decimal_chars, lemma_decimal_digits,
    lemma_decimal_len, lemma_number_of_decimal, lemma_pieces_join, lemma_pieces_one,
    lemma_trimmed_plain, no_space, number, parse_number, piece_at, pieces, push_number, same, split,
    split_trimmed,
};
use crate::timing::{
    MAX_RESOLUTION, TimingConfig, binary_text, lemma_binary_text_len, lemma_binary_value_bound,
    lemma_timing_roundtrip, lemma_timing_text_chars, timing_of, timing_text,
};
use vstd::prelude::*;
use vstd::utf8::*;

verus! {

broadcast use vstd::string::group_string_axioms;

/// The NVS namespace of the output drivers' configurations.
pub const NVS_NAMESPACE: &'static str = "drivers";

pub const NVS_KEY_CONFIG: &'static str = "iled";

/// How long a stored configuration may be.
pub const NVS_VALUE_MAX_LEN: usize = 80;

/// Hard cap on the number of LEDs in a chain. Frames are sized for it once,
/// so a new configuration never has to resize them.
pub const MAX_LEDS: usize = 128;

/// The chain's shape, layout, colors, bit timing and wire packet.
#[derive(Clone, Copy, Debug)]
pub struct IledConfig {
    pub width: usize,
    pub height: usize,
    pub layout: ChainLayout,
    pub on_color: Color,
    pub off_color: Color,
    pub timing: TimingConfig,
    pub color_pattern: ColorPattern,
}

/// What a configuration says, with the color pattern as its entries.
pub struct IledModel {
    pub width: nat,
    pub height: nat,
    pub layout: ChainLayout,
    pub on_color: Color,
    pub off_color: Color,
    pub timing: TimingConfig,
    pub channels: Seq<(Channel, u8)>,
}

impl IledModel {
    /// How many bits one LED's packet takes on the wire.
    pub open spec fn bits_per_led(self) -> nat {
        depth_sum(self.channels) * self.timing.resolution as nat
    }

    /// Whether the configuration is one that `IledConfig::parse` produces: the
    /// chain is not empty and not too long, the parts are within their own
    /// bounds, and an LED's packet is a whole number of bytes.
    pub open spec fn wf(self) -> bool {
        &&& self.width >= 1
        &&& self.height >= 1
        &&& self.width * self.height <= MAX_LEDS
        &&& self.timing.wf()
        &&& pattern_wf(self.channels)
        &&& self.bits_per_led() % 8 == 0
    }
}

impl View for IledConfig {
    type V = IledModel;

    open spec fn view(&self) -> IledModel {
        IledModel {
            width: self.width as nat,
            height: self.height as nat,
            layout: self.layout,
            on_color: self.on_color,
            off_color: self.off_color,
            timing: self.timing,
            channels: self.color_pattern@,
        }
    }
}

impl PartialEq for IledConfig {
    fn eq(&self, other: &Self) -> (r: bool) {
        self.width == other.width && self.height == other.height && self.layout == other.layout
            && same_color(self.on_color, other.on_color) && same_color(
            self.off_color,
            other.off_color,
        ) && self.timing == other.timing && self.color_pattern == other.color_pattern
    }
}

impl Eq for IledConfig {

}

impl vstd::std_specs::cmp::PartialEqSpecImpl for IledConfig {
    open spec fn obeys_eq_spec() -> bool {
        true
    }

    open spec fn eq_spec(&self, other: &Self) -> bool {
        self@ == other@
    }
}

fn same_color(a: Color, b: Color) -> (r: bool)
    ensures
        r == (a == b),
{
    a.0 == b.0 && a.1 == b.1 && a.2 == b.2 && a.3 == b.3 && a.4 == b.4
}

/// The configuration that `IledConfig::default` makes.
pub open spec fn default_model() -> IledModel {
    IledModel {
        width: 1,
        height: 1,
        layout: ChainLayout {
            h_edge: HEdge::Left,
            v_edge: VEdge::Top,
            axis: Axis::Row,
            serpentine: true,
        },
        on_color: (16, 0, 0, 0, 0),
        off_color: (0, 0, 0, 0, 0),
        timing: TimingConfig {
            pattern_high: 14,
            pattern_low: 8,
            resolution: 4,
            pattern_ns: 1_250,
            reset_ns: 600,
        },
        channels: seq![
            (Channel::Green, 8u8),
            (Channel::Red, 8u8),
            (Channel::Blue, 8u8),
            (Channel::WarmWhite, 8u8),
        ],
    }
}

impl Default for IledConfig {
    /// A single LED: no larger chain is assumed before one is configured.
    fn default() -> (r: Self)
        ensures
            r@ == default_model(),
            r@.wf(),
    {
        let r = IledConfig {
            width: 1,
            height: 1,
            layout: ChainLayout {
                h_edge: HEdge::Left,
                v_edge: VEdge::Top,
                axis: Axis::Row,
                serpentine: true,
            },
            on_color: (16, 0, 0, 0, 0),
            off_color: (0, 0, 0, 0, 0),
            timing: TimingConfig::default(),
            color_pattern: ColorPattern::default(),
        };
        let bits: usize = r.color_pattern.total_bits();
        proof {
            reveal_with_fuel(depth_sum, 5);
            assert(bits == 32);
        }
        r
    }
}

// ---------------------------------------------------------------------------
// Reading
// ---------------------------------------------------------------------------

/// A width or a height: empty and 0 both stand for 1.
pub open spec fn dimension(s: Seq<char>) -> Option<nat> {
    if s.len() == 0 {
        Some(1)
    } else {
        match number(s) {
            Some(n) => Some(
                if n == 0 {
                    1
                } else {
                    n
                },
            ),
            None => None,
        }
    }
}

/// The protocol of a chip that has a name.
pub open spec fn chip_protocol(name: Seq<char>) -> Option<Seq<char>> {
    if name == "ws2816"@ {
        Some("110:100:1250:100:g8r8b8"@)
    } else if name == "ws2816b"@ {
        Some("1110:1000:1250:600:g8r8b8"@)
    } else if name == "ws2816b_rgbw"@ {
        Some("1110:1000:1250:600:g8r8b8w8"@)
    } else {
        None
    }
}

/// The protocol that a protocol field stands for: that of the default chip if
/// it is empty, that of the chip that it names, or else itself.
pub open spec fn protocol_of(s: Seq<char>) -> Seq<char> {
    if s.len() == 0 {
        "1110:1000:1250:600:g8r8b8w8"@
    } else {
        match chip_protocol(s) {
            Some(protocol) => protocol,
            None => s,
        }
    }
}

/// The configuration that a line of
/// `<width>:<height>:<layout>,<protocol>,<color>,<off_color>` names. Missing
/// fields are empty ones, fields past these are ignored.
#[verifier::opaque]
pub open spec fn iled_of(line: Seq<char>) -> Option<IledModel> {
    let f = fields(line, ',');
    let g = fields(field(f, 0), ':');
    let p = pieces(protocol_of(field(f, 1)), ':');
    if p.len() != 5 {
        None
    } else {
        match (
            dimension(field(g, 0)),
            dimension(field(g, 1)),
            layout_of(field(g, 2)),
            timing_of(p[0], p[1], p[2], p[3]),
            pattern_of(p[4]),
            color_of(field(f, 2), (16, 0, 0, 0, 0)),
            color_of(field(f, 3), (0, 0, 0, 0, 0)),
        ) {
            (
                Some(width),
                Some(height),
                Some(layout),
                Some(timing),
                Some(channels),
                Some(on_color),
                Some(off_color),
            ) => {
                let m = IledModel { width, height, layout, on_color, off_color, timing, channels };
                if width * height <= MAX_LEDS && m.bits_per_led() % 8 == 0 {
                    Some(m)
                } else {
                    None
                }
            },
            _ => None,
        }
    }
}

/// The text of a configuration.
pub open spec fn iled_text(m: IledModel) -> Seq<char> {
    decimal(m.width) + seq![':'] + decimal(m.height) + seq![':'] + layout_text(m.layout) + seq![
        ',',
    ] + timing_text(m.timing) + seq![':'] + pattern_text(m.channels) + seq![','] + color_text(
        m.on_color,
    ) + seq![','] + color_text(m.off_color)
}

/// Reads a width or a height.
pub fn parse_dimension(s: &str) -> (r: Option<usize>)
    ensures
        r is Some <==> (dimension(s@) matches Some(n) && n <= usize::MAX),
        r matches Some(n) ==> dimension(s@) == Some(n as nat),
{
    if s.is_empty() {
        return Some(1);
    }
    match parse_number(s, usize::MAX as u64) {
        Some(n) => Some(
            if n == 0 {
                1
            } else {
                n as usize
            },
        ),
        None => None,
    }
}

/// The chip that an empty protocol field stands for.
pub const DEFAULT_CHIP: &'static str = "ws2816b_rgbw";

/// The protocol of a chip, if `name` names a known one.
pub fn lookup_chip_protocol(name: &str) -> (r: Option<&'static str>)
    ensures
        r is Some <==> chip_protocol(name@) is Some,
        r matches Some(p) ==> chip_protocol(name@) == Some(p@),
{
    if same(name, "ws2816") {
        Some("110:100:1250:100:g8r8b8")
    } else if same(name, "ws2816b") {
        Some("1110:1000:1250:600:g8r8b8")
    } else if same(name, "ws2816b_rgbw") {
        Some("1110:1000:1250:600:g8r8b8w8")
    } else {
        None
    }
}

/// `protocol_of`, computed.
fn resolve_protocol<'a>(protocol: &'a str) -> (r: &'a str)
    ensures
        r@ == protocol_of(protocol@),
{
    if protocol.is_empty() {
        proof {
            reveal_strlit("ws2816");
            reveal_strlit("ws2816b");
            reveal_strlit("ws2816b_rgbw");
            assert("ws2816"@.len() == 6);
            assert("ws2816b"@.len() == 7);
            assert("ws2816b_rgbw"@.len() == 12);
        }
        match lookup_chip_protocol(DEFAULT_CHIP) {
            Some(p) => p,
            None => "",
        }
    } else {
        match lookup_chip_protocol(protocol) {
            Some(p) => p,
            None => protocol,
        }
    }
}

impl IledConfig {
    /// Reads a configuration from the arguments of an "#iled" command. The
    /// protocol field is a chip's name, or five parts with colons between
    /// them, of which none can be left out; every other field has a default.
    /// `None` on anything that is not a number, layout, protocol or color, on
    /// more than `MAX_LEDS` LEDs, and on a packet that is not a whole number
    /// of bytes.
    pub fn parse(line: &str) -> (r: Option<Self>)
        ensures
            r is Some <==> iled_of(line@) is Some,
            r matches Some(c) ==> iled_of(line@) == Some(c@) && c@.wf(),
    {
        proof {
            reveal(iled_of);
        }
        let parts: Vec<&str> = split_trimmed(line, ',');
        let geometry: Vec<&str> = split_trimmed(piece_at(&parts, 0), ':');
        let width: usize = match parse_dimension(piece_at(&geometry, 0)) {
            Some(n) => n,
            None => {
                proof {
                    lemma_too_long(line@);
                }
                return None;
            },
        };
        let height: usize = match parse_dimension(piece_at(&geometry, 1)) {
            Some(n) => n,
            None => {
                proof {
                    lemma_too_long(line@);
                }
                return None;
            },
        };
        let layout: ChainLayout = match parse_layout(piece_at(&geometry, 2)) {
            Some(l) => l,
            None => {
                return None;
            },
        };
        let protocol: Vec<&str> = split(resolve_protocol(piece_at(&parts, 1)), ':');
        if protocol.len() != 5 {
            return None;
        }
        let timing: TimingConfig = match TimingConfig::parse(
            protocol[0],
            protocol[1],
            protocol[2],
            protocol[3],
        ) {
            Some(t) => t,
            None => {
                return None;
            },
        };
        let color_pattern: ColorPattern = match ColorPattern::parse(protocol[4]) {
            Some(p) => p,
            None => {
                return None;
            },
        };
        let on_color: Color = match parse_color(piece_at(&parts, 2), (16, 0, 0, 0, 0)) {
            Some(c) => c,
            None => {
                return None;
            },
        };
        let off_color: Color = match parse_color(piece_at(&parts, 3), (0, 0, 0, 0, 0)) {
            Some(c) => c,
            None => {
                return None;
            },
        };
        proof {
            lemma_product_bound(width as nat, height as nat);
        }
        if width > MAX_LEDS || height > MAX_LEDS || width * height > MAX_LEDS {
            return None;
        }
        let total_bits: usize = color_pattern.total_bits();
        assert(total_bits * timing.resolution <= 320) by (nonlinear_arith)
            requires
                total_bits <= 40,
                timing.resolution <= 8,
        ;
        if (total_bits * timing.resolution as usize) % 8 != 0 {
            return None;
        }
        Some(
            IledConfig { width, height, layout, on_color, off_color, timing, color_pattern },
        )
    }

    /// The inverse of `parse`.
    pub fn to_csv(&self) -> (r: String)
        requires
            self.timing.resolution <= MAX_RESOLUTION,
        ensures
            r@ == iled_text(self@),
    {
        let mut out: String = String::new();
        proof {
            reveal_strlit(":");
            reveal_strlit(",");
            assert(":"@ =~= seq![':']);
            assert(","@ =~= seq![',']);
        }
        push_number(&mut out, self.width as u64);
        out.append(":");
        push_number(&mut out, self.height as u64);
        out.append(":");
        out.append(layout_to_csv(&self.layout).as_str());
        out.append(",");
        out.append(self.timing.to_csv().as_str());
        out.append(":");
        out.append(self.color_pattern.to_csv().as_str());
        out.append(",");
        out.append(color_to_csv(self.on_color).as_str());
        out.append(",");
        out.append(color_to_csv(self.off_color).as_str());
        proof {
            assert(out@ =~= iled_text(self@));
        }
        out
    }

    /// Reads what `to_csv` wrote, which has the same shape as a command's
    /// arguments.
    pub fn parse_csv(csv: &str) -> (r: Option<Self>)
        ensures
            r is Some <==> iled_of(csv@) is Some,
            r matches Some(c) ==> iled_of(csv@) == Some(c@) && c@.wf(),
    {
        Self::parse(csv)
    }
}

/// What to do with the stored configuration at startup.
pub struct IledStartup {
    pub config: IledConfig,
    /// Whether to remove the stored value.
    pub remove: bool,
    /// What to store in its place.
    pub store: Option<String>,
}

/// Takes the stored configuration, if it is one. What cannot be read is to be
/// removed, and the default configuration stored, so that the next start finds
/// what is in use now.
pub fn read_iled_config(raw: Option<&str>) -> (r: IledStartup)
    ensures
        r.config@.wf(),
        match raw {
            Some(text) => match iled_of(text@) {
                Some(m) => r.config@ == m && !r.remove && r.store is None,
                None => {
                    &&& r.config@ == default_model()
                    &&& r.remove
                    &&& r.store matches Some(s) && s@ == iled_text(default_model())
                },
            },
            None => {
                &&& r.config@ == default_model()
                &&& !r.remove
                &&& r.store matches Some(s) && s@ == iled_text(default_model())
            },
        },
{
    if let Some(text) = raw {
        if let Some(config) = IledConfig::parse_csv(text) {
            return IledStartup { config, remove: false, store: None };
        }
    }
    let config: IledConfig = IledConfig::default();
    let store: String = config.to_csv();
    IledStartup { config, remove: raw.is_some(), store: Some(store) }
}

/// A side too large for the machine makes a chain that is too long.
proof fn lemma_too_long(line: Seq<char>)
    ensures
        ({
            let g = fields(field(fields(line, ','), 0), ':');
            let w = dimension(field(g, 0));
            let h = dimension(field(g, 1));
            (w matches Some(n) && n > usize::MAX) || (h matches Some(n) && n > usize::MAX)
                ==> iled_of(line) is None
        }),
{
    reveal(iled_of);
    let g = fields(field(fields(line, ','), 0), ':');
    let w = dimension(field(g, 0));
    let h = dimension(field(g, 1));
    if let Some(a) = w {
        if let Some(b) = h {
            lemma_product_bound(a, b);
        }
    }
}

/// A product of two sides is at least as large as either.
proof fn lemma_product_bound(a: nat, b: nat)
    ensures
        a >= 1 && b >= 1 ==> a * b >= a && a * b >= b,
        a <= MAX_LEDS && b <= MAX_LEDS ==> a * b <= 16384,
{
    assert(a >= 1 && b >= 1 ==> a * b >= a && a * b >= b) by (nonlinear_arith);
    assert(a <= 128 && b <= 128 ==> a * b <= 16384) by (nonlinear_arith);
}

// ---------------------------------------------------------------------------
// Laws
// ---------------------------------------------------------------------------

/// The geometry field of a configuration's text.
spec fn geometry_text(m: IledModel) -> Seq<char> {
    decimal(m.width) + seq![':'] + decimal(m.height) + seq![':'] + layout_text(m.layout)
}

/// The protocol field of a configuration's text.
spec fn protocol_text(m: IledModel) -> Seq<char> {
    timing_text(m.timing) + seq![':'] + pattern_text(m.channels)
}

proof fn lemma_geometry_field(m: IledModel)
    ensures
        no_space(geometry_text(m)),
        lacks(geometry_text(m), ','),
        fields(geometry_text(m), ':') == seq![
            decimal(m.width),
            decimal(m.height),
            layout_text(m.layout),
        ],
{
    let w = decimal(m.width);
    let h = decimal(m.height);
    let l = layout_text(m.layout);
    let f = geometry_text(m);
    lemma_decimal_chars(m.width);
    lemma_decimal_chars(m.height);
    lemma_layout_text_chars(m.layout);
    lemma_concat_chars(w, seq![':'], ',');
    lemma_concat_chars(w + seq![':'], h, ',');
    lemma_concat_chars(w + seq![':'] + h, seq![':'], ',');
    lemma_concat_chars(w + seq![':'] + h + seq![':'], l, ',');
    assert(f =~= w + seq![':'] + (h + seq![':'] + l));
    lemma_pieces_join(w, ':', h + seq![':'] + l);
    lemma_pieces_join(h, ':', l);
    lemma_pieces_one(l, ':');
    lemma_trimmed_plain(w);
    lemma_trimmed_plain(h);
    lemma_trimmed_plain(l);
    assert(pieces(f, ':') =~= seq![w, h, l]);
    assert(fields(f, ':') =~= seq![w, h, l]);
}

proof fn lemma_protocol_field(m: IledModel)
    requires
        m.timing.wf(),
    ensures
        no_space(protocol_text(m)),
        lacks(protocol_text(m), ','),
        protocol_text(m).len() > 0,
        chip_protocol(protocol_text(m)) is None,
        pieces(protocol_text(m), ':') == seq![
            binary_text(m.timing.pattern_high as nat, m.timing.resolution as nat),
            binary_text(m.timing.pattern_low as nat, m.timing.resolution as nat),
            decimal(m.timing.pattern_ns as nat),
            decimal(m.timing.reset_ns as nat),
            pattern_text(m.channels),
        ],
{
    let t = m.timing;
    let high = binary_text(t.pattern_high as nat, t.resolution as nat);
    let low = binary_text(t.pattern_low as nat, t.resolution as nat);
    let ns = decimal(t.pattern_ns as nat);
    let reset = decimal(t.reset_ns as nat);
    let pat = pattern_text(m.channels);
    let f = protocol_text(m);
    lemma_decimal_chars(t.pattern_ns as nat);
    lemma_decimal_chars(t.reset_ns as nat);
    lemma_pattern_text_chars(m.channels);
    lemma_timing_text_chars(t);
    lemma_concat_chars(timing_text(t), seq![':'], ',');
    lemma_concat_chars(timing_text(t) + seq![':'], pat, ',');
    let d = reset + seq![':'] + pat;
    let c = ns + seq![':'] + d;
    let b = low + seq![':'] + c;
    assert(f =~= high + seq![':'] + b);
    lemma_pieces_join(high, ':', b);
    lemma_pieces_join(low, ':', c);
    lemma_pieces_join(ns, ':', d);
    lemma_pieces_join(reset, ':', pat);
    lemma_pieces_one(pat, ':');
    assert(pieces(f, ':') =~= seq![high, low, ns, reset, pat]);
    assert(f[high.len() as int] == ':');
    lemma_no_chip_has_a_colon(f, high.len() as int);
}

proof fn lemma_four_fields(a: Seq<char>, b: Seq<char>, c: Seq<char>, d: Seq<char>)
    requires
        no_space(a) && lacks(a, ','),
        no_space(b) && lacks(b, ','),
        no_space(c) && lacks(c, ','),
        no_space(d) && lacks(d, ','),
    ensures
        fields(a + seq![','] + b + seq![','] + c + seq![','] + d, ',') == seq![a, b, c, d],
{
    let s = a + seq![','] + b + seq![','] + c + seq![','] + d;
    let z = c + seq![','] + d;
    let y = b + seq![','] + z;
    assert(s =~= a + seq![','] + y);
    lemma_pieces_join(a, ',', y);
    lemma_pieces_join(b, ',', z);
    lemma_pieces_join(c, ',', d);
    lemma_pieces_one(d, ',');
    lemma_trimmed_plain(a);
    lemma_trimmed_plain(b);
    lemma_trimmed_plain(c);
    lemma_trimmed_plain(d);
    assert(pieces(s, ',') =~= seq![a, b, c, d]);
    assert(fields(s, ',') =~= seq![a, b, c, d]);
}

proof fn lemma_iled_fields(m: IledModel)
    requires
        m.timing.wf(),
    ensures
        fields(iled_text(m), ',') == seq![
            geometry_text(m),
            protocol_text(m),
            color_text(m.on_color),
            color_text(m.off_color),
        ],
{
    let on = color_text(m.on_color);
    let off = color_text(m.off_color);
    lemma_geometry_field(m);
    lemma_protocol_field(m);
    lemma_color_text_chars(m.on_color);
    lemma_color_text_chars(m.off_color);
    lemma_four_fields(geometry_text(m), protocol_text(m), on, off);
    assert(iled_text(m) =~= geometry_text(m) + seq![','] + protocol_text(m) + seq![','] + on
        + seq![','] + off);
}

/// A configuration reads back from its text.
#[verifier::rlimit(40)]
pub proof fn lemma_iled_roundtrip(m: IledModel)
    requires
        m.wf(),
    ensures
        iled_of(iled_text(m)) == Some(m),
{
    reveal(iled_of);
    let f = fields(iled_text(m), ',');
    let g = fields(field(f, 0), ':');
    let p = pieces(protocol_of(field(f, 1)), ':');
    lemma_iled_fields(m);
    lemma_geometry_field(m);
    lemma_protocol_field(m);
    assert(field(f, 0) == geometry_text(m));
    assert(field(f, 1) == protocol_text(m));
    assert(protocol_of(field(f, 1)) == protocol_text(m));
    assert(dimension(field(g, 0)) == Some(m.width)) by {
        lemma_number_of_decimal(m.width);
        lemma_decimal_digits(m.width);
    }
    assert(dimension(field(g, 1)) == Some(m.height)) by {
        lemma_number_of_decimal(m.height);
        lemma_decimal_digits(m.height);
    }
    assert(layout_of(field(g, 2)) == Some(m.layout)) by {
        lemma_layout_roundtrip(m.layout);
    }
    assert(timing_of(p[0], p[1], p[2], p[3]) == Some(m.timing)) by {
        lemma_timing_roundtrip(m.timing);
    }
    assert(pattern_of(p[4]) == Some(m.channels)) by {
        lemma_pattern_roundtrip(m.channels);
    }
    assert(color_of(field(f, 2), (16, 0, 0, 0, 0)) == Some(m.on_color)) by {
        lemma_color_roundtrip(m.on_color, (16, 0, 0, 0, 0));
    }
    assert(color_of(field(f, 3), (0, 0, 0, 0, 0)) == Some(m.off_color)) by {
        lemma_color_roundtrip(m.off_color, (0, 0, 0, 0, 0));
    }
}

/// A text with a colon in it is no chip's name.
proof fn lemma_no_chip_has_a_colon(s: Seq<char>, k: int)
    requires
        0 <= k < s.len(),
        s[k] == ':',
    ensures
        chip_protocol(s) is None,
{
    reveal_strlit("ws2816");
    reveal_strlit("ws2816b");
    reveal_strlit("ws2816b_rgbw");
    assert(lacks("ws2816"@, ':'));
    assert(lacks("ws2816b"@, ':'));
    assert(lacks("ws2816b_rgbw"@, ':'));
}

/// The text of what was read reads back as the same configuration: texts that
/// name one configuration are stored alike.
pub proof fn lemma_iled_canonical(line: Seq<char>)
    requires
        iled_of(line) is Some,
    ensures
        iled_of(iled_text(iled_of(line)->0)) == iled_of(line),
{
    let m = iled_of(line)->0;
    lemma_iled_of_wf(line);
    lemma_iled_roundtrip(m);
}

/// What a start without a readable configuration stores is what the next start
/// reads.
pub proof fn lemma_startup_settles()
    ensures
        iled_of(iled_text(default_model())) == Some(default_model()),
{
    reveal_with_fuel(depth_sum, 5);
    vstd::arithmetic::power2::lemma2_to64();
    lemma_iled_roundtrip(default_model());
}

/// A configuration's text holds no white space.
pub proof fn lemma_iled_text_chars(m: IledModel)
    requires
        m.wf(),
    ensures
        no_space(iled_text(m)),
        iled_text(m).len() > 0,
{
    let k = seq![','];
    let g = geometry_text(m);
    let p = protocol_text(m);
    let on = color_text(m.on_color);
    let off = color_text(m.off_color);
    lemma_geometry_field(m);
    lemma_protocol_field(m);
    lemma_color_text_chars(m.on_color);
    lemma_color_text_chars(m.off_color);
    lemma_concat_chars(g, k, ':');
    lemma_concat_chars(g + k, p, ':');
    lemma_concat_chars(g + k + p, k, ':');
    lemma_concat_chars(g + k + p + k, on, ':');
    lemma_concat_chars(g + k + p + k + on, k, ':');
    lemma_concat_chars(g + k + p + k + on + k, off, ':');
    assert(iled_text(m) =~= g + k + p + k + on + k + off);
}

/// How long a configuration's text is.
proof fn lemma_iled_text_len(m: IledModel)
    requires
        m.wf(),
    ensures
        is_ascii_chars(iled_text(m)),
        iled_text(m).len() <= decimal(m.width).len() + decimal(m.height).len() + decimal(
            m.timing.pattern_ns as nat,
        ).len() + decimal(m.timing.reset_ns as nat).len() + 2 * m.timing.resolution + 2
            * m.channels.len() + 35,
{
    let c = seq![':'];
    let k = seq![','];
    let t = m.timing;
    let w = decimal(m.width);
    let h = decimal(m.height);
    let l = layout_text(m.layout);
    let high = binary_text(t.pattern_high as nat, t.resolution as nat);
    let low = binary_text(t.pattern_low as nat, t.resolution as nat);
    let ns = decimal(t.pattern_ns as nat);
    let reset = decimal(t.reset_ns as nat);
    let p = pattern_text(m.channels);
    let on = color_text(m.on_color);
    let off = color_text(m.off_color);
    lemma_decimal_ascii(m.width);
    lemma_decimal_ascii(m.height);
    lemma_decimal_ascii(t.pattern_ns as nat);
    lemma_decimal_ascii(t.reset_ns as nat);
    lemma_binary_text_len(t.pattern_high as nat, t.resolution as nat);
    lemma_binary_text_len(t.pattern_low as nat, t.resolution as nat);
    lemma_pattern_text_len(m.channels);
    lemma_color_text_ascii(m.on_color);
    lemma_color_text_ascii(m.off_color);
    lemma_color_text_chars(m.on_color);
    lemma_color_text_chars(m.off_color);
    lemma_ascii_concat(high, c);
    lemma_ascii_concat(high + c, low);
    lemma_ascii_concat(high + c + low, c);
    lemma_ascii_concat(high + c + low + c, ns);
    lemma_ascii_concat(high + c + low + c + ns, c);
    lemma_ascii_concat(high + c + low + c + ns + c, reset);
    let tt = timing_text(t);
    assert(tt =~= high + c + low + c + ns + c + reset);
    lemma_ascii_concat(w, c);
    lemma_ascii_concat(w + c, h);
    lemma_ascii_concat(w + c + h, c);
    lemma_ascii_concat(w + c + h + c, l);
    let g = w + c + h + c + l;
    lemma_ascii_concat(g, k);
    lemma_ascii_concat(g + k, tt);
    lemma_ascii_concat(g + k + tt, c);
    lemma_ascii_concat(g + k + tt + c, p);
    lemma_ascii_concat(g + k + tt + c + p, k);
    lemma_ascii_concat(g + k + tt + c + p + k, on);
    lemma_ascii_concat(g + k + tt + c + p + k + on, k);
    lemma_ascii_concat(g + k + tt + c + p + k + on + k, off);
    assert(iled_text(m) =~= g + k + tt + c + p + k + on + k + off);
}

/// The text of the default configuration fits where it is stored.
pub proof fn lemma_default_text_fits()
    ensures
        1 <= encode_utf8(iled_text(default_model())).len() <= NVS_VALUE_MAX_LEN,
{
    reveal_with_fuel(depth_sum, 5);
    vstd::arithmetic::power2::lemma2_to64();
    let m = default_model();
    lemma_iled_text_len(m);
    lemma_decimal_len(m.width);
    lemma_decimal_len(m.height);
    lemma_decimal_len(m.timing.pattern_ns as nat);
    lemma_decimal_len(m.timing.reset_ns as nat);
    is_ascii_chars_encode_utf8(iled_text(m));
}

/// What blank fields name: every field's own default.
pub open spec fn blank_model() -> IledModel {
    IledModel {
        layout: ChainLayout {
            h_edge: HEdge::Left,
            v_edge: VEdge::Top,
            axis: Axis::Row,
            serpentine: false,
        },
        ..default_model()
    }
}

/// Blank fields, however many, name every default, and the text of that fits
/// where it is stored.
pub proof fn lemma_blank_fields(line: Seq<char>)
    requires
        forall|i: int| 0 <= i < line.len() ==> is_space(#[trigger] line[i]) || line[i] == ',',
    ensures
        iled_of(line) == Some(blank_model()),
        1 <= encode_utf8(iled_text(blank_model())).len() <= NVS_VALUE_MAX_LEN,
{
    let m = blank_model();
    let e = Seq::<char>::empty();
    let f = fields(line, ',');
    let g = fields(e, ':');
    lemma_blank_pieces(line, ',');
    assert(field(f, 0) =~= e && field(f, 1) =~= e && field(f, 2) =~= e && field(f, 3) =~= e);
    lemma_blank_pieces(e, ':');
    assert(field(g, 0) =~= e && field(g, 1) =~= e && field(g, 2) =~= e);
    vstd::arithmetic::power2::lemma2_to64();
    lemma_default_protocol();
    lemma_protocol_field(m);
    lemma_timing_roundtrip(m.timing);
    assert(pattern_of(pattern_text(m.channels)) == Some(m.channels)) by {
        reveal_with_fuel(depth_sum, 5);
        lemma_pattern_roundtrip(m.channels);
    }
    assert(color_of(e, (16, 0, 0, 0, 0)) == Some(m.on_color) && color_of(e, (0, 0, 0, 0, 0))
        == Some(m.off_color)) by {
        reveal(color_of);
    }
    assert(m.bits_per_led() % 8 == 0) by {
        reveal_with_fuel(depth_sum, 5);
    }
    assert(iled_of(line) == Some(m)) by {
        reveal(iled_of);
    }
    lemma_iled_of_wf(line);
    lemma_iled_text_len(m);
    lemma_decimal_len(m.width);
    lemma_decimal_len(m.height);
    lemma_decimal_len(m.timing.pattern_ns as nat);
    lemma_decimal_len(m.timing.reset_ns as nat);
    is_ascii_chars_encode_utf8(iled_text(m));
}

/// The protocol of the default chip is that of the default configuration.
proof fn lemma_default_protocol()
    ensures
        "1110:1000:1250:600:g8r8b8w8"@ == protocol_text(blank_model()),
{
    reveal_strlit("1110:1000:1250:600:g8r8b8w8");
    reveal_with_fuel(binary_text, 5);
    reveal_with_fuel(decimal, 4);
    reveal_with_fuel(pattern_text, 5);
    let t = blank_model().timing;
    assert(binary_text(14, 4) =~= seq!['1', '1', '1', '0']);
    assert(binary_text(8, 4) =~= seq!['1', '0', '0', '0']);
    assert(decimal(1250) =~= seq!['1', '2', '5', '0']);
    assert(decimal(600) =~= seq!['6', '0', '0']);
    assert(decimal(8) =~= seq!['8']);
    let c = blank_model().channels;
    assert(c.skip(1).skip(1).skip(1).skip(1).len() == 0);
    assert(pattern_text(c) =~= seq!['g', '8', 'r', '8', 'b', '8', 'w', '8']);
    assert("1110:1000:1250:600:g8r8b8w8"@ =~= protocol_text(blank_model()));
}

/// Whatever is read is within the bounds.
pub proof fn lemma_iled_of_wf(line: Seq<char>)
    ensures
        iled_of(line) matches Some(m) ==> m.wf(),
{
    reveal(iled_of);
    if iled_of(line) is Some {
        let f = fields(line, ',');
        let p = pieces(protocol_of(field(f, 1)), ':');
        lemma_binary_value_bound(p[0]);
        lemma_binary_value_bound(p[1]);
        lemma_entries_wf(p[4]);
    }
}

/// A width or a height: nothing and zero are one, a number is itself.
pub proof fn lemma_dimension_values(s: Seq<char>)
    ensures
        dimension(seq![]) == Some(1nat),
        s.len() > 0 ==> (dimension(s) is Some <==> number(s) is Some),
        s.len() > 0 && number(s) == Some(0nat) ==> dimension(s) == Some(1nat),
        s.len() > 0 && number(s) is Some && number(s) != Some(0nat) ==> dimension(s) == number(s),
{
}

/// What each field of a line is for. The parts are given as they are read from
/// a line: without white space, and without the separators.
pub proof fn lemma_line_parts(
    width: Seq<char>,
    height: Seq<char>,
    layout: Seq<char>,
    timing: (Seq<char>, Seq<char>, Seq<char>, Seq<char>),
    pattern: Seq<char>,
    on: Seq<char>,
    off: Seq<char>,
)
    requires
        part(width) && part(height) && part(layout),
        part(timing.0) && part(timing.1) && part(timing.2) && part(timing.3) && part(pattern),
        part(on) && part(off),
    ensures
        ({
            let c = seq![':'];
            let k = seq![','];
            let geometry = width + c + height + c + layout;
            let protocol = timing.0 + c + timing.1 + c + timing.2 + c + timing.3 + c + pattern;
            let line = geometry + k + protocol + k + on + k + off;
            let w = dimension(width);
            let h = dimension(height);
            let l = layout_of(layout);
            let t = timing_of(timing.0, timing.1, timing.2, timing.3);
            let p = pattern_of(pattern);
            let a = color_of(on, (16, 0, 0, 0, 0));
            let b = color_of(off, (0, 0, 0, 0, 0));
            &&& iled_of(line) is Some <==> {
                &&& w is Some && h is Some && l is Some && t is Some && p is Some
                &&& a is Some && b is Some
                &&& w->0 * h->0 <= 128
                &&& depth_sum(p->0) * (t->0).resolution % 8 == 0
            }
            &&& iled_of(line) matches Some(m) ==> {
                &&& w == Some(m.width)
                &&& h == Some(m.height)
                &&& l == Some(m.layout)
                &&& t == Some(m.timing)
                &&& p == Some(m.channels)
                &&& a == Some(m.on_color)
                &&& b == Some(m.off_color)
            }
        }),
{
    let c = seq![':'];
    let k = seq![','];
    let geometry = width + c + height + c + layout;
    let protocol = timing.0 + c + timing.1 + c + timing.2 + c + timing.3 + c + pattern;
    let line = geometry + k + protocol + k + on + k + off;
    // The geometry.
    assert(geometry =~= width + c + (height + c + layout));
    lemma_pieces_join(width, ':', height + c + layout);
    lemma_pieces_join(height, ':', layout);
    lemma_pieces_one(layout, ':');
    lemma_trimmed_plain(width);
    lemma_trimmed_plain(height);
    lemma_trimmed_plain(layout);
    assert(fields(geometry, ':') =~= seq![width, height, layout]);
    // The protocol.
    let d3 = timing.3 + c + pattern;
    let d2 = timing.2 + c + d3;
    let d1 = timing.1 + c + d2;
    assert(protocol =~= timing.0 + c + d1);
    lemma_pieces_join(timing.0, ':', d1);
    lemma_pieces_join(timing.1, ':', d2);
    lemma_pieces_join(timing.2, ':', d3);
    lemma_pieces_join(timing.3, ':', pattern);
    lemma_pieces_one(pattern, ':');
    assert(pieces(protocol, ':') =~= seq![timing.0, timing.1, timing.2, timing.3, pattern]);
    assert(protocol[timing.0.len() as int] == ':');
    lemma_no_chip_has_a_colon(protocol, timing.0.len() as int);
    // The line.
    lemma_parts_joined(geometry, width, height, layout);
    assert(no_space(protocol) && lacks(protocol, ',')) by {
        assert forall|i: int| 0 <= i < protocol.len() implies !is_space(#[trigger] protocol[i])
            && protocol[i] != ',' by {
            let n0 = timing.0.len() as int;
            let n1 = n0 + 1 + timing.1.len();
            let n2 = n1 + 1 + timing.2.len();
            let n3 = n2 + 1 + timing.3.len();
            if i < n0 {
                assert(protocol[i] == timing.0[i]);
            } else if n0 < i < n1 {
                assert(protocol[i] == timing.1[i - n0 - 1]);
            } else if n1 < i < n2 {
                assert(protocol[i] == timing.2[i - n1 - 1]);
            } else if n2 < i < n3 {
                assert(protocol[i] == timing.3[i - n2 - 1]);
            } else if n3 < i {
                assert(protocol[i] == pattern[i - n3 - 1]);
            } else {
                assert(protocol[i] == ':');
            }
        }
    }
    lemma_four_fields(geometry, protocol, on, off);
    reveal(iled_of);
}

/// Whether a text can stand for one part of a line.
pub open spec fn part(s: Seq<char>) -> bool {
    no_space(s) && lacks(s, ',') && lacks(s, ':')
}

proof fn lemma_parts_joined(s: Seq<char>, a: Seq<char>, b: Seq<char>, c: Seq<char>)
    requires
        s == a + seq![':'] + b + seq![':'] + c,
        part(a) && part(b) && part(c),
    ensures
        no_space(s),
        lacks(s, ','),
{
    assert forall|i: int| 0 <= i < s.len() implies !is_space(#[trigger] s[i]) && s[i] != ',' by {
        if i < a.len() {
            assert(s[i] == a[i]);
        } else if a.len() < i < a.len() + 1 + b.len() {
            assert(s[i] == b[i - a.len() - 1]);
        } else if i > a.len() + 1 + b.len() {
            assert(s[i] == c[i - a.len() - b.len() - 2]);
        } else {
            assert(s[i] == ':');
        }
    }
}

/// The default is the line "1:1:i" with every other field blank: what blank
/// fields name, and serpentine.
pub proof fn lemma_default_is_serpentine_blank()
    ensures
        default_model().width == 1 && default_model().height == 1,
        default_model().layout == (ChainLayout { serpentine: true, ..blank_model().layout }),
        layout_of(seq![]) == Some(blank_model().layout),
        layout_of(seq!['i']) == Some(default_model().layout),
        color_of(seq![], default_model().on_color) == Some(default_model().on_color),
        default_model().on_color == (16u8, 0u8, 0u8, 0u8, 0u8),
        default_model().off_color == (0u8, 0u8, 0u8, 0u8, 0u8),
        iled_of(seq![]) == Some(
            IledModel { layout: blank_model().layout, ..default_model() },
        ),
{
    lemma_blank_fields(seq![]);
    crate::color::lemma_color_defaults(seq![], default_model().on_color);
    let s = seq!['i'];
    assert(s[0] == 'i');
}

/// A protocol field that is empty stands for the default chip, one that names
/// a chip for that chip's protocol, and any other for itself, such as every
/// one that is a protocol already.
pub proof fn lemma_protocol_stands_for(s: Seq<char>)
    ensures
        Some(protocol_of(seq![])) == chip_protocol("ws2816b_rgbw"@),
        chip_protocol(s) is Some <==> s == "ws2816"@ || s == "ws2816b"@ || s == "ws2816b_rgbw"@,
        chip_protocol(s) matches Some(p) ==> protocol_of(s) == p,
        s.len() > 0 && chip_protocol(s) is None ==> protocol_of(s) == s,
        !lacks(s, ':') ==> protocol_of(s) == s,
{
    reveal_strlit("ws2816");
    reveal_strlit("ws2816b");
    reveal_strlit("ws2816b_rgbw");
    assert("ws2816"@.len() == 6);
    assert("ws2816b"@.len() == 7);
    assert("ws2816b_rgbw"@.len() == 12);
    assert(lacks("ws2816"@, ':') && lacks("ws2816b"@, ':') && lacks("ws2816b_rgbw"@, ':'));
}

} // verus!
