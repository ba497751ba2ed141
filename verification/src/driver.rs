//! How an output driver's pixels map into the framebuffer.

use crate::clock::now_secs;
use crate::global::Global;
use crate::nodem::mapping_of;
use crate::text::{
    decimal, fields, lacks, lemma_ascii_concat, lemma_concat_chars, lemma_decimal_ascii,
    lemma_decimal_chars, lemma_decimal_len, lemma_number_of_decimal, lemma_pieces_join,
    lemma_pieces_one, lemma_signed_decimal_ascii, lemma_signed_decimal_chars,
    lemma_signed_number_of_decimal, lemma_trimmed_plain, no_space, number, parse_i16, parse_number,
    pieces, push_number, push_signed, same, signed_decimal, signed_number, split_trimmed,
};
use vstd::prelude::*;
use vstd::utf8::*;

verus! {

broadcast use vstd::string::group_string_axioms;

/// How many device mappings a configuration holds at most.
pub const MAX_DEVICES: usize = 4;

/// The output drivers that a mapping can name.
#[derive(Clone, Copy, PartialEq, Eq, Debug, Structural)]
pub enum DriverKind {
    Iled,
    Oled,
}

/// The driver that a text names.
pub open spec fn driver_of(s: Seq<char>) -> Option<DriverKind> {
    if s == "iled"@ {
        Some(DriverKind::Iled)
    } else if s == "oled"@ {
        Some(DriverKind::Oled)
    } else {
        None
    }
}

/// The name of a driver.
pub open spec fn driver_name(d: DriverKind) -> Seq<char> {
    match d {
        DriverKind::Iled => "iled"@,
        DriverKind::Oled => "oled"@,
    }
}

impl DriverKind {
    /// The driver of that name.
    pub fn parse(s: &str) -> (r: Option<Self>)
        ensures
            r == driver_of(s@),
    {
        if same(s, "iled") {
            Some(DriverKind::Iled)
        } else if same(s, "oled") {
            Some(DriverKind::Oled)
        } else {
            None
        }
    }

    /// The inverse of `parse`.
    pub fn name(self) -> (r: &'static str)
        ensures
            r@ == driver_name(self),
    {
        match self {
            DriverKind::Iled => "iled",
            DriverKind::Oled => "oled",
        }
    }
}

/// Where a driver's output sits in the framebuffer: which part of it shows,
/// in framebuffer pixels, and how many driver pixels one framebuffer pixel
/// covers. A framebuffer that is smaller than the output, once scaled, is
/// centered on it.
#[derive(Clone, Copy, PartialEq, Eq, Debug, Structural)]
pub struct DeviceMapping {
    pub driver: DriverKind,
    pub x: i16,
    pub y: i16,
    pub scale_x: u8,
    pub scale_y: u8,
}

/// The mapping that a text of `<driver>:<x>:<y>:<scale_x>:<scale_y>` names.
pub open spec fn device_of(s: Seq<char>) -> Option<DeviceMapping> {
    let f = fields(s, ':');
    if f.len() != 5 {
        None
    } else {
        match (
            driver_of(f[0]),
            signed_number(f[1]),
            signed_number(f[2]),
            number(f[3]),
            number(f[4]),
        ) {
            (Some(driver), Some(x), Some(y), Some(scale_x), Some(scale_y)) => if i16::MIN <= x
                <= i16::MAX && i16::MIN <= y <= i16::MAX && 1 <= scale_x <= u8::MAX && 1 <= scale_y
                <= u8::MAX {
                Some(
                    DeviceMapping {
                        driver,
                        x: x as i16,
                        y: y as i16,
                        scale_x: scale_x as u8,
                        scale_y: scale_y as u8,
                    },
                )
            } else {
                None
            },
            _ => None,
        }
    }
}

/// The text of a mapping.
pub open spec fn device_text(d: DeviceMapping) -> Seq<char> {
    driver_name(d.driver) + seq![':'] + signed_decimal(d.x as int) + seq![':'] + signed_decimal(
        d.y as int,
    ) + seq![':'] + decimal(d.scale_x as nat) + seq![':'] + decimal(d.scale_y as nat)
}

impl DeviceMapping {
    /// A scale of 0 covers nothing.
    pub open spec fn wf(self) -> bool {
        self.scale_x >= 1 && self.scale_y >= 1
    }

    /// `None` for anything but exactly five fields, an unknown driver, or a
    /// scale of 0.
    pub fn parse(s: &str) -> (r: Option<Self>)
        ensures
            r == device_of(s@),
    {
        let f: Vec<&str> = split_trimmed(s, ':');
        if f.len() != 5 {
            return None;
        }
        let driver: DriverKind = match DriverKind::parse(f[0]) {
            Some(d) => d,
            None => {
                return None;
            },
        };
        let x: i16 = match parse_i16(f[1]) {
            Some(n) => n,
            None => {
                return None;
            },
        };
        let y: i16 = match parse_i16(f[2]) {
            Some(n) => n,
            None => {
                return None;
            },
        };
        let scale_x: u8 = match parse_number(f[3], 255) {
            Some(n) => n as u8,
            None => {
                return None;
            },
        };
        let scale_y: u8 = match parse_number(f[4], 255) {
            Some(n) => n as u8,
            None => {
                return None;
            },
        };
        if scale_x == 0 || scale_y == 0 {
            return None;
        }
        Some(DeviceMapping { driver, x, y, scale_x, scale_y })
    }

    /// The inverse of `parse`.
    pub fn to_nvs_string(&self) -> (r: String)
        ensures
            r@ == device_text(*self),
    {
        let mut out: String = String::new();
        proof {
            reveal_strlit(":");
            assert(":"@ =~= seq![':']);
        }
        out.append(self.driver.name());
        out.append(":");
        push_signed(&mut out, self.x as i64);
        out.append(":");
        push_signed(&mut out, self.y as i64);
        out.append(":");
        push_number(&mut out, self.scale_x as u64);
        out.append(":");
        push_number(&mut out, self.scale_y as u64);
        proof {
            assert(out@ =~= device_text(*self));
        }
        out
    }
}

// ---------------------------------------------------------------------------
// Views
// ---------------------------------------------------------------------------

/// How far a framebuffer of `fb` pixels starts from the edge of an output of
/// `size` pixels: half of what it leaves, if it leaves anything.
pub open spec fn margin(size: int, fb: int, scale: int) -> int {
    if size > fb * scale {
        (size - fb * scale) / 2
    } else {
        0
    }
}

/// Which framebuffer place output pixel `d` shows, along one axis.
pub open spec fn source(d: int, size: int, fb: int, scale: int, shift: int) -> int {
    shift + (d - margin(size, fb, scale)) / scale
}

/// Whether a pixel is on the edge of an output.
pub open spec fn on_edge(x: int, y: int, width: int, height: int) -> bool {
    x == 0 || y == 0 || x == width - 1 || y == height - 1
}

/// The frame that an output without a mapping shows: every other pixel along
/// its edge, which ones depends on `phase`.
pub open spec fn dotted(x: int, y: int, width: int, height: int, phase: int) -> bool {
    on_edge(x, y, width, height) && (x + y + phase) % 2 == 0
}

/// One frame of what a driver shows, `width` times `height` of its own pixels.
pub struct DriverView<'a> {
    pub g: &'a Global,
    pub mapping: Option<DeviceMapping>,
    pub width: usize,
    pub height: usize,
    /// 0 or 1, changing once a second.
    pub phase: usize,
}

impl<'a> DriverView<'a> {
    pub open spec fn wf(self) -> bool {
        &&& self.g.wf()
        &&& self.mapping matches Some(m) ==> m.wf()
        &&& self.phase < 2
    }

    /// Whether output pixel `(x, y)` is lit.
    pub open spec fn lit(self, x: int, y: int) -> bool {
        if !(0 <= x < self.width && 0 <= y < self.height) {
            false
        } else {
            match self.mapping {
                Some(m) => {
                    let c = self.g.nodem_config@;
                    self.g.pixel(
                        source(
                            x,
                            self.width as int,
                            c.width as int,
                            m.scale_x as int,
                            m.x as int,
                        ),
                        source(
                            y,
                            self.height as int,
                            c.height as int,
                            m.scale_y as int,
                            m.y as int,
                        ),
                    )
                },
                None => dotted(
                    x,
                    y,
                    self.width as int,
                    self.height as int,
                    self.phase as int,
                ),
            }
        }
    }

    /// What `driver` shows now.
    pub fn new(g: &'a Global, driver: DriverKind, width: usize, height: usize) -> (r: Self)
        requires
            g.wf(),
        ensures
            r.wf(),
            r.g == g,
            r.mapping == mapping_of(g.nodem_config@.devices, driver),
            r.width == width,
            r.height == height,
    {
        Self::at(g, driver, width, height, now_secs())
    }

    /// What `driver` shows `secs` seconds after the start.
    pub fn at(
        g: &'a Global,
        driver: DriverKind,
        width: usize,
        height: usize,
        secs: u64,
    ) -> (r: Self)
        requires
            g.wf(),
        ensures
            r.wf(),
            r.g == g,
            r.mapping == mapping_of(g.nodem_config@.devices, driver),
            r.width == width,
            r.height == height,
            r.phase == secs % 2,
    {
        proof {
            lemma_mapping_listed(g.nodem_config@.devices, driver);
        }
        DriverView {
            g,
            mapping: g.nodem_config.mapping(driver),
            width,
            height,
            phase: (secs % 2) as usize,
        }
    }

    /// Whether output pixel `(x, y)` is lit. Along each axis the framebuffer,
    /// scaled, is centered where it is smaller than the output, and starts at
    /// the edge where it is not; then it is shifted.
    pub fn pixel(&self, x: usize, y: usize) -> (r: bool)
        requires
            self.wf(),
        ensures
            r == self.lit(x as int, y as int),
    {
        if x >= self.width || y >= self.height {
            return false;
        }
        match self.mapping {
            Some(m) => {
                let sx: Option<i32> = place(x, self.width, self.g.nodem_config.width, m.scale_x, m.x);
                let sy: Option<i32> = place(
                    y,
                    self.height,
                    self.g.nodem_config.height,
                    m.scale_y,
                    m.y,
                );
                match (sx, sy) {
                    (Some(a), Some(b)) => self.g.display_pixel(a, b),
                    _ => false,
                }
            },
            None => self.fallback_pixel(x, y),
        }
    }

    /// The dotted frame of an output that has no mapping.
    fn fallback_pixel(&self, x: usize, y: usize) -> (r: bool)
        requires
            x < self.width,
            y < self.height,
            self.phase < 2,
        ensures
            r == dotted(
                x as int,
                y as int,
                self.width as int,
                self.height as int,
                self.phase as int,
            ),
    {
        let edge: bool = x == 0 || y == 0 || x == self.width - 1 || y == self.height - 1;
        edge && (x % 2 + y % 2 + self.phase) % 2 == 0
    }
}

/// `source`, where it is a place of the framebuffer; `None` where it is not.
fn place(d: usize, size: usize, fb: u16, scale: u8, shift: i16) -> (r: Option<i32>)
    requires
        d < size,
        scale >= 1,
        fb >= 1,
    ensures
        ({
            let s = source(d as int, size as int, fb as int, scale as int, shift as int);
            if 0 <= s < fb {
                r == Some(s as i32)
            } else {
                r is None
            }
        }),
{
    proof {
        assert(0 <= fb * scale <= 65535 * 255) by (nonlinear_arith)
            requires
                fb <= 65535,
                scale <= 255,
        ;
    }
    let covered: u64 = fb as u64 * scale as u64;
    let size: u64 = size as u64;
    let d: u64 = d as u64;
    let scale: u64 = scale as u64;
    let start: u64 = if size > covered {
        (size - covered) / 2
    } else {
        0
    };
    let back: bool = d < start;
    // How many framebuffer pixels before or behind the start, rounded down.
    let steps: u64 = if back {
        (start - d - 1) / scale + 1
    } else {
        (d - start) / scale
    };
    proof {
        lemma_steps(d as int, start as int, scale as int);
    }
    let s: i128 = if back {
        shift as i128 - steps as i128
    } else {
        shift as i128 + steps as i128
    };
    if 0 <= s && s < fb as i128 {
        Some(s as i32)
    } else {
        None
    }
}

/// Division rounded down, on both sides of zero.
proof fn lemma_steps(d: int, start: int, scale: int)
    requires
        scale >= 1,
    ensures
        d < start ==> (d - start) / scale == -((start - d - 1) / scale + 1),
        d < start ==> 0 <= (start - d - 1) / scale <= start - d - 1,
        d >= start ==> 0 <= (d - start) / scale <= d - start,
{
    if d < start {
        let n = start - d - 1;
        let q = n / scale;
        let r = n % scale;
        vstd::arithmetic::div_mod::lemma_fundamental_div_mod(n, scale);
        vstd::arithmetic::div_mod::lemma_mod_bound(n, scale);
        vstd::arithmetic::div_mod::lemma_div_pos_is_pos(n, scale);
        vstd::arithmetic::div_mod::lemma_div_nonincreasing(n, scale);
        assert(d - start == (-(q + 1)) * scale + (scale - 1 - r)) by (nonlinear_arith)
            requires
                n == scale * q + r,
                n == start - d - 1,
        ;
        vstd::arithmetic::div_mod::lemma_fundamental_div_mod_converse(
            d - start,
            scale,
            -(q + 1),
            scale - 1 - r,
        );
    } else {
        vstd::arithmetic::div_mod::lemma_div_pos_is_pos(d - start, scale);
        vstd::arithmetic::div_mod::lemma_div_nonincreasing(d - start, scale);
    }
}

// ---------------------------------------------------------------------------
// Laws
// ---------------------------------------------------------------------------

/// Each framebuffer pixel covers `scale` output pixels next to each other:
/// the one at `k`, counted from the shift, those from `k * scale` behind the
/// margin on.
pub proof fn lemma_scale_covers(d: int, size: int, fb: int, scale: int, shift: int, k: int)
    requires
        scale >= 1,
    ensures
        source(d, size, fb, scale, shift) == shift + k <==> margin(size, fb, scale) + k * scale <= d
            < margin(size, fb, scale) + (k + 1) * scale,
{
    let e = d - margin(size, fb, scale);
    vstd::arithmetic::div_mod::lemma_fundamental_div_mod(e, scale);
    vstd::arithmetic::div_mod::lemma_mod_bound(e, scale);
    let q = e / scale;
    assert((k + 1) * scale == k * scale + scale) by (nonlinear_arith);
    vstd::arithmetic::mul::lemma_mul_is_commutative(scale, q);
    if k * scale <= e < k * scale + scale {
        vstd::arithmetic::div_mod::lemma_fundamental_div_mod_converse(e, scale, k, e - k * scale);
    }
}

/// Without a shift, a framebuffer smaller than the output shows whole, with
/// margins on both sides that differ by at most a pixel; nothing shows in
/// them.
pub proof fn lemma_centered(d: int, size: int, fb: int, scale: int)
    requires
        scale >= 1,
        fb >= 1,
        fb * scale <= size,
    ensures
        ({
            let m = margin(size, fb, scale);
            let behind = size - fb * scale - m;
            &&& m <= behind <= m + 1
            &&& 0 <= source(d, size, fb, scale, 0) < fb <==> m <= d < m + fb * scale
        }),
{
    let m = margin(size, fb, scale);
    let e = d - m;
    vstd::arithmetic::div_mod::lemma_fundamental_div_mod(e, scale);
    vstd::arithmetic::div_mod::lemma_mod_bound(e, scale);
    let q = e / scale;
    assert(0 <= q < fb <==> 0 <= e < fb * scale) by (nonlinear_arith)
        requires
            e == scale * q + e % scale,
            0 <= e % scale < scale,
            fb >= 1,
            scale >= 1,
    ;
}

/// A framebuffer at least as large as the output starts at its edge.
pub proof fn lemma_starts_at_edge(size: int, fb: int, scale: int, shift: int)
    requires
        scale >= 1,
        fb * scale >= size,
    ensures
        source(0, size, fb, scale, shift) == shift,
{
    vstd::arithmetic::div_mod::lemma_div_basics(scale);
}

/// Every second, exactly the other half of the edge is lit. Nothing else ever
/// is.
pub proof fn lemma_dots_alternate(x: int, y: int, width: int, height: int)
    ensures
        on_edge(x, y, width, height) ==> dotted(x, y, width, height, 0) != dotted(
            x,
            y,
            width,
            height,
            1,
        ),
        !on_edge(x, y, width, height) ==> !dotted(x, y, width, height, 0) && !dotted(
            x,
            y,
            width,
            height,
            1,
        ),
{
}

/// Of two edge pixels side by side, or one above the other, exactly one is
/// lit.
pub proof fn lemma_dots_neighbours(
    x: int,
    y: int,
    dx: int,
    dy: int,
    width: int,
    height: int,
    phase: int,
)
    requires
        on_edge(x, y, width, height),
        on_edge(x + dx, y + dy, width, height),
        (dx == 0 && (dy == 1 || dy == -1)) || (dy == 0 && (dx == 1 || dx == -1)),
    ensures
        dotted(x, y, width, height, phase) != dotted(x + dx, y + dy, width, height, phase),
{
}

/// The mapping that a driver gets is one of the list's, and its own.
pub proof fn lemma_mapping_listed(devices: Seq<DeviceMapping>, driver: DriverKind)
    requires
        forall|i: int| 0 <= i < devices.len() ==> (#[trigger] devices[i]).wf(),
    ensures
        mapping_of(devices, driver) matches Some(m) ==> m.wf() && m.driver == driver
            && devices.contains(m),
    decreases devices.len(),
{
    if devices.len() > 0 {
        if devices[0].driver != driver {
            let rest = devices.skip(1);
            assert forall|i: int| 0 <= i < rest.len() implies (#[trigger] rest[i]).wf() by {
                assert(rest[i] == devices[i + 1]);
            }
            lemma_mapping_listed(rest, driver);
            if let Some(m) = mapping_of(rest, driver) {
                let i = choose|i: int| 0 <= i < rest.len() && rest[i] == m;
                assert(devices[i + 1] == m);
            }
        } else {
            assert(devices[0].wf());
        }
    }
}

/// What a mapping's text is made of.
pub proof fn lemma_device_text_chars(d: DeviceMapping)
    ensures
        no_space(device_text(d)),
        lacks(device_text(d), ','),
        lacks(driver_name(d.driver), ':'),
        no_space(driver_name(d.driver)),
        driver_name(d.driver).len() == 4,
{
    reveal_strlit("iled");
    reveal_strlit("oled");
    let n = driver_name(d.driver);
    let c = seq![':'];
    let x = signed_decimal(d.x as int);
    let y = signed_decimal(d.y as int);
    let sx = decimal(d.scale_x as nat);
    let sy = decimal(d.scale_y as nat);
    lemma_signed_decimal_chars(d.x as int);
    lemma_signed_decimal_chars(d.y as int);
    lemma_decimal_chars(d.scale_x as nat);
    lemma_decimal_chars(d.scale_y as nat);
    lemma_concat_chars(n, c, ',');
    lemma_concat_chars(n + c, x, ',');
    lemma_concat_chars(n + c + x, c, ',');
    lemma_concat_chars(n + c + x + c, y, ',');
    lemma_concat_chars(n + c + x + c + y, c, ',');
    lemma_concat_chars(n + c + x + c + y + c, sx, ',');
    lemma_concat_chars(n + c + x + c + y + c + sx, c, ',');
    lemma_concat_chars(n + c + x + c + y + c + sx + c, sy, ',');
}

/// A mapping reads back from its text.
pub proof fn lemma_device_roundtrip(d: DeviceMapping)
    requires
        d.wf(),
    ensures
        device_of(device_text(d)) == Some(d),
{
    let n = driver_name(d.driver);
    let c = seq![':'];
    let x = signed_decimal(d.x as int);
    let y = signed_decimal(d.y as int);
    let sx = decimal(d.scale_x as nat);
    let sy = decimal(d.scale_y as nat);
    let s = device_text(d);
    lemma_device_text_chars(d);
    lemma_signed_decimal_chars(d.x as int);
    lemma_signed_decimal_chars(d.y as int);
    lemma_decimal_chars(d.scale_x as nat);
    lemma_decimal_chars(d.scale_y as nat);
    let r3 = sx + c + sy;
    let r2 = y + c + r3;
    let r1 = x + c + r2;
    assert(s =~= n + c + r1);
    lemma_pieces_join(n, ':', r1);
    lemma_pieces_join(x, ':', r2);
    lemma_pieces_join(y, ':', r3);
    lemma_pieces_join(sx, ':', sy);
    lemma_pieces_one(sy, ':');
    assert(pieces(s, ':') =~= seq![n, x, y, sx, sy]);
    lemma_trimmed_plain(n);
    lemma_trimmed_plain(x);
    lemma_trimmed_plain(y);
    lemma_trimmed_plain(sx);
    lemma_trimmed_plain(sy);
    assert(fields(s, ':') =~= seq![n, x, y, sx, sy]);
    lemma_signed_number_of_decimal(d.x as int);
    lemma_signed_number_of_decimal(d.y as int);
    lemma_number_of_decimal(d.scale_x as nat);
    lemma_number_of_decimal(d.scale_y as nat);
    reveal_strlit("iled");
    reveal_strlit("oled");
    assert("iled"@[0] != "oled"@[0]);
}

/// How long a mapping's text is.
pub proof fn lemma_device_text_fits(d: DeviceMapping)
    ensures
        is_ascii_chars(device_text(d)),
        device_text(d).len() <= 26,
{
    reveal_strlit("iled");
    reveal_strlit("oled");
    let n = driver_name(d.driver);
    let c = seq![':'];
    let x = signed_decimal(d.x as int);
    let y = signed_decimal(d.y as int);
    let sx = decimal(d.scale_x as nat);
    let sy = decimal(d.scale_y as nat);
    lemma_i16_len(d.x);
    lemma_i16_len(d.y);
    lemma_decimal_len(d.scale_x as nat);
    lemma_decimal_len(d.scale_y as nat);
    lemma_signed_decimal_ascii(d.x as int);
    lemma_signed_decimal_ascii(d.y as int);
    lemma_decimal_ascii(d.scale_x as nat);
    lemma_decimal_ascii(d.scale_y as nat);
    lemma_ascii_concat(n, c);
    lemma_ascii_concat(n + c, x);
    lemma_ascii_concat(n + c + x, c);
    lemma_ascii_concat(n + c + x + c, y);
    lemma_ascii_concat(n + c + x + c + y, c);
    lemma_ascii_concat(n + c + x + c + y + c, sx);
    lemma_ascii_concat(n + c + x + c + y + c + sx, c);
    lemma_ascii_concat(n + c + x + c + y + c + sx + c, sy);
}

proof fn lemma_i16_len(n: i16)
    ensures
        signed_decimal(n as int).len() <= 6,
{
    if n < 0 {
        lemma_decimal_len((-n) as nat);
    } else {
        lemma_decimal_len(n as nat);
    }
}

/// What the five fields of a mapping are for, and which are accepted. They are
/// given without white space and separators.
pub proof fn lemma_device_parts(
    driver: Seq<char>,
    x: Seq<char>,
    y: Seq<char>,
    scale_x: Seq<char>,
    scale_y: Seq<char>,
)
    requires
        no_space(driver) && lacks(driver, ':'),
        no_space(x) && lacks(x, ':'),
        no_space(y) && lacks(y, ':'),
        no_space(scale_x) && lacks(scale_x, ':'),
        no_space(scale_y) && lacks(scale_y, ':'),
    ensures
        ({
            let c = seq![':'];
            let s = driver + c + x + c + y + c + scale_x + c + scale_y;
            &&& device_of(s) is Some <==> {
                &&& driver == "iled"@ || driver == "oled"@
                &&& signed_number(x) matches Some(n) && -32768 <= n <= 32767
                &&& signed_number(y) matches Some(n) && -32768 <= n <= 32767
                &&& number(scale_x) matches Some(n) && 1 <= n <= 255
                &&& number(scale_y) matches Some(n) && 1 <= n <= 255
            }
            &&& device_of(s) matches Some(d) ==> {
                &&& driver == "iled"@ ==> d.driver == DriverKind::Iled
                &&& driver == "oled"@ ==> d.driver == DriverKind::Oled
                &&& signed_number(x) == Some(d.x as int)
                &&& signed_number(y) == Some(d.y as int)
                &&& number(scale_x) == Some(d.scale_x as nat)
                &&& number(scale_y) == Some(d.scale_y as nat)
            }
        }),
{
    let c = seq![':'];
    let s = driver + c + x + c + y + c + scale_x + c + scale_y;
    let r3 = scale_x + c + scale_y;
    let r2 = y + c + r3;
    let r1 = x + c + r2;
    assert(s =~= driver + c + r1);
    lemma_pieces_join(driver, ':', r1);
    lemma_pieces_join(x, ':', r2);
    lemma_pieces_join(y, ':', r3);
    lemma_pieces_join(scale_x, ':', scale_y);
    lemma_pieces_one(scale_y, ':');
    lemma_trimmed_plain(driver);
    lemma_trimmed_plain(x);
    lemma_trimmed_plain(y);
    lemma_trimmed_plain(scale_x);
    lemma_trimmed_plain(scale_y);
    assert(fields(s, ':') =~= seq![driver, x, y, scale_x, scale_y]);
    reveal_strlit("iled");
    reveal_strlit("oled");
    assert("iled"@[0] != "oled"@[0]);
}

/// How far a picture of `fb` pixels, each `scale` wide, starts from the edge of
/// an output of `size`: half of what is left, and nothing where none is.
pub open spec fn gap(size: int, fb: int, scale: int) -> int {
    if fb * scale >= size {
        0
    } else {
        (size - fb * scale) / 2
    }
}

/// Framebuffer pixel `(u, v)`, counted from where the mapping's shift puts the
/// first one, covers `scale_x` by `scale_y` output pixels, side by side with
/// its neighbours', from the picture's own corner on.
pub proof fn lemma_pixels_are_blocks<'a>(view: DriverView<'a>, u: int, v: int, i: int, j: int)
    requires
        view.wf(),
        view.mapping is Some,
        0 <= i < (view.mapping->0).scale_x,
        0 <= j < (view.mapping->0).scale_y,
        ({
            let m = view.mapping->0;
            let x = gap(
                view.width as int,
                view.g.nodem_config.width as int,
                m.scale_x as int,
            ) + u * m.scale_x + i;
            let y = gap(
                view.height as int,
                view.g.nodem_config.height as int,
                m.scale_y as int,
            ) + v * m.scale_y + j;
            &&& 0 <= x < view.width
            &&& 0 <= y < view.height
        }),
    ensures
        ({
            let m = view.mapping->0;
            let x = gap(
                view.width as int,
                view.g.nodem_config.width as int,
                m.scale_x as int,
            ) + u * m.scale_x + i;
            let y = gap(
                view.height as int,
                view.g.nodem_config.height as int,
                m.scale_y as int,
            ) + v * m.scale_y + j;
            view.lit(x, y) == view.g.pixel(u + m.x, v + m.y)
        }),
{
    let m = view.mapping->0;
    vstd::arithmetic::div_mod::lemma_fundamental_div_mod_converse(
        u * m.scale_x + i,
        m.scale_x as int,
        u,
        i,
    );
    vstd::arithmetic::div_mod::lemma_fundamental_div_mod_converse(
        v * m.scale_y + j,
        m.scale_y as int,
        v,
        j,
    );
}

/// Nothing is lit outside an output.
pub proof fn lemma_dark_outside<'a>(view: DriverView<'a>, x: int, y: int)
    requires
        x < 0 || y < 0 || x >= view.width || y >= view.height,
    ensures
        !view.lit(x, y),
{
}

/// An output without a mapping shows every other pixel of its outermost rows
/// and columns, from its first corner on in the even seconds, and none within.
pub proof fn lemma_unmapped_frame<'a>(view: DriverView<'a>, x: int, y: int)
    requires
        view.mapping is None,
        0 <= x < view.width,
        0 <= y < view.height,
    ensures
        ({
            let inside = 1 <= x && x + 2 <= view.width && 1 <= y && y + 2 <= view.height;
            view.lit(x, y) <==> !inside && (x + y) % 2 == (view.phase as int) % 2
        }),
{
}

} // verus!
