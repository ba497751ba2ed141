//! The SSD1306 display: its configuration, its pages, and how a flush that
//! fails is tried again.
use crate::text::{
    decimal, fields, lacks, lemma_ascii_concat, lemma_concat_chars, lemma_decimal_ascii,
    lemma_decimal_chars, lemma_decimal_len, lemma_number_of_decimal, lemma_pieces_join,
    lemma_pieces_one, lemma_trimmed_plain, no_space, number, parse_number, pieces, push_number,
    same, split_trimmed, texts,
};
use vstd::prelude::*;
use vstd::utf8::*;

verus! {

broadcast use vstd::string::group_string_axioms;

/// The NVS namespace of the output drivers' configurations.
pub const NVS_NAMESPACE: &'static str = "drivers";

pub const NVS_KEY_CONFIG: &'static str = "oled";

/// How long a stored configuration may be; every configuration's text fits.
pub const NVS_VALUE_MAX_LEN: usize = 63;

/// The columns of the controller's memory.
pub const MAX_WIDTH: u8 = 128;

/// The rows of the controller's memory.
pub const MAX_HEIGHT: u8 = 64;

/// How the picture is turned on the panel.
#[derive(Clone, Copy, PartialEq, Eq, Debug, Structural)]
pub enum Rotation {
    Rotate0,
    Rotate90,
    Rotate180,
    Rotate270,
}

/// The size of a panel, where it sits in the controller's memory, and how the
/// picture is turned on it.
#[derive(Clone, Copy, PartialEq, Eq, Debug, Structural)]
pub struct OledConfig {
    pub width: u8,
    pub height: u8,
    pub x: u8,
    pub y: u8,
    pub rotation: Rotation,
}

impl Rotation {
    /// The angle in degrees.
    pub open spec fn angle(self) -> nat {
        match self {
            Rotation::Rotate0 => 0,
            Rotation::Rotate90 => 90,
            Rotation::Rotate180 => 180,
            Rotation::Rotate270 => 270,
        }
    }

    /// The angle in degrees.
    pub fn degrees(self) -> (r: u16)
        ensures
            r == self.angle(),
    {
        match self {
            Rotation::Rotate0 => 0,
            Rotation::Rotate90 => 90,
            Rotation::Rotate180 => 180,
            Rotation::Rotate270 => 270,
        }
    }
}

/// The configuration that `OledConfig::default` makes.
pub open spec fn default_oled() -> OledConfig {
    OledConfig { width: 128, height: 64, x: 0, y: 0, rotation: Rotation::Rotate0 }
}

impl Default for OledConfig {
    fn default() -> (r: Self)
        ensures
            r == default_oled(),
            r.wf(),
    {
        OledConfig { width: 128, height: 64, x: 0, y: 0, rotation: Rotation::Rotate0 }
    }
}

/// The rotation of an angle.
pub open spec fn rotation_of(angle: nat) -> Option<Rotation> {
    if angle == 0 {
        Some(Rotation::Rotate0)
    } else if angle == 90 {
        Some(Rotation::Rotate90)
    } else if angle == 180 {
        Some(Rotation::Rotate180)
    } else if angle == 270 {
        Some(Rotation::Rotate270)
    } else {
        None
    }
}

/// The panel that the fields behind the protocol name:
/// `<width>:<height>:<x>:<y>[:<rotation>]`.
pub open spec fn panel_of(f: Seq<Seq<char>>) -> Option<OledConfig> {
    if f.len() != 5 && f.len() != 6 {
        None
    } else {
        let angle = if f.len() == 6 {
            number(f[5])
        } else {
            Some(0)
        };
        match (number(f[1]), number(f[2]), number(f[3]), number(f[4]), angle) {
            (Some(width), Some(height), Some(x), Some(y), Some(a)) => if width >= 1 && height >= 1
                && x + width <= MAX_WIDTH && y + height <= MAX_HEIGHT && rotation_of(a) is Some {
                Some(
                    OledConfig {
                        width: width as u8,
                        height: height as u8,
                        x: x as u8,
                        y: y as u8,
                        rotation: rotation_of(a)->0,
                    },
                )
            } else {
                None
            },
            _ => None,
        }
    }
}

/// What a stored or given value says: a panel, or `None` to switch the display
/// off, which every protocol but "ssd1306" does. `Err` where an "ssd1306"
/// value names no panel.
pub open spec fn oled_of(s: Seq<char>) -> Result<Option<OledConfig>, ()> {
    let f = fields(s, ':');
    if f[0] != "ssd1306"@ {
        Ok(None)
    } else {
        match panel_of(f) {
            Some(c) => Ok(Some(c)),
            None => Err(()),
        }
    }
}

/// The text of a configuration.
pub open spec fn oled_text(c: OledConfig) -> Seq<char> {
    "ssd1306"@ + seq![':'] + decimal(c.width as nat) + seq![':'] + decimal(c.height as nat) + seq![
        ':',
    ] + decimal(c.x as nat) + seq![':'] + decimal(c.y as nat) + seq![':'] + decimal(
        c.rotation.angle(),
    )
}

/// Reads one number of at most 65535.
fn parse_field(s: &str) -> (r: Option<u16>)
    ensures
        match r {
            Some(n) => number(s@) == Some(n as nat),
            None => number(s@) matches Some(n) ==> n > 65535,
        },
{
    match parse_number(s, 65535) {
        Some(n) => Some(n as u16),
        None => None,
    }
}

/// The rotation of an angle.
fn parse_rotation(angle: u16) -> (r: Option<Rotation>)
    ensures
        r == rotation_of(angle as nat),
{
    match angle {
        0 => Some(Rotation::Rotate0),
        90 => Some(Rotation::Rotate90),
        180 => Some(Rotation::Rotate180),
        270 => Some(Rotation::Rotate270),
        _ => None,
    }
}

/// What `panel_of` says, computed.
fn parse_panel(f: &Vec<&str>) -> (r: Option<OledConfig>)
    ensures
        r == panel_of(texts(f@)),
{
    if f.len() != 5 && f.len() != 6 {
        return None;
    }
    let angle: Option<u16> = if f.len() == 6 {
        parse_field(f[5])
    } else {
        Some(0)
    };
    match (parse_field(f[1]), parse_field(f[2]), parse_field(f[3]), parse_field(f[4]), angle) {
        (Some(width), Some(height), Some(x), Some(y), Some(a)) => {
            if width < 1 || height < 1 || x as u32 + width as u32 > MAX_WIDTH as u32 || y as u32
                + height as u32 > MAX_HEIGHT as u32 {
                return None;
            }
            match parse_rotation(a) {
                Some(rotation) => Some(
                    OledConfig {
                        width: width as u8,
                        height: height as u8,
                        x: x as u8,
                        y: y as u8,
                        rotation,
                    },
                ),
                None => None,
            }
        },
        _ => None,
    }
}

impl OledConfig {
    /// Whether the panel has pixels and lies within the controller's memory.
    pub open spec fn wf(self) -> bool {
        &&& self.width >= 1
        &&& self.height >= 1
        &&& self.x + self.width <= MAX_WIDTH
        &&& self.y + self.height <= MAX_HEIGHT
    }

    /// Reads a value: a panel, or `None` to switch the display off.
    pub fn parse(s: &str) -> (r: Result<Option<Self>, ()>)
        ensures
            r == oled_of(s@),
            r matches Ok(Some(c)) ==> c.wf(),
    {
        let f: Vec<&str> = split_trimmed(s, ':');
        proof {
            assert(texts(f@)[0] == f@[0]@);
        }
        if !same(f[0], "ssd1306") {
            return Ok(None);
        }
        match parse_panel(&f) {
            Some(c) => Ok(Some(c)),
            None => Err(()),
        }
    }

    /// The inverse of `parse`.
    pub fn to_nvs_string(&self) -> (r: String)
        ensures
            r@ == oled_text(*self),
    {
        let mut out: String = String::new();
        proof {
            reveal_strlit(":");
            assert(":"@ =~= seq![':']);
        }
        out.append("ssd1306");
        out.append(":");
        push_number(&mut out, self.width as u64);
        out.append(":");
        push_number(&mut out, self.height as u64);
        out.append(":");
        push_number(&mut out, self.x as u64);
        out.append(":");
        push_number(&mut out, self.y as u64);
        out.append(":");
        push_number(&mut out, self.rotation.degrees() as u64);
        proof {
            assert(out@ =~= oled_text(*self));
        }
        out
    }
}

/// What to do with the stored configuration at startup.
pub struct OledStartup {
    pub config: Option<OledConfig>,
    /// What to store in place of a value that is missing or cannot be read.
    pub store: Option<String>,
}

/// Takes the stored value, if it can be read; otherwise the default is used
/// and to be stored.
pub fn read_oled_config(raw: Option<&str>) -> (r: OledStartup)
    ensures
        r.config matches Some(c) ==> c.wf(),
        match raw {
            Some(text) if oled_of(text@) is Ok => {
                &&& oled_of(text@) == Ok::<Option<OledConfig>, ()>(r.config)
                &&& r.store is None
            },
            _ => {
                &&& r.config == Some(default_oled())
                &&& r.store matches Some(s) && s@ == oled_text(default_oled())
            },
        },
{
    if let Some(text) = raw {
        if let Ok(config) = OledConfig::parse(text) {
            return OledStartup { config, store: None };
        }
    }
    let config: OledConfig = OledConfig::default();
    let store: String = config.to_nvs_string();
    OledStartup { config: Some(config), store: Some(store) }
}

// ---------------------------------------------------------------------------
// Laws
// ---------------------------------------------------------------------------

/// A configuration reads back from its text.
pub proof fn lemma_oled_roundtrip(c: OledConfig)
    requires
        c.wf(),
    ensures
        oled_of(oled_text(c)) == Ok::<Option<OledConfig>, ()>(Some(c)),
{
    reveal_strlit("ssd1306");
    let n = "ssd1306"@;
    let k = seq![':'];
    let w = decimal(c.width as nat);
    let h = decimal(c.height as nat);
    let x = decimal(c.x as nat);
    let y = decimal(c.y as nat);
    let a = decimal(c.rotation.angle());
    let s = oled_text(c);
    lemma_decimal_chars(c.width as nat);
    lemma_decimal_chars(c.height as nat);
    lemma_decimal_chars(c.x as nat);
    lemma_decimal_chars(c.y as nat);
    lemma_decimal_chars(c.rotation.angle());
    let r4 = y + k + a;
    let r3 = x + k + r4;
    let r2 = h + k + r3;
    let r1 = w + k + r2;
    assert(s =~= n + k + r1);
    lemma_pieces_join(n, ':', r1);
    lemma_pieces_join(w, ':', r2);
    lemma_pieces_join(h, ':', r3);
    lemma_pieces_join(x, ':', r4);
    lemma_pieces_join(y, ':', a);
    lemma_pieces_one(a, ':');
    assert(pieces(s, ':') =~= seq![n, w, h, x, y, a]);
    lemma_trimmed_plain(n);
    lemma_trimmed_plain(w);
    lemma_trimmed_plain(h);
    lemma_trimmed_plain(x);
    lemma_trimmed_plain(y);
    lemma_trimmed_plain(a);
    assert(fields(s, ':') =~= seq![n, w, h, x, y, a]);
    lemma_number_of_decimal(c.width as nat);
    lemma_number_of_decimal(c.height as nat);
    lemma_number_of_decimal(c.x as nat);
    lemma_number_of_decimal(c.y as nat);
    lemma_number_of_decimal(c.rotation.angle());
}

/// A configuration's text holds no white space.
pub proof fn lemma_oled_text_chars(c: OledConfig)
    ensures
        no_space(oled_text(c)),
        oled_text(c).len() > 0,
{
    reveal_strlit("ssd1306");
    let n = "ssd1306"@;
    let k = seq![':'];
    let w = decimal(c.width as nat);
    let h = decimal(c.height as nat);
    let x = decimal(c.x as nat);
    let y = decimal(c.y as nat);
    let a = decimal(c.rotation.angle());
    lemma_decimal_chars(c.width as nat);
    lemma_decimal_chars(c.height as nat);
    lemma_decimal_chars(c.x as nat);
    lemma_decimal_chars(c.y as nat);
    lemma_decimal_chars(c.rotation.angle());
    lemma_concat_chars(n, k, ',');
    lemma_concat_chars(n + k, w, ',');
    lemma_concat_chars(n + k + w, k, ',');
    lemma_concat_chars(n + k + w + k, h, ',');
    lemma_concat_chars(n + k + w + k + h, k, ',');
    lemma_concat_chars(n + k + w + k + h + k, x, ',');
    lemma_concat_chars(n + k + w + k + h + k + x, k, ',');
    lemma_concat_chars(n + k + w + k + h + k + x + k, y, ',');
    lemma_concat_chars(n + k + w + k + h + k + x + k + y, k, ',');
    lemma_concat_chars(n + k + w + k + h + k + x + k + y + k, a, ',');
}

/// Every configuration's text fits where it is stored.
pub proof fn lemma_oled_text_fits(c: OledConfig)
    ensures
        1 <= encode_utf8(oled_text(c)).len() <= NVS_VALUE_MAX_LEN,
{
    reveal_strlit("ssd1306");
    let n = "ssd1306"@;
    let k = seq![':'];
    let w = decimal(c.width as nat);
    let h = decimal(c.height as nat);
    let x = decimal(c.x as nat);
    let y = decimal(c.y as nat);
    let a = decimal(c.rotation.angle());
    lemma_decimal_len(c.width as nat);
    lemma_decimal_len(c.height as nat);
    lemma_decimal_len(c.x as nat);
    lemma_decimal_len(c.y as nat);
    lemma_decimal_len(c.rotation.angle());
    lemma_decimal_ascii(c.width as nat);
    lemma_decimal_ascii(c.height as nat);
    lemma_decimal_ascii(c.x as nat);
    lemma_decimal_ascii(c.y as nat);
    lemma_decimal_ascii(c.rotation.angle());
    lemma_ascii_concat(n, k);
    lemma_ascii_concat(n + k, w);
    lemma_ascii_concat(n + k + w, k);
    lemma_ascii_concat(n + k + w + k, h);
    lemma_ascii_concat(n + k + w + k + h, k);
    lemma_ascii_concat(n + k + w + k + h + k, x);
    lemma_ascii_concat(n + k + w + k + h + k + x, k);
    lemma_ascii_concat(n + k + w + k + h + k + x + k, y);
    lemma_ascii_concat(n + k + w + k + h + k + x + k + y, k);
    lemma_ascii_concat(n + k + w + k + h + k + x + k + y + k, a);
    is_ascii_chars_encode_utf8(oled_text(c));
}

/// What the fields of an "ssd1306" value are for, and which are accepted: the
/// panel must have pixels and lie within 128 by 64. They are given without
/// white space and separators; without a rotation it is none.
pub proof fn lemma_panel_parts(
    width: Seq<char>,
    height: Seq<char>,
    x: Seq<char>,
    y: Seq<char>,
    angle: Option<Seq<char>>,
)
    requires
        no_space(width) && lacks(width, ':'),
        no_space(height) && lacks(height, ':'),
        no_space(x) && lacks(x, ':'),
        no_space(y) && lacks(y, ':'),
        angle matches Some(a) ==> no_space(a) && lacks(a, ':'),
    ensures
        ({
            let c = seq![':'];
            let front = "ssd1306"@ + c + width + c + height + c + x + c + y;
            let s = match angle {
                Some(a) => front + c + a,
                None => front,
            };
            let turn = match angle {
                Some(a) => number(a),
                None => Some(0),
            };
            &&& oled_of(s) != Ok::<Option<OledConfig>, ()>(None)
            &&& oled_of(s) is Ok <==> {
                &&& number(width) is Some && number(height) is Some
                &&& number(x) is Some && number(y) is Some
                &&& number(width)->0 >= 1 && number(height)->0 >= 1
                &&& number(x)->0 + number(width)->0 <= 128
                &&& number(y)->0 + number(height)->0 <= 64
                &&& turn == Some(0nat) || turn == Some(90nat) || turn == Some(180nat) || turn
                    == Some(270nat)
            }
            &&& oled_of(s) matches Ok(Some(p)) ==> {
                &&& number(width) == Some(p.width as nat)
                &&& number(height) == Some(p.height as nat)
                &&& number(x) == Some(p.x as nat)
                &&& number(y) == Some(p.y as nat)
                &&& turn == Some(0nat) ==> p.rotation == Rotation::Rotate0
                &&& turn == Some(90nat) ==> p.rotation == Rotation::Rotate90
                &&& turn == Some(180nat) ==> p.rotation == Rotation::Rotate180
                &&& turn == Some(270nat) ==> p.rotation == Rotation::Rotate270
            }
        }),
{
    reveal_strlit("ssd1306");
    let c = seq![':'];
    let head = "ssd1306"@;
    let front = head + c + width + c + height + c + x + c + y;
    match angle {
        Some(a) => {
            let s = front + c + a;
            assert(fields(s, ':') == seq![head, width, height, x, y, a]) by {
                lemma_six_fields(head, width, height, x, y, a);
            }
        },
        None => {
            assert(fields(front, ':') == seq![head, width, height, x, y]) by {
                lemma_five_fields(head, width, height, x, y);
            }
        },
    }
}

proof fn lemma_first_field(s: Seq<char>, a: Seq<char>, rest: Seq<char>)
    requires
        s == a + seq![':'] + rest,
        no_space(a) && lacks(a, ':'),
    ensures
        fields(s, ':') == seq![a] + fields(rest, ':'),
{
    lemma_pieces_join(a, ':', rest);
    lemma_trimmed_plain(a);
    assert(fields(s, ':') =~= seq![a] + fields(rest, ':'));
}

proof fn lemma_only_field(a: Seq<char>)
    requires
        no_space(a) && lacks(a, ':'),
    ensures
        fields(a, ':') == seq![a],
{
    lemma_pieces_one(a, ':');
    lemma_trimmed_plain(a);
    assert(fields(a, ':') =~= seq![a]);
}

proof fn lemma_five_fields(
    head: Seq<char>,
    width: Seq<char>,
    height: Seq<char>,
    x: Seq<char>,
    y: Seq<char>,
)
    requires
        no_space(head) && lacks(head, ':'),
        no_space(width) && lacks(width, ':'),
        no_space(height) && lacks(height, ':'),
        no_space(x) && lacks(x, ':'),
        no_space(y) && lacks(y, ':'),
    ensures
        fields(head + seq![':'] + width + seq![':'] + height + seq![':'] + x + seq![':'] + y, ':')
            == seq![head, width, height, x, y],
{
    let c = seq![':'];
    let s = head + c + width + c + height + c + x + c + y;
    let r3 = x + c + y;
    let r2 = height + c + r3;
    let r1 = width + c + r2;
    assert(s =~= head + c + r1);
    lemma_first_field(s, head, r1);
    lemma_first_field(r1, width, r2);
    lemma_first_field(r2, height, r3);
    lemma_first_field(r3, x, y);
    lemma_only_field(y);
    assert(fields(s, ':') =~= seq![head, width, height, x, y]);
}

proof fn lemma_six_fields(
    head: Seq<char>,
    width: Seq<char>,
    height: Seq<char>,
    x: Seq<char>,
    y: Seq<char>,
    a: Seq<char>,
)
    requires
        no_space(head) && lacks(head, ':'),
        no_space(width) && lacks(width, ':'),
        no_space(height) && lacks(height, ':'),
        no_space(x) && lacks(x, ':'),
        no_space(y) && lacks(y, ':'),
        no_space(a) && lacks(a, ':'),
    ensures
        fields(
            head + seq![':'] + width + seq![':'] + height + seq![':'] + x + seq![':'] + y + seq![
                ':',
            ] + a,
            ':',
        ) == seq![head, width, height, x, y, a],
{
    let c = seq![':'];
    let s = head + c + width + c + height + c + x + c + y + c + a;
    let r4 = y + c + a;
    let r3 = x + c + r4;
    let r2 = height + c + r3;
    let r1 = width + c + r2;
    assert(s =~= head + c + r1);
    lemma_first_field(s, head, r1);
    lemma_first_field(r1, width, r2);
    lemma_first_field(r2, height, r3);
    lemma_first_field(r3, x, r4);
    lemma_first_field(r4, y, a);
    lemma_only_field(a);
    assert(fields(s, ':') =~= seq![head, width, height, x, y, a]);
}

/// Any other protocol, or none, switches the display off.
pub proof fn lemma_other_protocols_disable(protocol: Seq<char>, rest: Seq<char>)
    requires
        no_space(protocol) && lacks(protocol, ':'),
        protocol != "ssd1306"@,
    ensures
        oled_of(protocol) == Ok::<Option<OledConfig>, ()>(None),
        oled_of(protocol + seq![':'] + rest) == Ok::<Option<OledConfig>, ()>(None),
{
    lemma_pieces_one(protocol, ':');
    lemma_pieces_join(protocol, ':', rest);
    lemma_trimmed_plain(protocol);
    assert(fields(protocol, ':')[0] == protocol);
    assert(fields(protocol + seq![':'] + rest, ':')[0] == protocol);
}

/// A quarter turn more is ninety degrees more.
pub proof fn lemma_quarter_turns()
    ensures
        Rotation::Rotate0.angle() == 0,
        Rotation::Rotate90.angle() == Rotation::Rotate0.angle() + 90,
        Rotation::Rotate180.angle() == Rotation::Rotate90.angle() + 90,
        Rotation::Rotate270.angle() == Rotation::Rotate180.angle() + 90,
{
}

} // verus!
