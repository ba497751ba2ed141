//! The state that the tasks share, and the lines that report it.
use crate::frame::bit;
use crate::iled::{IledConfig, default_model};
use crate::nodem::{NodemConfig, NodemModel, same_shape};
use crate::oled::OledConfig;
use crate::text::{
    decimal, is_digit, lacks, lemma_decimal_chars, lemma_decimal_digits, lemma_pieces_join,
    lemma_pieces_one, pieces, push_number,
};
use vstd::prelude::*;

verus! {

broadcast use vstd::string::group_string_axioms;

/// The size of the staging buffer for incoming commands.
pub const COMMAND_BUF_LEN: usize = 1024;

/// One dirty flag for each consumer of the framebuffer: each clears its own
/// once it has shown a frame, and none clears another's.
pub const DISPLAY_BUFFER_CONSUMERS: usize = 2;

pub const DISPLAY_BUFFER_OLED: usize = 0;

pub const DISPLAY_BUFFER_ILED: usize = 1;

/// `o`'s text, or `none` where there is none.
pub open spec fn text_or(o: Option<String>, none: Seq<char>) -> Seq<char> {
    match o {
        Some(s) => s@,
        None => none,
    }
}

/// An exact copy of an optional text.
fn copy_text(o: &Option<String>) -> (r: Option<String>)
    ensures
        r == *o,
{
    match o {
        Some(s) => Some(s.clone()),
        None => None,
    }
}

// ---------------------------------------------------------------------------
// Wi-Fi
// ---------------------------------------------------------------------------

/// An IPv4 address, from its first to its last byte.
#[derive(Clone, Copy, PartialEq, Eq, Debug, Structural)]
pub struct Ipv4Addr {
    pub a: u8,
    pub b: u8,
    pub c: u8,
    pub d: u8,
}

/// An address in dotted decimal.
pub open spec fn ip_text(ip: Ipv4Addr) -> Seq<char> {
    decimal(ip.a as nat) + seq!['.'] + decimal(ip.b as nat) + seq!['.'] + decimal(ip.c as nat)
        + seq!['.'] + decimal(ip.d as nat)
}

/// An optional address, or `none` where there is none.
pub open spec fn ip_or(o: Option<Ipv4Addr>, none: Seq<char>) -> Seq<char> {
    match o {
        Some(ip) => ip_text(ip),
        None => none,
    }
}

impl Ipv4Addr {
    /// The address in dotted decimal.
    pub fn to_string(&self) -> (r: String)
        ensures
            r@ == ip_text(*self),
    {
        let mut out: String = String::new();
        proof {
            reveal_strlit(".");
            assert("."@ =~= seq!['.']);
        }
        push_number(&mut out, self.a as u64);
        out.append(".");
        push_number(&mut out, self.b as u64);
        out.append(".");
        push_number(&mut out, self.c as u64);
        out.append(".");
        push_number(&mut out, self.d as u64);
        proof {
            assert(out@ =~= ip_text(*self));
        }
        out
    }
}

/// Appends an optional address, or `none`.
pub fn push_ip(out: &mut String, o: Option<Ipv4Addr>, none: &str)
    ensures
        final(out)@ == old(out)@ + ip_or(o, none@),
{
    match o {
        Some(ip) => out.append(ip.to_string().as_str()),
        None => out.append(none),
    }
}

/// Appends an optional text, or `none`.
pub fn push_text_or(out: &mut String, o: &Option<String>, none: &str)
    ensures
        final(out)@ == old(out)@ + text_or(*o, none@),
{
    match o {
        Some(s) => out.append(s.as_str()),
        None => out.append(none),
    }
}

/// Where the Wi-Fi task is in its connect loop.
#[derive(Debug)]
pub enum WifiConnectionStatus {
    WaitingForConfiguration,
    Connecting,
    Connected,
    Failed(String),
}

impl Clone for WifiConnectionStatus {
    fn clone(&self) -> (r: Self)
        ensures
            r == *self,
    {
        match self {
            WifiConnectionStatus::WaitingForConfiguration => {
                WifiConnectionStatus::WaitingForConfiguration
            },
            WifiConnectionStatus::Connecting => WifiConnectionStatus::Connecting,
            WifiConnectionStatus::Connected => WifiConnectionStatus::Connected,
            WifiConnectionStatus::Failed(e) => WifiConnectionStatus::Failed(e.clone()),
        }
    }
}

/// What is known of the Wi-Fi link.
#[derive(Debug)]
pub struct WifiStatus {
    pub status: WifiConnectionStatus,
    pub ssid: Option<String>,
    pub ip: Option<Ipv4Addr>,
    pub subnet_mask: Option<Ipv4Addr>,
    pub gateway: Option<Ipv4Addr>,
    pub rssi: Option<i32>,
}

impl Clone for WifiStatus {
    fn clone(&self) -> (r: Self)
        ensures
            r == *self,
    {
        WifiStatus {
            status: self.status.clone(),
            ssid: copy_text(&self.ssid),
            ip: self.ip,
            subnet_mask: self.subnet_mask,
            gateway: self.gateway,
            rssi: self.rssi,
        }
    }
}

/// The line that reports the Wi-Fi link.
pub open spec fn wifi_line(s: WifiStatus) -> Seq<char> {
    match s.status {
        WifiConnectionStatus::WaitingForConfiguration => "Wifi: waiting for config"@,
        WifiConnectionStatus::Connecting => "Wifi: connecting..."@,
        WifiConnectionStatus::Connected => "Wifi: "@ + ip_or(s.ip, ""@),
        WifiConnectionStatus::Failed(e) => "Wifi: failed ("@ + e@ + ")"@,
    }
}

impl WifiStatus {
    /// The addresses and the signal strength are known only while connected.
    pub open spec fn wf(self) -> bool {
        self.status is Connected || (self.ip is None && self.subnet_mask is None
            && self.gateway is None && self.rssi is None)
    }

    pub fn new() -> (r: Self)
        ensures
            r.wf(),
            r.status == WifiConnectionStatus::WaitingForConfiguration,
            r.ssid is None,
    {
        WifiStatus {
            status: WifiConnectionStatus::WaitingForConfiguration,
            ssid: None,
            ip: None,
            subnet_mask: None,
            gateway: None,
            rssi: None,
        }
    }

    /// The line that reports the link.
    pub fn to_string(&self) -> (r: String)
        ensures
            r@ == wifi_line(*self),
    {
        let mut out: String = String::new();
        match &self.status {
            WifiConnectionStatus::WaitingForConfiguration => out.append("Wifi: waiting for config"),
            WifiConnectionStatus::Connecting => out.append("Wifi: connecting..."),
            WifiConnectionStatus::Connected => {
                out.append("Wifi: ");
                push_ip(&mut out, self.ip, "");
            },
            WifiConnectionStatus::Failed(e) => {
                out.append("Wifi: failed (");
                out.append(e.as_str());
                out.append(")");
            },
        }
        proof {
            assert(out@ =~= wifi_line(*self));
        }
        out
    }
}

// ---------------------------------------------------------------------------
// Cloud
// ---------------------------------------------------------------------------

/// Where the device is with its registration. A device stays registered
/// across reconnects, so this does not depend on the connection.
#[derive(Debug)]
pub enum RegistrationStatus {
    WaitingForCode,
    Registering,
    Registered,
    Failed(String),
}

impl Clone for RegistrationStatus {
    fn clone(&self) -> (r: Self)
        ensures
            r == *self,
    {
        match self {
            RegistrationStatus::WaitingForCode => RegistrationStatus::WaitingForCode,
            RegistrationStatus::Registering => RegistrationStatus::Registering,
            RegistrationStatus::Registered => RegistrationStatus::Registered,
            RegistrationStatus::Failed(e) => RegistrationStatus::Failed(e.clone()),
        }
    }
}

#[derive(Clone, Copy, PartialEq, Eq, Debug, Structural)]
pub enum CloudConnectionStatus {
    Disconnected,
    Connecting,
    Connected,
}

/// What is known of the cloud connection.
#[derive(Debug)]
pub struct CloudStatus {
    pub host: Option<String>,
    pub device_name: Option<String>,
    pub registration: RegistrationStatus,
    pub connection: CloudConnectionStatus,
}

impl Clone for CloudStatus {
    fn clone(&self) -> (r: Self)
        ensures
            r == *self,
    {
        CloudStatus {
            host: copy_text(&self.host),
            device_name: copy_text(&self.device_name),
            registration: self.registration.clone(),
            connection: self.connection,
        }
    }
}

/// The line that reports the cloud connection: the registration until the
/// device is registered, the connection and the device's name from then on.
pub open spec fn cloud_line(s: CloudStatus) -> Seq<char> {
    match s.registration {
        RegistrationStatus::WaitingForCode => "Reg: waiting for code"@,
        RegistrationStatus::Registering => "Reg: registering..."@,
        RegistrationStatus::Failed(e) => "Reg: failed ("@ + e@ + ")"@,
        RegistrationStatus::Registered => {
            let connection = match s.connection {
                CloudConnectionStatus::Disconnected => "WS: disconnected"@,
                CloudConnectionStatus::Connecting => "WS: connecting..."@,
                CloudConnectionStatus::Connected => "WS: connected"@,
            };
            match s.device_name {
                Some(name) => connection + " ("@ + name@ + ")"@,
                None => connection,
            }
        },
    }
}

impl CloudStatus {
    pub fn new() -> (r: Self)
        ensures
            r.host is None,
            r.device_name is None,
            r.registration == RegistrationStatus::WaitingForCode,
            r.connection == CloudConnectionStatus::Disconnected,
    {
        CloudStatus {
            host: None,
            device_name: None,
            registration: RegistrationStatus::WaitingForCode,
            connection: CloudConnectionStatus::Disconnected,
        }
    }

    /// The line that reports the connection.
    pub fn to_string(&self) -> (r: String)
        ensures
            r@ == cloud_line(*self),
    {
        let mut out: String = String::new();
        match &self.registration {
            RegistrationStatus::WaitingForCode => out.append("Reg: waiting for code"),
            RegistrationStatus::Registering => out.append("Reg: registering..."),
            RegistrationStatus::Failed(e) => {
                out.append("Reg: failed (");
                out.append(e.as_str());
                out.append(")");
            },
            RegistrationStatus::Registered => {
                match self.connection {
                    CloudConnectionStatus::Disconnected => out.append("WS: disconnected"),
                    CloudConnectionStatus::Connecting => out.append("WS: connecting..."),
                    CloudConnectionStatus::Connected => out.append("WS: connected"),
                }
                if let Some(name) = &self.device_name {
                    out.append(" (");
                    out.append(name.as_str());
                    out.append(")");
                }
            },
        }
        proof {
            assert(out@ =~= cloud_line(*self));
        }
        out
    }
}

// ---------------------------------------------------------------------------
// Firmware
// ---------------------------------------------------------------------------

/// The running firmware.
#[derive(Clone, Copy, Debug)]
pub struct SysStatus {
    pub version: &'static str,
    /// 0 or 1 for the two OTA slots; `None` until known, and where the running
    /// partition is no such slot.
    pub ota_slot: Option<u8>,
    /// The running image is unverified: the next reset goes back to the
    /// previous one unless it is marked valid before.
    pub rollback_pending: bool,
}

/// The line that reports the firmware.
pub open spec fn sys_line(s: SysStatus) -> Seq<char> {
    let slot = match s.ota_slot {
        Some(n) => decimal(n as nat),
        None => "?"@,
    };
    let pending = if s.rollback_pending {
        "r"@
    } else {
        seq![]
    };
    "Sys: "@ + s.version@ + " ("@ + slot + pending + ")"@
}

impl SysStatus {
    pub fn new(version: &'static str) -> (r: Self)
        ensures
            r.version@ == version@,
            r.ota_slot is None,
            !r.rollback_pending,
    {
        SysStatus { version, ota_slot: None, rollback_pending: false }
    }

    /// The line that reports the firmware.
    pub fn to_string(&self) -> (r: String)
        ensures
            r@ == sys_line(*self),
    {
        let mut out: String = String::new();
        out.append("Sys: ");
        out.append(self.version);
        out.append(" (");
        match self.ota_slot {
            Some(slot) => push_number(&mut out, slot as u64),
            None => out.append("?"),
        }
        if self.rollback_pending {
            out.append("r");
        }
        out.append(")");
        proof {
            assert(out@ =~= sys_line(*self));
        }
        out
    }
}

// ---------------------------------------------------------------------------
// OLED
// ---------------------------------------------------------------------------

/// Where the OLED task is with the display. A failed first initialization
/// lasts until the configuration changes; a failed later one is tried again
/// with the next flush.
#[derive(Debug)]
pub enum OledConnectionStatus {
    Disabled,
    Initializing,
    Connected,
    Failed(String),
}

impl Clone for OledConnectionStatus {
    fn clone(&self) -> (r: Self)
        ensures
            r == *self,
    {
        match self {
            OledConnectionStatus::Disabled => OledConnectionStatus::Disabled,
            OledConnectionStatus::Initializing => OledConnectionStatus::Initializing,
            OledConnectionStatus::Connected => OledConnectionStatus::Connected,
            OledConnectionStatus::Failed(e) => OledConnectionStatus::Failed(e.clone()),
        }
    }
}

/// What is known of the display: its state, how many attempts to flush a
/// frame have failed, and how often all attempts of one frame did.
#[derive(Debug)]
pub struct OledStatus {
    pub status: OledConnectionStatus,
    pub errors: u32,
    pub reinits: u32,
}

impl Clone for OledStatus {
    fn clone(&self) -> (r: Self)
        ensures
            r == *self,
    {
        OledStatus { status: self.status.clone(), errors: self.errors, reinits: self.reinits }
    }
}

/// The line that reports the display.
pub open spec fn oled_line(s: OledStatus) -> Seq<char> {
    match s.status {
        OledConnectionStatus::Disabled => "OLED: disabled"@,
        OledConnectionStatus::Initializing => "OLED: initializing..."@,
        OledConnectionStatus::Connected => "OLED: connected"@,
        OledConnectionStatus::Failed(e) => "OLED: failed ("@ + e@ + ")"@,
    }
}

impl OledStatus {
    pub fn new() -> (r: Self)
        ensures
            r.status == OledConnectionStatus::Initializing,
            r.errors == 0,
            r.reinits == 0,
    {
        OledStatus { status: OledConnectionStatus::Initializing, errors: 0, reinits: 0 }
    }

    /// The line that reports the display.
    pub fn to_string(&self) -> (r: String)
        ensures
            r@ == oled_line(*self),
    {
        let mut out: String = String::new();
        match &self.status {
            OledConnectionStatus::Disabled => out.append("OLED: disabled"),
            OledConnectionStatus::Initializing => out.append("OLED: initializing..."),
            OledConnectionStatus::Connected => out.append("OLED: connected"),
            OledConnectionStatus::Failed(e) => {
                out.append("OLED: failed (");
                out.append(e.as_str());
                out.append(")");
            },
        }
        proof {
            assert(out@ =~= oled_line(*self));
        }
        out
    }
}

// ---------------------------------------------------------------------------
// Shared state
// ---------------------------------------------------------------------------

/// The state that the tasks share.
pub struct Global {
    pub sys_status: SysStatus,
    pub wifi_status: WifiStatus,
    pub cloud_status: CloudStatus,
    pub oled_status: OledStatus,
    /// One bit per pixel, row after row, most significant bit first.
    pub display_buffer: Vec<u8>,
    /// The shape of `display_buffer`; changed only by `resize_display`.
    pub nodem_config: NodemConfig,
    pub display_buffer_dirty: [bool; DISPLAY_BUFFER_CONSUMERS],
    /// Bytes received and not yet consumed; the first `command_buf_pos` count.
    pub command_buf: [u8; COMMAND_BUF_LEN],
    pub command_buf_pos: usize,
    pub wifi_reconnect: bool,
    pub reregister: bool,
    /// `None` while the LED chain is switched off.
    pub iled_config: Option<IledConfig>,
    /// `None` while the display is switched off.
    pub oled_config: Option<OledConfig>,
    /// A new pkg has been written and is to be loaded.
    pub pkg_reload: bool,
}

/// Whether pixel `(x, y)` of a framebuffer of this shape is set. Everything
/// outside it is off.
pub open spec fn buffer_pixel(buffer: Seq<u8>, m: NodemModel, x: int, y: int) -> bool {
    if 0 <= x < m.width && 0 <= y < m.height {
        let i = y * m.width + x;
        bit(buffer[i / 8], (7 - i % 8) as u8)
    } else {
        false
    }
}

impl Global {
    pub open spec fn wf(self) -> bool {
        &&& self.nodem_config@.wf()
        &&& self.display_buffer@.len() == self.nodem_config@.buffer_len()
        &&& self.wifi_status.wf()
        &&& self.command_buf_pos <= COMMAND_BUF_LEN
        &&& self.iled_config matches Some(c) ==> c@.wf()
        &&& self.oled_config matches Some(c) ==> c.wf()
    }

    /// Whether pixel `(x, y)` of the framebuffer is set.
    pub open spec fn pixel(self, x: int, y: int) -> bool {
        buffer_pixel(self.display_buffer@, self.nodem_config@, x, y)
    }

    /// Whether nothing but the framebuffer and its flags differs.
    pub open spec fn same_but_display(self, other: Global) -> bool {
        &&& self.sys_status == other.sys_status
        &&& self.wifi_status == other.wifi_status
        &&& self.cloud_status == other.cloud_status
        &&& self.oled_status == other.oled_status
        &&& self.command_buf == other.command_buf
        &&& self.command_buf_pos == other.command_buf_pos
        &&& self.wifi_reconnect == other.wifi_reconnect
        &&& self.reregister == other.reregister
        &&& self.iled_config == other.iled_config
        &&& self.oled_config == other.oled_config
        &&& self.pkg_reload == other.pkg_reload
    }

    /// A blank framebuffer of the configured shape, nothing connected, the
    /// default LED chain, no display.
    pub fn new(nodem_config: NodemConfig, version: &'static str) -> (r: Self)
        requires
            nodem_config@.wf(),
        ensures
            r.wf(),
            r.sys_status.version@ == version@,
            r.sys_status.ota_slot is None,
            !r.sys_status.rollback_pending,
            r.wifi_status.status == WifiConnectionStatus::WaitingForConfiguration,
            r.wifi_status.ssid is None,
            r.cloud_status.host is None,
            r.cloud_status.device_name is None,
            r.cloud_status.registration == RegistrationStatus::WaitingForCode,
            r.cloud_status.connection == CloudConnectionStatus::Disconnected,
            r.oled_status.status == OledConnectionStatus::Initializing,
            r.oled_status.errors == 0,
            r.oled_status.reinits == 0,
            r.nodem_config == nodem_config,
            r.display_buffer@ == Seq::new(nodem_config@.buffer_len(), |i: int| 0u8),
            r.display_buffer_dirty@ == seq![false, false],
            r.command_buf@ == Seq::new(COMMAND_BUF_LEN as nat, |i: int| 0u8),
            r.command_buf_pos == 0,
            !r.wifi_reconnect,
            !r.reregister,
            r.iled_config matches Some(c) && c@ == default_model(),
            r.oled_config is None,
            !r.pkg_reload,
    {
        let display_buffer: Vec<u8> = zeros(nodem_config.buffer_len());
        let r = Global {
            sys_status: SysStatus::new(version),
            wifi_status: WifiStatus::new(),
            cloud_status: CloudStatus::new(),
            oled_status: OledStatus::new(),
            display_buffer,
            nodem_config,
            display_buffer_dirty: [false, false],
            command_buf: [0u8;COMMAND_BUF_LEN],
            command_buf_pos: 0,
            wifi_reconnect: false,
            reregister: false,
            iled_config: Some(IledConfig::default()),
            oled_config: None,
            pkg_reload: false,
        };
        proof {
            assert(r.display_buffer_dirty@ =~= seq![false, false]);
            assert(r.command_buf@ =~= Seq::new(COMMAND_BUF_LEN as nat, |i: int| 0u8));
        }
        r
    }

    /// Applies a new configuration. Only where the shape changed is there a
    /// new, blank framebuffer, which every consumer is to show; returns
    /// whether that is so, and what draws into the framebuffer must then be
    /// pointed at the new one.
    pub fn resize_display(&mut self, nodem_config: NodemConfig) -> (r: bool)
        requires
            old(self).wf(),
            nodem_config@.wf(),
        ensures
            final(self).wf(),
            final(self).nodem_config == nodem_config,
            final(self).same_but_display(*old(self)),
            r == !same_shape(nodem_config@, old(self).nodem_config@),
            !r ==> final(self).display_buffer@ == old(self).display_buffer@
                && final(self).display_buffer_dirty == old(self).display_buffer_dirty,
            r ==> final(self).display_buffer@ == Seq::new(
                nodem_config@.buffer_len(),
                |i: int| 0u8,
            ) && final(self).display_buffer_dirty@ == seq![true, true],
    {
        if nodem_config.same_geometry(&self.nodem_config) {
            self.nodem_config = nodem_config;
            return false;
        }
        self.display_buffer = zeros(nodem_config.buffer_len());
        self.nodem_config = nodem_config;
        self.display_buffer_dirty = [true, true];
        proof {
            assert(self.display_buffer_dirty@ =~= seq![true, true]);
        }
        true
    }

    /// Whether pixel `(x, y)` of the framebuffer is set. Everything outside it
    /// is off, negative places included.
    pub fn display_pixel(&self, x: i32, y: i32) -> (r: bool)
        requires
            self.wf(),
        ensures
            r == self.pixel(x as int, y as int),
    {
        if x < 0 || y < 0 || x >= self.nodem_config.width as i32 || y
            >= self.nodem_config.height as i32 {
            return false;
        }
        let width: usize = self.nodem_config.width as usize;
        proof {
            lemma_pixel_index(
                x as int,
                y as int,
                width as int,
                self.nodem_config.height as int,
            );
            let area = self.nodem_config@.width * self.nodem_config@.height;
            assert(area * 1 == area);
        }
        let i: usize = y as usize * width + x as usize;
        let shifted: u8 = self.display_buffer[i / 8] >> ((7 - i % 8) as u8);
        proof {
            let b = self.display_buffer@[i as int / 8];
            let k = (7 - i % 8) as u8;
            assert(shifted == b >> k);
            assert((shifted & 1u8 != 0u8) == (shifted & 1u8 == 1u8)) by (bit_vector);
        }
        shifted & 1u8 != 0
    }
}

/// A consumer has shown the framebuffer: its own flag is cleared, that of the
/// other stays.
pub fn shown(g: &mut Global, consumer: usize)
    requires
        consumer < DISPLAY_BUFFER_CONSUMERS,
    ensures
        final(g).display_buffer_dirty@ == old(g).display_buffer_dirty@.update(
            consumer as int,
            false,
        ),
        final(g).display_buffer == old(g).display_buffer,
        final(g).nodem_config == old(g).nodem_config,
        final(g).same_but_display(*old(g)),
{
    g.display_buffer_dirty[consumer] = false;
}

/// `n` zero bytes.
fn zeros(n: usize) -> (r: Vec<u8>)
    ensures
        r@ == Seq::new(n as nat, |i: int| 0u8),
{
    let mut v: Vec<u8> = Vec::new();
    for i in 0..n
        invariant
            v@ == Seq::new(i as nat, |j: int| 0u8),
    {
        v.push(0);
        proof {
            assert(v@ =~= Seq::new((i + 1) as nat, |j: int| 0u8));
        }
    }
    v
}

/// A pixel of a framebuffer has a place in its bytes.
pub proof fn lemma_pixel_index(x: int, y: int, width: int, height: int)
    requires
        0 <= x < width <= 1024,
        0 <= y < height <= 1024,
    ensures
        0 <= y * width,
        0 <= y * width + x < width * height <= 1024 * 1024,
        0 <= (y * width + x) / 8 < (width * height + 7) / 8,
{
    assert(0 <= y * width && y * width + x < width * height && width * height <= 1024 * 1024)
        by (nonlinear_arith)
        requires
            0 <= x < width <= 1024,
            0 <= y < height <= 1024,
    ;
}

/// Pixels are packed without gaps, row after row, the first of eight in the
/// most significant bit; what is outside is off.
pub proof fn lemma_pixel_bit(g: Global, x: int, y: int)
    requires
        g.wf(),
    ensures
        0 <= x < g.nodem_config.width && 0 <= y < g.nodem_config.height ==> ({
            let i = y * g.nodem_config.width + x;
            &&& 0 <= i / 8 < g.display_buffer@.len()
            &&& g.pixel(x, y) == ((g.display_buffer@[i / 8] >> ((7 - i % 8) as u8)) & 1u8 == 1u8)
        }),
        x < 0 || y < 0 || x >= g.nodem_config.width || y >= g.nodem_config.height ==> !g.pixel(x, y),
{
    if 0 <= x < g.nodem_config.width && 0 <= y < g.nodem_config.height {
        lemma_pixel_index(x, y, g.nodem_config.width as int, g.nodem_config.height as int);
        let area = g.nodem_config@.width * g.nodem_config@.height;
        assert(area * 1 == area);
    }
}

/// An address is its four numbers with a dot between two of them.
pub proof fn lemma_ip_numbers(ip: Ipv4Addr)
    ensures
        pieces(ip_text(ip), '.') == seq![
            decimal(ip.a as nat),
            decimal(ip.b as nat),
            decimal(ip.c as nat),
            decimal(ip.d as nat),
        ],
{
    let dot = seq!['.'];
    let a = decimal(ip.a as nat);
    let b = decimal(ip.b as nat);
    let c = decimal(ip.c as nat);
    let d = decimal(ip.d as nat);
    lemma_decimal_no_dot(ip.a as nat);
    lemma_decimal_no_dot(ip.b as nat);
    lemma_decimal_no_dot(ip.c as nat);
    lemma_decimal_no_dot(ip.d as nat);
    let r2 = c + dot + d;
    let r1 = b + dot + r2;
    let s = ip_text(ip);
    assert(s =~= a + dot + r1);
    lemma_pieces_join(a, '.', r1);
    lemma_pieces_join(b, '.', r2);
    lemma_pieces_join(c, '.', d);
    lemma_pieces_one(d, '.');
    assert(pieces(s, '.') =~= seq![a, b, c, d]);
}

/// A number holds no dot.
proof fn lemma_decimal_no_dot(n: nat)
    ensures
        lacks(decimal(n), '.'),
{
    lemma_decimal_digits(n);
    assert forall|i: int| 0 <= i < decimal(n).len() implies decimal(n)[i] != '.' by {
        assert(is_digit(decimal(n)[i]));
    }
}

/// The line of a registered device shows its name behind the connection,
/// whatever that is, where it has one; without a registration neither is shown.
pub proof fn lemma_cloud_line_name(s: CloudStatus, other: CloudStatus)
    ensures
        s.registration is Registered ==> {
            &&& s.device_name matches Some(name) ==> cloud_line(s) == cloud_line(
                CloudStatus { device_name: None, ..s },
            ) + " ("@ + name@ + ")"@
            &&& s.device_name is None && s.connection is Connected ==> cloud_line(s)
                == "WS: connected"@
            &&& s.device_name is None && s.connection is Connecting ==> cloud_line(s)
                == "WS: connecting..."@
            &&& s.device_name is None && s.connection is Disconnected ==> cloud_line(s)
                == "WS: disconnected"@
        },
        !(s.registration is Registered) && s.registration == other.registration ==> cloud_line(s)
            == cloud_line(other),
        cloud_line(s) == cloud_line(CloudStatus { host: other.host, ..s }),
        s.registration is WaitingForCode ==> cloud_line(s) == "Reg: waiting for code"@,
        s.registration is Registering ==> cloud_line(s) == "Reg: registering..."@,
        s.registration matches RegistrationStatus::Failed(e) ==> cloud_line(s) == "Reg: failed ("@
            + e@ + ")"@,
{
}

/// The line of a link shows its address exactly while it is connected, and
/// why it failed exactly where it did; nothing else of it is shown.
pub proof fn lemma_wifi_line_shows(s: WifiStatus, other: WifiStatus)
    ensures
        s.status is Connected ==> (s.ip matches Some(ip) ==> wifi_line(s) == "Wifi: "@ + ip_text(
            ip,
        )),
        s.status is Connected && s.ip is None ==> wifi_line(s) == "Wifi: "@,
        s.status is Connecting ==> wifi_line(s) == "Wifi: connecting..."@,
        s.status is WaitingForConfiguration ==> wifi_line(s) == "Wifi: waiting for config"@,
        s.status matches WifiConnectionStatus::Failed(e) ==> wifi_line(s) == "Wifi: failed ("@ + e@
            + ")"@,
        s.status == other.status && (s.ip == other.ip || !(s.status is Connected)) ==> wifi_line(s)
            == wifi_line(other),
{
    reveal_strlit("");
    assert("Wifi: "@ + ""@ =~= "Wifi: "@);
}

/// The line of a firmware that may be rolled back has one more letter in it
/// than that of one that may not.
pub proof fn lemma_sys_line_shows(s: SysStatus)
    ensures
        ({
            let slot = match s.ota_slot {
                Some(n) => decimal(n as nat),
                None => seq!['?'],
            };
            let front = "Sys: "@ + s.version@ + " ("@ + slot;
            &&& s.rollback_pending ==> sys_line(s) == front + seq!['r', ')']
            &&& !s.rollback_pending ==> sys_line(s) == front + seq![')']
        }),
{
    reveal_strlit("?");
    reveal_strlit("r");
    reveal_strlit(")");
    assert("?"@ =~= seq!['?']);
    let slot = match s.ota_slot {
        Some(n) => decimal(n as nat),
        None => seq!['?'],
    };
    let front = "Sys: "@ + s.version@ + " ("@ + slot;
    if s.rollback_pending {
        assert(sys_line(s) =~= front + seq!['r', ')']);
    } else {
        assert(sys_line(s) =~= front + seq![')']);
    }
}

/// The line of the display does not show how often it failed.
pub proof fn lemma_oled_line_shows(s: OledStatus, other: OledStatus)
    ensures
        s.status == other.status ==> oled_line(s) == oled_line(other),
        s.status is Disabled ==> oled_line(s) == "OLED: disabled"@,
        s.status is Initializing ==> oled_line(s) == "OLED: initializing..."@,
        s.status is Connected ==> oled_line(s) == "OLED: connected"@,
        s.status matches OledConnectionStatus::Failed(e) ==> oled_line(s) == "OLED: failed ("@ + e@
            + ")"@,
{
}

/// An address holds no comma.
pub proof fn lemma_ip_no_comma(ip: Ipv4Addr)
    ensures
        lacks(ip_text(ip), ','),
{
    let dot = seq!['.'];
    lemma_decimal_chars(ip.a as nat);
    lemma_decimal_chars(ip.b as nat);
    lemma_decimal_chars(ip.c as nat);
    lemma_decimal_chars(ip.d as nat);
    let ab = decimal(ip.a as nat) + dot + decimal(ip.b as nat);
    let abc = ab + dot + decimal(ip.c as nat);
    lemma_lacks_joined(decimal(ip.a as nat), decimal(ip.b as nat));
    lemma_lacks_joined(ab, decimal(ip.c as nat));
    lemma_lacks_joined(abc, decimal(ip.d as nat));
}

proof fn lemma_lacks_joined(a: Seq<char>, b: Seq<char>)
    requires
        lacks(a, ','),
        lacks(b, ','),
    ensures
        lacks(a + seq!['.'] + b, ','),
{
    let s = a + seq!['.'] + b;
    assert forall|i: int| 0 <= i < s.len() implies s[i] != ',' by {
        if i < a.len() {
            assert(s[i] == a[i]);
        } else if i > a.len() {
            assert(s[i] == b[i - a.len() - 1]);
        }
    }
}

} // verus!
