//! What the listener for commands holds and shows. It is handed the shared
//! state only between commands, so it keeps what a command asks for until it
//! can be applied.
use crate::commands::{Effect, Plan, PlanModel, Ret, fits, storing};
use crate::global::{
    CloudConnectionStatus, CloudStatus, Global, Ipv4Addr, OledConnectionStatus, OledStatus,
    RegistrationStatus, WifiConnectionStatus, WifiStatus, ip_or, ip_text, lemma_ip_no_comma,
    push_ip, push_text_or, text_or,
};
use crate::iled;
use crate::iled::IledConfig;
use crate::loader::{LoaderResult, UploadMode};
use crate::nodem;
use crate::nodem::{NodemConfig, same_shape};
use crate::nvs::{NvsOp, op_models, store};
use crate::oled;
use crate::oled::OledConfig;
use crate::text::{
    byte_len, decimal, lacks, lemma_number_of_decimal, lemma_pieces_concat, lemma_pieces_one,
    lemma_pieces_snoc, lemma_signed_decimal_chars, lemma_signed_number_of_decimal, number, pieces,
    push_number, push_signed, push_stars, repeated, same, signed_decimal, signed_number,
};
use crate::websocket;
use crate::wifi;
use vstd::prelude::*;
use vstd::utf8::*;

verus! {

broadcast use vstd::string::group_string_axioms;

// ---------------------------------------------------------------------------
// Carrying out a plan
// ---------------------------------------------------------------------------

/// A plan while it is carried out: how many of its writes are done, and
/// whether a value could not be stored.
#[derive(Debug)]
pub struct Run {
    pub plan: Plan,
    pub done: usize,
    pub failed: bool,
}

/// How a command went.
pub open spec fn ret_of(plan: PlanModel, failed: bool) -> Ret {
    if failed {
        Ret::Error
    } else if plan.malformed {
        Ret::MalformedValue
    } else {
        Ret::Done
    }
}

/// Whether a command takes effect.
pub open spec fn takes_effect(plan: PlanModel, failed: bool) -> bool {
    !plan.halting || ret_of(plan, failed) == Ret::Done
}

impl Run {
    pub open spec fn wf(self) -> bool {
        &&& self.done <= self.plan.ops@.len()
        &&& self.plan@.effect.wf()
    }

    /// Whether there is nothing left to write: everything is done, or a value
    /// could not be stored and that stops the plan.
    pub open spec fn over(self) -> bool {
        self.done == self.plan.ops@.len() || (self.plan.halting && self.failed)
    }

    /// Whether the next write stores a value.
    pub open spec fn next_stores(self) -> bool {
        self.plan.ops@[self.done as int] is Store
    }

    pub fn new(plan: Plan) -> (r: Self)
        requires
            plan@.effect.wf(),
        ensures
            r.wf(),
            r.plan == plan,
            r.done == 0,
            !r.failed,
    {
        Run { plan, done: 0, failed: false }
    }

    /// The next write, if there is one left.
    pub fn op(&self) -> (r: Option<&NvsOp>)
        requires
            self.wf(),
        ensures
            r is None <==> self.over(),
            r matches Some(op) ==> *op == self.plan.ops@[self.done as int],
    {
        if self.done < self.plan.ops.len() && !(self.plan.halting && self.failed) {
            Some(&self.plan.ops[self.done])
        } else {
            None
        }
    }

    /// Takes the outcome of that write. A key that cannot be removed does not
    /// matter.
    pub fn written(&mut self, ok: bool)
        requires
            old(self).wf(),
            !old(self).over(),
        ensures
            final(self).wf(),
            final(self).plan == old(self).plan,
            final(self).done == old(self).done + 1,
            final(self).failed == (old(self).failed || (!ok && old(self).next_stores())),
    {
        let count: usize = self.plan.ops.len();
        assert(self.done < count);
        let stores: bool = match &self.plan.ops[self.done] {
            NvsOp::Store { .. } => true,
            NvsOp::Remove { .. } => false,
        };
        if stores && !ok {
            self.failed = true;
        }
        self.done = self.done + 1;
    }
}

// ---------------------------------------------------------------------------
// The listener
// ---------------------------------------------------------------------------

/// What commands have asked for and nobody has taken yet, and the state of the
/// device when a command came in.
pub struct CommandListener {
    pub wifi_reconnect: bool,
    pub reregister: bool,
    /// A new name, or `Some(None)` where the name was removed.
    pub device_name: Option<Option<String>>,
    pub restart: bool,
    /// A new configuration, or `Some(None)` where the chain was switched off.
    pub iled_config: Option<Option<IledConfig>>,
    pub nodem_config: Option<NodemConfig>,
    /// A new configuration, or `Some(None)` where the display was switched
    /// off.
    pub oled_config: Option<Option<OledConfig>>,
    pub wifi_status: WifiStatus,
    pub cloud_status: CloudStatus,
    pub oled_status: OledStatus,
    pub live_oled_config: Option<OledConfig>,
    pub live_iled_config: Option<IledConfig>,
    /// The pkg has changed and is to be loaded.
    pub pkg_updated: bool,
}

/// A listener after an effect.
pub open spec fn effected(l: CommandListener, effect: Effect) -> CommandListener {
    match effect {
        Effect::Nothing => l,
        Effect::Restart => CommandListener { restart: true, ..l },
        Effect::Factory { nodem, iled, oled } => CommandListener {
            nodem_config: Some(nodem),
            iled_config: Some(Some(iled)),
            oled_config: Some(Some(oled)),
            device_name: Some(None),
            wifi_reconnect: true,
            reregister: true,
            ..l
        },
        Effect::WifiReconnect => CommandListener { wifi_reconnect: true, ..l },
        Effect::Register(name) => CommandListener {
            device_name: Some(Some(name)),
            reregister: true,
            ..l
        },
        Effect::Name(name) => CommandListener { device_name: Some(Some(name)), ..l },
        Effect::Iled(config) => CommandListener { iled_config: Some(config), ..l },
        Effect::Nodem(config) => CommandListener { nodem_config: Some(config), ..l },
        Effect::Oled(config) => CommandListener { oled_config: Some(config), ..l },
        Effect::Reregister => CommandListener { reregister: true, ..l },
    }
}

/// The shared state after what a listener holds has been applied. What draws
/// into the framebuffer is left out.
pub open spec fn applied(l: CommandListener, before: Global, after: Global) -> bool {
    &&& after.sys_status == before.sys_status
    &&& after.wifi_status == before.wifi_status
    &&& after.cloud_status == match l.device_name {
        Some(name) => CloudStatus { device_name: name, ..before.cloud_status },
        None => before.cloud_status,
    }
    &&& after.oled_status == before.oled_status
    &&& after.command_buf == before.command_buf
    &&& after.command_buf_pos == before.command_buf_pos
    &&& after.wifi_reconnect == (before.wifi_reconnect || l.wifi_reconnect)
    &&& after.reregister == (before.reregister || l.reregister)
    &&& after.iled_config == match l.iled_config {
        Some(config) => config,
        None => before.iled_config,
    }
    &&& after.oled_config == match l.oled_config {
        Some(config) => config,
        None => before.oled_config,
    }
    &&& after.pkg_reload == (before.pkg_reload || l.pkg_updated)
    &&& after.nodem_config == match l.nodem_config {
        Some(config) => config,
        None => before.nodem_config,
    }
}

impl CommandListener {
    /// Whether the configurations in it are within their bounds.
    pub open spec fn wf(self) -> bool {
        &&& self.iled_config matches Some(Some(c)) ==> c@.wf()
        &&& self.nodem_config matches Some(c) ==> c@.wf()
        &&& self.oled_config matches Some(Some(c)) ==> c.wf()
    }

    /// Whether nothing waits to be applied; a restart is no such thing.
    pub open spec fn idle(self) -> bool {
        &&& !self.wifi_reconnect
        &&& !self.reregister
        &&& self.device_name is None
        &&& self.iled_config is None
        &&& self.nodem_config is None
        &&& self.oled_config is None
        &&& !self.pkg_updated
    }

    pub fn new() -> (r: Self)
        ensures
            r.wf(),
            r.idle(),
            !r.restart,
            r.wifi_status.status == WifiConnectionStatus::WaitingForConfiguration,
            r.wifi_status.ssid is None,
            r.wifi_status.wf(),
            r.cloud_status.host is None,
            r.cloud_status.device_name is None,
            r.cloud_status.registration == RegistrationStatus::WaitingForCode,
            r.cloud_status.connection == CloudConnectionStatus::Disconnected,
            r.oled_status.status == OledConnectionStatus::Initializing,
            r.oled_status.errors == 0,
            r.oled_status.reinits == 0,
            r.live_oled_config is None,
            r.live_iled_config is None,
    {
        CommandListener {
            wifi_reconnect: false,
            reregister: false,
            device_name: None,
            restart: false,
            iled_config: None,
            nodem_config: None,
            oled_config: None,
            wifi_status: WifiStatus::new(),
            cloud_status: CloudStatus::new(),
            oled_status: OledStatus::new(),
            live_oled_config: None,
            live_iled_config: None,
            pkg_updated: false,
        }
    }

    pub fn take_wifi_reconnect(&mut self) -> (r: bool)
        ensures
            r == old(self).wifi_reconnect,
            *final(self) == (CommandListener { wifi_reconnect: false, ..*old(self) }),
    {
        let r: bool = self.wifi_reconnect;
        self.wifi_reconnect = false;
        r
    }

    pub fn take_reregister(&mut self) -> (r: bool)
        ensures
            r == old(self).reregister,
            *final(self) == (CommandListener { reregister: false, ..*old(self) }),
    {
        let r: bool = self.reregister;
        self.reregister = false;
        r
    }

    pub fn take_device_name(&mut self) -> (r: Option<Option<String>>)
        ensures
            r == old(self).device_name,
            *final(self) == (CommandListener { device_name: None, ..*old(self) }),
    {
        self.device_name.take()
    }

    /// Whether a restart was asked for. To be taken once the answer to the
    /// command has been sent.
    pub fn take_restart(&mut self) -> (r: bool)
        ensures
            r == old(self).restart,
            *final(self) == (CommandListener { restart: false, ..*old(self) }),
    {
        let r: bool = self.restart;
        self.restart = false;
        r
    }

    pub fn take_iled_config(&mut self) -> (r: Option<Option<IledConfig>>)
        ensures
            r == old(self).iled_config,
            *final(self) == (CommandListener { iled_config: None, ..*old(self) }),
    {
        self.iled_config.take()
    }

    pub fn take_nodem_config(&mut self) -> (r: Option<NodemConfig>)
        ensures
            r == old(self).nodem_config,
            *final(self) == (CommandListener { nodem_config: None, ..*old(self) }),
    {
        self.nodem_config.take()
    }

    pub fn take_oled_config(&mut self) -> (r: Option<Option<OledConfig>>)
        ensures
            r == old(self).oled_config,
            *final(self) == (CommandListener { oled_config: None, ..*old(self) }),
    {
        self.oled_config.take()
    }

    pub fn take_pkg_updated(&mut self) -> (r: bool)
        ensures
            r == old(self).pkg_updated,
            *final(self) == (CommandListener { pkg_updated: false, ..*old(self) }),
    {
        let r: bool = self.pkg_updated;
        self.pkg_updated = false;
        r
    }

    /// Remembers the state that "#stat" shows.
    pub fn update_status(&mut self, g: &Global)
        ensures
            *final(self) == (CommandListener {
                wifi_status: g.wifi_status,
                cloud_status: g.cloud_status,
                oled_status: g.oled_status,
                live_oled_config: g.oled_config,
                live_iled_config: g.iled_config,
                ..*old(self)
            }),
    {
        self.wifi_status = g.wifi_status.clone();
        self.cloud_status = g.cloud_status.clone();
        self.oled_status = g.oled_status.clone();
        self.live_oled_config = g.oled_config;
        self.live_iled_config = g.iled_config;
    }

    /// Ends a plan: how it went is sent back, and where it takes effect, the
    /// listener holds its effect.
    pub fn finish(&mut self, run: Run) -> (r: Ret)
        requires
            old(self).wf(),
            run.wf(),
            run.over(),
        ensures
            final(self).wf(),
            r == ret_of(run.plan@, run.failed),
            r is Done <==> !run.failed && !run.plan.malformed,
            r is Error <==> run.failed,
            r is MalformedValue <==> !run.failed && run.plan.malformed,
            *final(self) == if takes_effect(run.plan@, run.failed) {
                effected(*old(self), run.plan.effect)
            } else {
                *old(self)
            },
    {
        let r: Ret = if run.failed {
            Ret::Error
        } else if run.plan.malformed {
            Ret::MalformedValue
        } else {
            Ret::Done
        };
        if !run.plan.halting || r == Ret::Done {
            match run.plan.effect {
                Effect::Nothing => {},
                Effect::Restart => {
                    self.restart = true;
                },
                Effect::Factory { nodem, iled, oled } => {
                    self.nodem_config = Some(nodem);
                    self.oled_config = Some(Some(oled));
                    self.iled_config = Some(Some(iled));
                    self.device_name = Some(None);
                    self.wifi_reconnect = true;
                    self.reregister = true;
                },
                Effect::WifiReconnect => {
                    self.wifi_reconnect = true;
                },
                Effect::Register(name) => {
                    self.device_name = Some(Some(name));
                    self.reregister = true;
                },
                Effect::Name(name) => {
                    self.device_name = Some(Some(name));
                },
                Effect::Iled(config) => {
                    self.iled_config = Some(config);
                },
                Effect::Nodem(config) => {
                    self.nodem_config = Some(config);
                },
                Effect::Oled(config) => {
                    self.oled_config = Some(config);
                },
                Effect::Reregister => {
                    self.reregister = true;
                },
            }
        }
        r
    }

    /// The pkg has been invalidated.
    pub fn pkg_erased(&mut self)
        ensures
            *final(self) == (CommandListener { pkg_updated: true, ..*old(self) }),
    {
        self.pkg_updated = true;
    }

    /// An upload has ended: a new pkg is to be loaded, a new firmware to be
    /// started.
    pub fn uploaded(&mut self, mode: UploadMode, result: LoaderResult)
        ensures
            *final(self) == match (mode, result) {
                (UploadMode::Pkg, LoaderResult::Accepted) => CommandListener {
                    pkg_updated: true,
                    ..*old(self)
                },
                (UploadMode::Ota, LoaderResult::Accepted) => CommandListener {
                    restart: true,
                    ..*old(self)
                },
                _ => *old(self),
            },
    {
        match (mode, result) {
            (UploadMode::Pkg, LoaderResult::Accepted) => {
                self.pkg_updated = true;
            },
            (UploadMode::Ota, LoaderResult::Accepted) => {
                self.restart = true;
            },
            _ => {},
        }
    }

    /// Hands everything but a restart over to the shared state. Returns
    /// whether there is a new framebuffer, as `Global::resize_display` does.
    pub fn apply(&mut self, g: &mut Global) -> (r: bool)
        requires
            old(self).wf(),
            old(g).wf(),
        ensures
            final(self).wf(),
            final(self).idle(),
            final(self).restart == old(self).restart,
            final(self).wifi_status == old(self).wifi_status,
            final(self).cloud_status == old(self).cloud_status,
            final(self).oled_status == old(self).oled_status,
            final(self).live_oled_config == old(self).live_oled_config,
            final(self).live_iled_config == old(self).live_iled_config,
            final(g).wf(),
            applied(*old(self), *old(g), *final(g)),
            r == !same_shape(final(g).nodem_config@, old(g).nodem_config@),
            !r ==> final(g).display_buffer@ == old(g).display_buffer@,
            !r ==> final(g).display_buffer_dirty == old(g).display_buffer_dirty,
            r ==> final(g).display_buffer@ == Seq::new(
                final(g).nodem_config@.buffer_len(),
                |i: int| 0u8,
            ) && final(g).display_buffer_dirty@ == seq![true, true],
    {
        if self.take_wifi_reconnect() {
            g.wifi_reconnect = true;
        }
        if self.take_reregister() {
            g.reregister = true;
        }
        if let Some(name) = self.take_device_name() {
            g.cloud_status.device_name = name;
        }
        if let Some(config) = self.take_iled_config() {
            g.iled_config = config;
        }
        if let Some(config) = self.take_oled_config() {
            g.oled_config = config;
        }
        if self.take_pkg_updated() {
            g.pkg_reload = true;
        }
        match self.take_nodem_config() {
            Some(config) => g.resize_display(config),
            None => false,
        }
    }
}

// ---------------------------------------------------------------------------
// Remembering the page
// ---------------------------------------------------------------------------

/// The write that remembers a page, where another one is stored: the storage
/// wears, and pages may change often. A value too long for a page number is
/// not stored.
pub fn page_write(page: &str, stored: Option<&str>) -> (r: Option<NvsOp>)
    ensures
        r is Some <==> fits(page@, 1, 3) && !(stored matches Some(s) && s@ == page@),
        r is Some <==> 1 <= encode_utf8(page@).len() <= 3 && !(stored matches Some(s) && s@ == page@),
        r matches Some(op) ==> op@ == storing(
            nodem::NVS_NAMESPACE@,
            nodem::NVS_KEY_LAST_PAGE@,
            page@,
        ),
{
    let known: bool = match stored {
        Some(s) => same(s, page),
        None => false,
    };
    let n: usize = byte_len(page);
    if known || n < 1 || n > 3 {
        None
    } else {
        Some(store(nodem::NVS_NAMESPACE, nodem::NVS_KEY_LAST_PAGE, page))
    }
}

// ---------------------------------------------------------------------------
// Showing the configuration
// ---------------------------------------------------------------------------

/// A key that "#cfg" shows.
#[derive(Clone, Copy, Debug)]
pub struct ConfigKey {
    pub namespace: &'static str,
    pub key: &'static str,
    /// Only the length of the value is shown.
    pub masked: bool,
}

/// What a key is.
pub struct ConfigKeyModel {
    pub namespace: Seq<char>,
    pub key: Seq<char>,
    pub masked: bool,
}

impl View for ConfigKey {
    type V = ConfigKeyModel;

    open spec fn view(&self) -> ConfigKeyModel {
        ConfigKeyModel { namespace: self.namespace@, key: self.key@, masked: self.masked }
    }
}

/// The keys that "#cfg" shows, in order.
pub open spec fn config_key_models() -> Seq<ConfigKeyModel> {
    let w = wifi::NVS_NAMESPACE@;
    let d = websocket::NVS_NAMESPACE@;
    let n = nodem::NVS_NAMESPACE@;
    seq![
        ConfigKeyModel { namespace: w, key: wifi::NVS_KEY_SSID@, masked: false },
        ConfigKeyModel { namespace: w, key: wifi::NVS_KEY_PASS@, masked: true },
        ConfigKeyModel { namespace: d, key: websocket::NVS_KEY_DEVICE_NAME@, masked: false },
        ConfigKeyModel { namespace: d, key: websocket::NVS_KEY_REGISTRATION_CODE@, masked: true },
        ConfigKeyModel { namespace: d, key: websocket::NVS_KEY_CLOUD_HOST@, masked: false },
        ConfigKeyModel { namespace: iled::NVS_NAMESPACE@, key: iled::NVS_KEY_CONFIG@, masked: false },
        ConfigKeyModel { namespace: n, key: nodem::NVS_KEY_LAST_PAGE@, masked: false },
        ConfigKeyModel { namespace: n, key: nodem::NVS_KEY_CONFIG@, masked: false },
        ConfigKeyModel { namespace: oled::NVS_NAMESPACE@, key: oled::NVS_KEY_CONFIG@, masked: false },
    ]
}

/// The models of a vector's keys.
pub open spec fn key_models(v: Seq<ConfigKey>) -> Seq<ConfigKeyModel> {
    v.map_values(|k: ConfigKey| k@)
}

/// The keys that "#cfg" shows, in order.
pub fn config_keys() -> (r: Vec<ConfigKey>)
    ensures
        key_models(r@) == config_key_models(),
{
    let mut v: Vec<ConfigKey> = Vec::new();
    v.push(
        ConfigKey { namespace: wifi::NVS_NAMESPACE, key: wifi::NVS_KEY_SSID, masked: false },
    );
    v.push(ConfigKey { namespace: wifi::NVS_NAMESPACE, key: wifi::NVS_KEY_PASS, masked: true });
    v.push(
        ConfigKey {
            namespace: websocket::NVS_NAMESPACE,
            key: websocket::NVS_KEY_DEVICE_NAME,
            masked: false,
        },
    );
    v.push(
        ConfigKey {
            namespace: websocket::NVS_NAMESPACE,
            key: websocket::NVS_KEY_REGISTRATION_CODE,
            masked: true,
        },
    );
    v.push(
        ConfigKey {
            namespace: websocket::NVS_NAMESPACE,
            key: websocket::NVS_KEY_CLOUD_HOST,
            masked: false,
        },
    );
    v.push(
        ConfigKey { namespace: iled::NVS_NAMESPACE, key: iled::NVS_KEY_CONFIG, masked: false },
    );
    v.push(
        ConfigKey { namespace: nodem::NVS_NAMESPACE, key: nodem::NVS_KEY_LAST_PAGE, masked: false },
    );
    v.push(
        ConfigKey { namespace: nodem::NVS_NAMESPACE, key: nodem::NVS_KEY_CONFIG, masked: false },
    );
    v.push(
        ConfigKey { namespace: oled::NVS_NAMESPACE, key: oled::NVS_KEY_CONFIG, masked: false },
    );
    proof {
        assert(key_models(v@) =~= config_key_models());
    }
    v
}

/// The line that shows a key: its value, or an asterisk for each of its bytes.
pub open spec fn config_line(key: ConfigKeyModel, value: Option<String>) -> Seq<char> {
    let v = text_or(value, seq![]);
    let shown = if key.masked {
        repeated('*', encode_utf8(v).len())
    } else {
        v
    };
    key.key + "="@ + shown + "\r\n"@
}

/// The lines that show keys.
pub open spec fn config_lines(keys: Seq<ConfigKeyModel>, values: Seq<Option<String>>) -> Seq<char>
    decreases keys.len(),
{
    if keys.len() == 0 {
        seq![]
    } else {
        config_lines(keys.drop_last(), values.drop_last()) + config_line(keys.last(), values.last())
    }
}

/// The answer to "#cfg": a line for each of `config_keys`, whose values are
/// given.
pub fn config_text(values: &Vec<Option<String>>) -> (r: String)
    requires
        values@.len() == config_key_models().len(),
    ensures
        r@ == config_lines(config_key_models(), values@),
{
    let keys: Vec<ConfigKey> = config_keys();
    let mut out: String = String::new();
    let ghost ks = config_key_models();
    proof {
        assert(ks.take(0) =~= seq![]);
        reveal_strlit("");
        assert(""@ =~= Seq::<char>::empty());
    }
    for i in 0..keys.len()
        invariant
            ks == config_key_models(),
            key_models(keys@) == ks,
            values@.len() == ks.len(),
            ""@ == Seq::<char>::empty(),
            out@ == config_lines(ks.take(i as int), values@.take(i as int)),
    {
        let k: ConfigKey = keys[i];
        proof {
            assert(ks[i as int] == k@);
            assert(ks.take(i + 1).drop_last() =~= ks.take(i as int));
            assert(values@.take(i + 1).drop_last() =~= values@.take(i as int));
        }
        out.append(k.key);
        out.append("=");
        if k.masked {
            let n: usize = match &values[i] {
                Some(v) => byte_len(v.as_str()),
                None => byte_len(""),
            };
            push_stars(&mut out, n);
        } else {
            push_text_or(&mut out, &values[i], "");
        }
        out.append("\r\n");
        proof {
            assert(out@ =~= config_lines(ks.take(i + 1), values@.take(i + 1)));
        }
    }
    proof {
        assert(ks.take(ks.len() as int) =~= ks);
        assert(values@.take(ks.len() as int) =~= values@);
    }
    out
}

// ---------------------------------------------------------------------------
// Showing the state
// ---------------------------------------------------------------------------

/// Wi-Fi in a word, and why it failed.
pub open spec fn wifi_word(s: WifiConnectionStatus) -> (Seq<char>, Seq<char>) {
    match s {
        WifiConnectionStatus::WaitingForConfiguration => ("waiting"@, ""@),
        WifiConnectionStatus::Connecting => ("connecting"@, ""@),
        WifiConnectionStatus::Connected => ("connected"@, ""@),
        WifiConnectionStatus::Failed(e) => ("failed"@, e@),
    }
}

/// The registration in a word, and why it failed.
pub open spec fn registration_word(s: RegistrationStatus) -> (Seq<char>, Seq<char>) {
    match s {
        RegistrationStatus::WaitingForCode => ("waiting"@, ""@),
        RegistrationStatus::Registering => ("registering"@, ""@),
        RegistrationStatus::Registered => ("registered"@, ""@),
        RegistrationStatus::Failed(e) => ("failed"@, e@),
    }
}

/// The connection in a word.
pub open spec fn connection_word(s: CloudConnectionStatus) -> Seq<char> {
    match s {
        CloudConnectionStatus::Disconnected => "disconnected"@,
        CloudConnectionStatus::Connecting => "connecting"@,
        CloudConnectionStatus::Connected => "connected"@,
    }
}

/// The display in a word, or why it failed.
pub open spec fn display_word(s: OledConnectionStatus) -> Seq<char> {
    match s {
        OledConnectionStatus::Connected => "ok"@,
        OledConnectionStatus::Initializing => "initializing"@,
        OledConnectionStatus::Disabled => "disabled"@,
        OledConnectionStatus::Failed(e) => e@,
    }
}

/// "wifi,<state>,<ssid>,<ip>,<mask>,<gateway>,<rssi>,<error>". The error is
/// last, since it may hold commas.
pub open spec fn wifi_stat(w: WifiStatus) -> Seq<char> {
    let rssi = match w.rssi {
        Some(n) => signed_decimal(n as int),
        None => ""@,
    };
    "wifi,"@ + wifi_word(w.status).0 + ","@ + text_or(w.ssid, ""@) + ","@ + ip_or(w.ip, ""@) + ","@
        + ip_or(w.subnet_mask, ""@) + ","@ + ip_or(w.gateway, ""@) + ","@ + rssi + ","@ + wifi_word(
        w.status,
    ).1 + "\r\n"@
}

/// "cloud,<registration>,<connection>,<host>,<device name>,<error>".
pub open spec fn cloud_stat(c: CloudStatus) -> Seq<char> {
    "cloud,"@ + registration_word(c.registration).0 + ","@ + connection_word(c.connection) + ","@
        + text_or(c.host, ""@) + ","@ + text_or(c.device_name, ""@) + ","@ + registration_word(
        c.registration,
    ).1 + "\r\n"@
}

/// "oled,1,<width>x<height>,<state>", or "oled,0,," where it is switched off.
pub open spec fn oled_stat(config: Option<OledConfig>, s: OledConnectionStatus) -> Seq<char> {
    match config {
        Some(c) => "oled,1,"@ + decimal(c.width as nat) + "x"@ + decimal(c.height as nat) + ","@
            + display_word(s) + "\r\n"@,
        None => "oled,0,,\r\n"@,
    }
}

/// "iled,1,<width>x<height>", or "iled,0," where it is switched off.
pub open spec fn iled_stat(config: Option<IledConfig>) -> Seq<char> {
    match config {
        Some(c) => "iled,1,"@ + decimal(c.width as nat) + "x"@ + decimal(c.height as nat)
            + "\r\n"@,
        None => "iled,0,\r\n"@,
    }
}

/// `wifi_stat`, computed.
fn wifi_stat_text(w: &WifiStatus) -> (r: String)
    ensures
        r@ == wifi_stat(*w),
{
    let (word, error): (&str, &str) = match &w.status {
        WifiConnectionStatus::WaitingForConfiguration => ("waiting", ""),
        WifiConnectionStatus::Connecting => ("connecting", ""),
        WifiConnectionStatus::Connected => ("connected", ""),
        WifiConnectionStatus::Failed(e) => ("failed", e.as_str()),
    };
    let mut out: String = "wifi,".to_owned();
    out.append(word);
    out.append(",");
    push_text_or(&mut out, &w.ssid, "");
    out.append(",");
    push_ip(&mut out, w.ip, "");
    out.append(",");
    push_ip(&mut out, w.subnet_mask, "");
    out.append(",");
    push_ip(&mut out, w.gateway, "");
    out.append(",");
    match w.rssi {
        Some(rssi) => push_signed(&mut out, rssi as i64),
        None => out.append(""),
    }
    out.append(",");
    out.append(error);
    out.append("\r\n");
    out
}

/// `cloud_stat`, computed.
fn cloud_stat_text(c: &CloudStatus) -> (r: String)
    ensures
        r@ == cloud_stat(*c),
{
    let (word, error): (&str, &str) = match &c.registration {
        RegistrationStatus::WaitingForCode => ("waiting", ""),
        RegistrationStatus::Registering => ("registering", ""),
        RegistrationStatus::Registered => ("registered", ""),
        RegistrationStatus::Failed(e) => ("failed", e.as_str()),
    };
    let connection: &str = match c.connection {
        CloudConnectionStatus::Disconnected => "disconnected",
        CloudConnectionStatus::Connecting => "connecting",
        CloudConnectionStatus::Connected => "connected",
    };
    let mut out: String = "cloud,".to_owned();
    out.append(word);
    out.append(",");
    out.append(connection);
    out.append(",");
    push_text_or(&mut out, &c.host, "");
    out.append(",");
    push_text_or(&mut out, &c.device_name, "");
    out.append(",");
    out.append(error);
    out.append("\r\n");
    out
}

/// `oled_stat`, computed.
fn oled_stat_text(config: Option<OledConfig>, status: &OledConnectionStatus) -> (r: String)
    ensures
        r@ == oled_stat(config, *status),
{
    match config {
        Some(c) => {
            let state: &str = match status {
                OledConnectionStatus::Connected => "ok",
                OledConnectionStatus::Initializing => "initializing",
                OledConnectionStatus::Disabled => "disabled",
                OledConnectionStatus::Failed(e) => e.as_str(),
            };
            let mut out: String = "oled,1,".to_owned();
            push_number(&mut out, c.width as u64);
            out.append("x");
            push_number(&mut out, c.height as u64);
            out.append(",");
            out.append(state);
            out.append("\r\n");
            out
        },
        None => "oled,0,,\r\n".to_owned(),
    }
}

/// `iled_stat`, computed.
fn iled_stat_text(config: Option<IledConfig>) -> (r: String)
    ensures
        r@ == iled_stat(config),
{
    match config {
        Some(c) => {
            let mut out: String = "iled,1,".to_owned();
            push_number(&mut out, c.width as u64);
            out.append("x");
            push_number(&mut out, c.height as u64);
            out.append("\r\n");
            out
        },
        None => "iled,0,\r\n".to_owned(),
    }
}

impl CommandListener {
    /// The answer to "#stat": a line each for Wi-Fi, cloud, display and chain.
    pub fn status_text(&self) -> (r: String)
        ensures
            r@ == wifi_stat(self.wifi_status) + cloud_stat(self.cloud_status) + oled_stat(
                self.live_oled_config,
                self.oled_status.status,
            ) + iled_stat(self.live_iled_config),
    {
        let mut out: String = wifi_stat_text(&self.wifi_status);
        out.append(cloud_stat_text(&self.cloud_status).as_str());
        out.append(oled_stat_text(self.live_oled_config, &self.oled_status.status).as_str());
        out.append(iled_stat_text(self.live_iled_config).as_str());
        out
    }
}

// ---------------------------------------------------------------------------
// Showing the storage
// ---------------------------------------------------------------------------

/// A value in the storage.
#[derive(Debug)]
pub enum EntryValue {
    Unsigned(u64),
    Signed(i64),
    Text(String),
    /// A blob, of which only the length is shown.
    Blob(usize),
    /// A value that could not be read.
    Unknown,
}

/// An entry of the storage.
#[derive(Debug)]
pub struct Entry {
    pub namespace: String,
    pub key: String,
    pub value: EntryValue,
}

/// The text of a value.
pub open spec fn value_text(v: EntryValue) -> Seq<char> {
    match v {
        EntryValue::Unsigned(n) => decimal(n as nat),
        EntryValue::Signed(n) => signed_decimal(n as int),
        EntryValue::Text(s) => s@,
        EntryValue::Blob(len) => "<blob "@ + decimal(len as nat) + " bytes>"@,
        EntryValue::Unknown => "?"@,
    }
}

/// The line that shows an entry.
pub open spec fn entry_line(e: Entry) -> Seq<char> {
    e.namespace@ + "/"@ + e.key@ + "="@ + value_text(e.value) + "\r\n"@
}

/// The lines that show entries.
pub open spec fn entry_lines(es: Seq<Entry>) -> Seq<char>
    decreases es.len(),
{
    if es.len() == 0 {
        seq![]
    } else {
        entry_lines(es.drop_last()) + entry_line(es.last())
    }
}

/// Appends `entry_line`.
fn push_entry(out: &mut String, e: &Entry)
    ensures
        final(out)@ == old(out)@ + entry_line(*e),
{
    out.append(e.namespace.as_str());
    out.append("/");
    out.append(e.key.as_str());
    out.append("=");
    match &e.value {
        EntryValue::Unsigned(n) => push_number(out, *n),
        EntryValue::Signed(n) => push_signed(out, *n),
        EntryValue::Text(s) => out.append(s.as_str()),
        EntryValue::Blob(len) => {
            out.append("<blob ");
            push_number(out, *len as u64);
            out.append(" bytes>");
        },
        EntryValue::Unknown => out.append("?"),
    }
    out.append("\r\n");
    proof {
        assert(out@ =~= old(out)@ + entry_line(*e));
    }
}

/// The answer to "#nvs": a line for each entry of the storage.
pub fn entries_text(entries: &Vec<Entry>) -> (r: String)
    ensures
        r@ == entry_lines(entries@),
{
    let mut out: String = String::new();
    proof {
        assert(entries@.take(0) =~= seq![]);
    }
    for i in 0..entries.len()
        invariant
            out@ == entry_lines(entries@.take(i as int)),
    {
        push_entry(&mut out, &entries[i]);
        proof {
            assert(entries@.take(i + 1).drop_last() =~= entries@.take(i as int));
        }
    }
    proof {
        assert(entries@.take(entries@.len() as int) =~= entries@);
    }
    out
}

// ---------------------------------------------------------------------------
// Laws
// ---------------------------------------------------------------------------

/// The line of a masked key shows nothing of its value but its length.
pub proof fn lemma_masked_hides(key: ConfigKeyModel, a: String, b: String)
    requires
        key.masked,
        encode_utf8(a@).len() == encode_utf8(b@).len(),
    ensures
        config_line(key, Some(a)) == config_line(key, Some(b)),
{
}

/// Where a plan is stopped by a value that cannot be stored, or by one that
/// cannot be accepted, it has no effect.
pub proof fn lemma_refused_has_no_effect(plan: PlanModel, failed: bool)
    requires
        plan.halting,
        failed || plan.malformed,
    ensures
        !takes_effect(plan, failed),
        ret_of(plan, failed) != Ret::Done,
{
}

/// What cannot be stored counts before what cannot be accepted, and a command
/// is done exactly where there is neither.
pub proof fn lemma_ret_order(plan: PlanModel, failed: bool)
    ensures
        ret_of(plan, failed) is Error <==> failed,
        ret_of(plan, failed) is MalformedValue <==> !failed && plan.malformed,
        ret_of(plan, failed) is Done <==> !failed && !plan.malformed,
        takes_effect(plan, failed) <==> !plan.halting || (!failed && !plan.malformed),
{
}

/// Each effect asks for its own, and leaves alone what else waits.
pub proof fn lemma_effects_are_separate(l: CommandListener, effect: Effect)
    ensures
        ({
            let after = effected(l, effect);
            let factory = effect is Factory;
            &&& after.restart <==> l.restart || effect is Restart
            &&& after.wifi_reconnect <==> l.wifi_reconnect || effect is WifiReconnect || factory
            &&& after.reregister <==> l.reregister || effect is Reregister || effect is Register
                || factory
            &&& after.pkg_updated == l.pkg_updated
            &&& !(effect is Register || effect is Name || factory) ==> after.device_name
                == l.device_name
            &&& !(effect is Iled || factory) ==> after.iled_config == l.iled_config
            &&& !(effect is Nodem || factory) ==> after.nodem_config == l.nodem_config
            &&& !(effect is Oled || factory) ==> after.oled_config == l.oled_config
            &&& after.wifi_status == l.wifi_status
            &&& after.cloud_status == l.cloud_status
            &&& after.oled_status == l.oled_status
            &&& after.live_oled_config == l.live_oled_config
            &&& after.live_iled_config == l.live_iled_config
        }),
{
}

/// What an effect asks for is what it carries: a name, a configuration, or
/// that something is switched off; the last one of a kind counts.
pub proof fn lemma_effects_carry(l: CommandListener, effect: Effect)
    ensures
        ({
            let after = effected(l, effect);
            &&& effect matches Effect::Name(n) ==> after.device_name == Some(Some(n))
            &&& effect matches Effect::Register(n) ==> after.device_name == Some(Some(n))
            &&& effect matches Effect::Iled(c) ==> after.iled_config == Some(c)
            &&& effect matches Effect::Nodem(c) ==> after.nodem_config == Some(c)
            &&& effect matches Effect::Oled(c) ==> after.oled_config == Some(c)
            &&& effect matches Effect::Factory { nodem, iled, oled } ==> {
                &&& after.nodem_config == Some(nodem)
                &&& after.iled_config == Some(Some(iled))
                &&& after.oled_config == Some(Some(oled))
                &&& after.device_name matches Some(name) && name is None
            }
        }),
{
}

/// Nothing that was asked for is lost: a request that waits is seen by the
/// shared state, one that it has already stays, and what was not asked for is
/// left alone.
pub proof fn lemma_requests_arrive(l: CommandListener, before: Global, after: Global)
    requires
        applied(l, before, after),
    ensures
        after.wifi_reconnect <==> before.wifi_reconnect || l.wifi_reconnect,
        after.reregister <==> before.reregister || l.reregister,
        after.pkg_reload <==> before.pkg_reload || l.pkg_updated,
        l.device_name matches Some(name) ==> after.cloud_status.device_name == name,
        l.iled_config matches Some(c) ==> after.iled_config == c,
        l.oled_config matches Some(c) ==> after.oled_config == c,
        l.nodem_config matches Some(c) ==> after.nodem_config == c,
        l.idle() ==> {
            &&& after.cloud_status == before.cloud_status
            &&& after.iled_config == before.iled_config
            &&& after.oled_config == before.oled_config
            &&& after.nodem_config == before.nodem_config
            &&& after.wifi_reconnect == before.wifi_reconnect
            &&& after.reregister == before.reregister
            &&& after.pkg_reload == before.pkg_reload
        },
        after.cloud_status.host == before.cloud_status.host,
        after.cloud_status.registration == before.cloud_status.registration,
        after.cloud_status.connection == before.cloud_status.connection,
        after.wifi_status == before.wifi_status,
        after.command_buf_pos == before.command_buf_pos,
{
}

/// "#cfg" shows no secret: of the password and of the code only the length,
/// of everything else the value; and what the cloud gave is not shown at all.
pub proof fn lemma_secrets_masked(i: int)
    requires
        0 <= i < config_key_models().len(),
    ensures
        ({
            let k = config_key_models()[i];
            &&& k.masked <==> k.key == "pass"@ || k.key == "reg_code"@
            &&& k.key != "device_id"@
            &&& k.key != "device_secret"@
        }),
        config_key_models().len() == 9,
{
    reveal_strlit("ssid");
    reveal_strlit("pass");
    reveal_strlit("device_name");
    reveal_strlit("reg_code");
    reveal_strlit("cloud_host");
    reveal_strlit("iled");
    reveal_strlit("last_page");
    reveal_strlit("nodem");
    reveal_strlit("oled");
    reveal_strlit("device_id");
    reveal_strlit("device_secret");
    assert("ssid"@.len() == 4 && "ssid"@[0] == 's');
    assert("pass"@.len() == 4 && "pass"@[0] == 'p');
    assert("device_name"@.len() == 11);
    assert("reg_code"@.len() == 8);
    assert("cloud_host"@.len() == 10);
    assert("iled"@.len() == 4 && "iled"@[0] == 'i');
    assert("last_page"@.len() == 9 && "last_page"@[0] == 'l');
    assert("nodem"@.len() == 5);
    assert("oled"@.len() == 4 && "oled"@[0] == 'o');
    assert("device_id"@.len() == 9 && "device_id"@[0] == 'd');
    assert("device_secret"@.len() == 13);
}

/// The line of a key that is not masked is the key, an equals sign and the
/// value, which is empty where there is none; that of a masked one has as many
/// asterisks in its place as the value takes bytes.
pub proof fn lemma_config_line_shows(key: ConfigKeyModel, value: Option<String>, i: int)
    ensures
        ({
            let line = config_line(key, value);
            let v = match value {
                Some(s) => s@,
                None => Seq::<char>::empty(),
            };
            let n = key.key.len() as int;
            let shown = line.subrange(n + 1, line.len() - 2);
            &&& line.len() >= n + 3
            &&& line.take(n) == key.key
            &&& line[n] == '='
            &&& line[line.len() - 2] == '\r'
            &&& line[line.len() - 1] == '\n'
            &&& !key.masked ==> shown == v
            &&& key.masked ==> shown.len() == encode_utf8(v).len()
            &&& key.masked && 0 <= i < shown.len() ==> shown[i] == '*'
        }),
{
    reveal_strlit("=");
    reveal_strlit("\r\n");
    let line = config_line(key, value);
    let n = key.key.len() as int;
    assert(line.take(n) =~= key.key);
    let shown = line.subrange(n + 1, line.len() - 2);
    if !key.masked {
        assert(shown =~= text_or(value, seq![]));
    }
}

/// The lines of keys follow each other.
pub proof fn lemma_config_lines_concat(
    keys: Seq<ConfigKeyModel>,
    more: Seq<ConfigKeyModel>,
    values: Seq<Option<String>>,
    others: Seq<Option<String>>,
)
    requires
        keys.len() == values.len(),
        more.len() == others.len(),
    ensures
        config_lines(keys + more, values + others) == config_lines(keys, values) + config_lines(
            more,
            others,
        ),
    decreases more.len(),
{
    if more.len() == 0 {
        assert(keys + more =~= keys);
        assert(values + others =~= values);
        assert(config_lines(keys, values) + config_lines(more, others) =~= config_lines(
            keys,
            values,
        ));
    } else {
        assert((keys + more).drop_last() =~= keys + more.drop_last());
        assert((values + others).drop_last() =~= values + others.drop_last());
        lemma_config_lines_concat(keys, more.drop_last(), values, others.drop_last());
        assert(config_lines(keys + more, values + others) =~= config_lines(keys, values)
            + config_lines(more, others));
    }
}

/// The lines of entries follow each other.
pub proof fn lemma_entry_lines_concat(a: Seq<Entry>, b: Seq<Entry>)
    ensures
        entry_lines(a + b) == entry_lines(a) + entry_lines(b),
    decreases b.len(),
{
    if b.len() == 0 {
        assert(a + b =~= a);
        assert(entry_lines(a) + entry_lines(b) =~= entry_lines(a));
    } else {
        assert((a + b).drop_last() =~= a + b.drop_last());
        lemma_entry_lines_concat(a, b.drop_last());
        assert(entry_lines(a + b) =~= entry_lines(a) + entry_lines(b));
    }
}

/// A number is shown so that it reads as itself, signed or not.
pub proof fn lemma_entry_numbers_read(n: u64, k: i64)
    ensures
        number(value_text(EntryValue::Unsigned(n))) == Some(n as nat),
        signed_number(value_text(EntryValue::Signed(k))) == Some(k as int),
{
    lemma_number_of_decimal(n as nat);
    lemma_signed_number_of_decimal(k as int);
}

/// The words of the states are all different, and only a failure has a reason.
pub proof fn lemma_words_tell_apart(
    a: WifiConnectionStatus,
    b: WifiConnectionStatus,
    c: RegistrationStatus,
    d: RegistrationStatus,
)
    ensures
        wifi_word(a).0 == wifi_word(b).0 <==> {
            ||| a is WaitingForConfiguration && b is WaitingForConfiguration
            ||| a is Connecting && b is Connecting
            ||| a is Connected && b is Connected
            ||| a is Failed && b is Failed
        },
        registration_word(c).0 == registration_word(d).0 <==> {
            ||| c is WaitingForCode && d is WaitingForCode
            ||| c is Registering && d is Registering
            ||| c is Registered && d is Registered
            ||| c is Failed && d is Failed
        },
        a matches WifiConnectionStatus::Failed(e) ==> wifi_word(a).1 == e@,
        !(a is Failed) ==> wifi_word(a).1.len() == 0,
        c matches RegistrationStatus::Failed(e) ==> registration_word(c).1 == e@,
        !(c is Failed) ==> registration_word(c).1.len() == 0,
{
    reveal_strlit("");
    reveal_strlit("waiting");
    reveal_strlit("connecting");
    reveal_strlit("connected");
    reveal_strlit("failed");
    reveal_strlit("registering");
    reveal_strlit("registered");
    assert("waiting"@.len() == 7);
    assert("connecting"@.len() == 10 && "connecting"@[0] == 'c');
    assert("connected"@.len() == 9);
    assert("failed"@.len() == 6);
    assert("registering"@.len() == 11);
    assert("registered"@.len() == 10);
}

/// The fields of the line that shows Wi-Fi, in their order. The reason of a
/// failure is last and may hold commas.
pub proof fn lemma_wifi_stat_fields(w: WifiStatus)
    requires
        w.ssid matches Some(s) ==> lacks(s@, ','),
    ensures
        pieces(wifi_stat(w), ',') == seq![
            "wifi"@,
            wifi_word(w.status).0,
            match w.ssid {
                Some(s) => s@,
                None => seq![],
            },
            match w.ip {
                Some(ip) => ip_text(ip),
                None => seq![],
            },
            match w.subnet_mask {
                Some(ip) => ip_text(ip),
                None => seq![],
            },
            match w.gateway {
                Some(ip) => ip_text(ip),
                None => seq![],
            },
            match w.rssi {
                Some(n) => signed_decimal(n as int),
                None => seq![],
            },
        ] + pieces(wifi_word(w.status).1 + seq!['\r', '\n'], ','),
{
    let word = wifi_word(w.status).0;
    let error = wifi_word(w.status).1;
    let ssid = text_or(w.ssid, ""@);
    let ip = ip_or(w.ip, ""@);
    let mask = ip_or(w.subnet_mask, ""@);
    let gateway = ip_or(w.gateway, ""@);
    let rssi = match w.rssi {
        Some(n) => signed_decimal(n as int),
        None => ""@,
    };
    lemma_stat_marks();
    assert(lacks(word, ','));
    lemma_ip_or_no_comma(w.ip);
    lemma_ip_or_no_comma(w.subnet_mask);
    lemma_ip_or_no_comma(w.gateway);
    if let Some(n) = w.rssi {
        lemma_signed_decimal_chars(n as int);
    }
    let s1 = "wifi"@ + ","@ + word;
    let s6 = s1 + ","@ + ssid + ","@ + ip + ","@ + mask + ","@ + gateway + ","@ + rssi;
    let last = error + "\r\n"@;
    assert(wifi_stat(w) == s6 + ","@ + last) by {
        assert("wifi,"@ + word =~= s1);
        assert(s6 + ","@ + error + "\r\n"@ =~= s6 + ","@ + last);
    }
    assert(pieces(s6, ',') == seq!["wifi"@, word, ssid, ip, mask, gateway, rssi]) by {
        lemma_seven_fields("wifi"@, word, ssid, ip, mask, gateway, rssi);
    }
    lemma_pieces_concat(s6, ',', last);
}

/// Seven fields with commas between them.
proof fn lemma_seven_fields(
    a: Seq<char>,
    b: Seq<char>,
    c: Seq<char>,
    d: Seq<char>,
    e: Seq<char>,
    f: Seq<char>,
    g: Seq<char>,
)
    requires
        lacks(a, ',') && lacks(b, ',') && lacks(c, ',') && lacks(d, ','),
        lacks(e, ',') && lacks(f, ',') && lacks(g, ','),
    ensures
        pieces(
            a + ","@ + b + ","@ + c + ","@ + d + ","@ + e + ","@ + f + ","@ + g,
            ',',
        ) == seq![a, b, c, d, e, f, g],
{
    reveal_strlit(",");
    let m = ","@;
    assert(m =~= seq![',']);
    lemma_pieces_one(a, ',');
    lemma_pieces_snoc(a, ',', b);
    lemma_pieces_snoc(a + m + b, ',', c);
    lemma_pieces_snoc(a + m + b + m + c, ',', d);
    lemma_pieces_snoc(a + m + b + m + c + m + d, ',', e);
    lemma_pieces_snoc(a + m + b + m + c + m + d + m + e, ',', f);
    lemma_pieces_snoc(a + m + b + m + c + m + d + m + e + m + f, ',', g);
    assert(seq![a].push(b).push(c).push(d).push(e).push(f).push(g) =~= seq![a, b, c, d, e, f, g]);
}

/// An address, or nothing, holds no comma.
proof fn lemma_ip_or_no_comma(ip: Option<Ipv4Addr>)
    ensures
        lacks(ip_or(ip, ""@), ','),
{
    reveal_strlit("");
    if let Some(a) = ip {
        lemma_ip_no_comma(a);
    }
}

/// What the literals of the lines hold.
proof fn lemma_stat_marks()
    ensures
        ""@ == Seq::<char>::empty(),
        ","@ == seq![','],
        "\r\n"@ == seq!['\r', '\n'],
        "wifi,"@ == "wifi"@ + ","@,
        "cloud,"@ == "cloud"@ + ","@,
        lacks("wifi"@, ','),
        lacks("cloud"@, ','),
        lacks("waiting"@, ','),
        lacks("connecting"@, ','),
        lacks("connected"@, ','),
        lacks("disconnected"@, ','),
        lacks("registering"@, ','),
        lacks("registered"@, ','),
        lacks("failed"@, ','),
{
    reveal_strlit("");
    reveal_strlit(",");
    reveal_strlit("\r\n");
    reveal_strlit("wifi,");
    reveal_strlit("wifi");
    reveal_strlit("cloud,");
    reveal_strlit("cloud");
    reveal_strlit("waiting");
    reveal_strlit("connecting");
    reveal_strlit("connected");
    reveal_strlit("disconnected");
    reveal_strlit("registering");
    reveal_strlit("registered");
    reveal_strlit("failed");
    assert(","@ =~= seq![',']);
    assert("wifi,"@ =~= "wifi"@ + ","@);
    assert("cloud,"@ =~= "cloud"@ + ","@);
}

/// The fields of the line that shows the cloud connection, in their order.
pub proof fn lemma_cloud_stat_fields(s: CloudStatus)
    requires
        s.host matches Some(t) ==> lacks(t@, ','),
        s.device_name matches Some(t) ==> lacks(t@, ','),
    ensures
        pieces(cloud_stat(s), ',') == seq![
            "cloud"@,
            registration_word(s.registration).0,
            connection_word(s.connection),
            match s.host {
                Some(t) => t@,
                None => seq![],
            },
            match s.device_name {
                Some(t) => t@,
                None => seq![],
            },
        ] + pieces(registration_word(s.registration).1 + seq!['\r', '\n'], ','),
{
    let word = registration_word(s.registration).0;
    let error = registration_word(s.registration).1;
    let connection = connection_word(s.connection);
    let host = text_or(s.host, ""@);
    let name = text_or(s.device_name, ""@);
    lemma_stat_marks();
    assert(lacks(word, ','));
    assert(lacks(connection, ','));
    let s1 = "cloud"@ + ","@ + word;
    let s2 = s1 + ","@ + connection;
    let s3 = s2 + ","@ + host;
    let s4 = s3 + ","@ + name;
    assert("cloud,"@ + word =~= s1);
    assert(s4 + ","@ + error + "\r\n"@ =~= s4 + ","@ + (error + "\r\n"@));
    assert(cloud_stat(s) == s4 + ","@ + (error + "\r\n"@));
    lemma_pieces_one("cloud"@, ',');
    lemma_pieces_snoc("cloud"@, ',', word);
    lemma_pieces_snoc(s1, ',', connection);
    lemma_pieces_snoc(s2, ',', host);
    lemma_pieces_snoc(s3, ',', name);
    lemma_pieces_concat(s4, ',', error + "\r\n"@);
    assert(pieces(s4, ',') =~= seq!["cloud"@, word, connection, host, name]);
}

/// The line that shows an entry names its namespace and its key, and then the
/// value: a text as it is, and of a blob only how long it is.
pub proof fn lemma_entry_line_shows(e: Entry)
    ensures
        ({
            let n = e.namespace@.len() as int;
            let k = e.key@.len() as int;
            let line = entry_line(e);
            &&& line.len() >= n + k + 4
            &&& line.take(n) == e.namespace@
            &&& line[n] == '/'
            &&& line.subrange(n + 1, n + 1 + k) == e.key@
            &&& line[n + 1 + k] == '='
            &&& line[line.len() - 2] == '\r'
            &&& line[line.len() - 1] == '\n'
            &&& e.value matches EntryValue::Text(t) ==> line.subrange(n + k + 2, line.len() - 2)
                == t@
            &&& e.value matches EntryValue::Unsigned(v) ==> line.subrange(
                n + k + 2,
                line.len() - 2,
            ) == decimal(v as nat)
            &&& e.value matches EntryValue::Signed(v) ==> line.subrange(n + k + 2, line.len() - 2)
                == signed_decimal(v as int)
        }),
{
    reveal_strlit("/");
    reveal_strlit("=");
    reveal_strlit("\r\n");
    let n = e.namespace@.len() as int;
    let k = e.key@.len() as int;
    let line = entry_line(e);
    assert(line.take(n) =~= e.namespace@);
    assert(line.subrange(n + 1, n + 1 + k) =~= e.key@);
    assert(line.subrange(n + k + 2, line.len() - 2) =~= value_text(e.value));
}

/// A plan goes on to its last write, unless a value could not be stored and
/// that stops it; a key that could not be removed never does.
pub proof fn lemma_run_goes_on(run: Run)
    requires
        run.wf(),
    ensures
        !run.plan.halting || !run.failed ==> (run.over() <==> run.done == run.plan.ops@.len()),
        run.plan.halting && run.failed ==> run.over(),
        !run.over() ==> run.done < run.plan.ops@.len(),
        !run.over() ==> (run.next_stores() <==> op_models(run.plan.ops@)[run.done as int] is Store),
{
}

} // verus!
