//! The commands that set the device up. A line is turned into writes to the
//! storage and an effect on the running device; the writes are carried out one
//! by one, and how they went decides whether the effect takes place.
use crate::iled;
use crate::iled::{
    IledConfig, IledModel, blank_model, default_model, iled_of, iled_text, lemma_blank_fields,
    lemma_default_text_fits, lemma_iled_canonical, lemma_iled_roundtrip, lemma_iled_text_chars,
};
use crate::nodem;
use crate::nodem::{
    NodemConfig, NodemModel, default_nodem, lemma_nodem_canonical, lemma_nodem_of_wf,
    lemma_nodem_roundtrip, lemma_nodem_text_chars, lemma_nodem_text_fits, nodem_of, nodem_text,
};
use crate::nvs::{
    NvsModel, NvsOp, Stored, after_ops, key_of, left_by, lemma_last_write_stays, op_models, remove,
    store,
};
use crate::oled;
use crate::oled::{
    OledConfig, default_oled, lemma_oled_roundtrip, lemma_oled_text_chars, lemma_oled_text_fits,
    oled_of, oled_text,
};
use crate::text::{
    byte_len, field, fields, first_at, is_digit, is_space, lacks, lemma_first_at, lemma_pieces_join,
    lemma_trimmed_plain, no_space, number, number_upto, parse_number, piece_at, same, split_once,
    split_trimmed, strip_first, trim, trimmed,
};
use crate::websocket;
use crate::websocket::{
    CredentialPlan, DEVICE_NAME_MAX_LEN, DEVICE_NAME_MIN_LEN, credentials_of, is_device_name,
};
use crate::wifi;
use vstd::prelude::*;
use vstd::utf8::*;

verus! {

broadcast use vstd::string::group_string_axioms;

/// The label of the partition that holds the pkg.
pub const PKG_PARTITION_LABEL: &'static str = "pkg";

/// How a command went.
#[derive(Clone, Copy, PartialEq, Eq, Debug, Structural)]
pub enum Ret {
    Done,
    Error,
    MalformedValue,
}

impl Ret {
    /// The number that is sent back.
    pub open spec fn number(self) -> u8 {
        match self {
            Ret::Done => 0,
            Ret::Error => 1,
            Ret::MalformedValue => 2,
        }
    }

    /// The number that is sent back.
    pub fn code(self) -> (r: u8)
        ensures
            r == self.number(),
            r == 0 <==> self is Done,
            r == 1 <==> self is Error,
            r == 2 <==> self is MalformedValue,
    {
        match self {
            Ret::Done => 0,
            Ret::Error => 1,
            Ret::MalformedValue => 2,
        }
    }
}

// ---------------------------------------------------------------------------
// Plans
// ---------------------------------------------------------------------------

/// What a command does to the running device.
#[derive(Debug)]
pub enum Effect {
    Nothing,
    Restart,
    /// Everything is as on the first start.
    Factory { nodem: NodemConfig, iled: IledConfig, oled: OledConfig },
    WifiReconnect,
    /// The device has this name and registers again.
    Register(String),
    Name(String),
    Iled(Option<IledConfig>),
    Nodem(NodemConfig),
    Oled(Option<OledConfig>),
    Reregister,
}

/// What an effect is.
pub enum EffectModel {
    Nothing,
    Restart,
    Factory { nodem: NodemModel, iled: IledModel, oled: OledConfig },
    WifiReconnect,
    Register(Seq<char>),
    Name(Seq<char>),
    Iled(Option<IledModel>),
    Nodem(NodemModel),
    Oled(Option<OledConfig>),
    Reregister,
}

impl View for Effect {
    type V = EffectModel;

    open spec fn view(&self) -> EffectModel {
        match *self {
            Effect::Nothing => EffectModel::Nothing,
            Effect::Restart => EffectModel::Restart,
            Effect::Factory { nodem, iled, oled } => EffectModel::Factory {
                nodem: nodem@,
                iled: iled@,
                oled,
            },
            Effect::WifiReconnect => EffectModel::WifiReconnect,
            Effect::Register(name) => EffectModel::Register(name@),
            Effect::Name(name) => EffectModel::Name(name@),
            Effect::Iled(config) => EffectModel::Iled(
                match config {
                    Some(c) => Some(c@),
                    None => None,
                },
            ),
            Effect::Nodem(config) => EffectModel::Nodem(config@),
            Effect::Oled(config) => EffectModel::Oled(config),
            Effect::Reregister => EffectModel::Reregister,
        }
    }
}

impl EffectModel {
    /// Whether the configurations in it are within their bounds.
    pub open spec fn wf(self) -> bool {
        match self {
            EffectModel::Factory { nodem, iled, oled } => nodem.wf() && iled.wf() && oled.wf(),
            EffectModel::Iled(Some(c)) => c.wf(),
            EffectModel::Nodem(c) => c.wf(),
            EffectModel::Oled(Some(c)) => c.wf(),
            _ => true,
        }
    }
}

/// What a command does: writes in order, and then its effect.
#[derive(Debug)]
pub struct Plan {
    pub ops: Vec<NvsOp>,
    /// Whether a value that cannot be stored stops the writes and the effect.
    pub halting: bool,
    /// Whether a value of the command cannot be accepted. The writes are those
    /// in front of it.
    pub malformed: bool,
    /// Whether the pkg is to be invalidated after the writes.
    pub erase_pkg: bool,
    pub effect: Effect,
}

/// What a plan is.
#[verifier::ext_equal]
pub struct PlanModel {
    pub ops: Seq<NvsModel>,
    pub halting: bool,
    pub malformed: bool,
    pub erase_pkg: bool,
    pub effect: EffectModel,
}

impl View for Plan {
    type V = PlanModel;

    open spec fn view(&self) -> PlanModel {
        PlanModel {
            ops: op_models(self.ops@),
            halting: self.halting,
            malformed: self.malformed,
            erase_pkg: self.erase_pkg,
            effect: self.effect@,
        }
    }
}

/// Whether a value takes between `min` and `max` bytes.
pub open spec fn fits(value: Seq<char>, min: int, max: int) -> bool {
    min <= encode_utf8(value).len() <= max
}

/// A write to store a value.
pub open spec fn storing(namespace: Seq<char>, key: Seq<char>, value: Seq<char>) -> NvsModel {
    NvsModel::Store { namespace, key, value }
}

/// A write to remove a key.
pub open spec fn removing(namespace: Seq<char>, key: Seq<char>) -> NvsModel {
    NvsModel::Remove { namespace, key }
}

/// A plan that stops at the first value that cannot be stored.
pub open spec fn halting(ops: Seq<NvsModel>, effect: EffectModel) -> PlanModel {
    PlanModel { ops, halting: true, malformed: false, erase_pkg: false, effect }
}

/// A plan that ends in a value that cannot be accepted, after `ops`.
pub open spec fn refused(ops: Seq<NvsModel>) -> PlanModel {
    PlanModel {
        ops,
        halting: true,
        malformed: true,
        erase_pkg: false,
        effect: EffectModel::Nothing,
    }
}

/// "#wifi,<ssid>,<password>".
pub open spec fn wifi_plan(ssid: Seq<char>, pass: Seq<char>) -> PlanModel {
    let ns = wifi::NVS_NAMESPACE@;
    let first = storing(ns, wifi::NVS_KEY_SSID@, ssid);
    if !fits(ssid, 1, 32) {
        refused(seq![])
    } else if !fits(pass, 8, 63) {
        refused(seq![first])
    } else {
        halting(seq![first, storing(ns, wifi::NVS_KEY_PASS@, pass)], EffectModel::WifiReconnect)
    }
}

/// "#reg,<code>,<name>". Both are looked at before either is written.
pub open spec fn reg_plan(code: Seq<char>, name: Seq<char>) -> PlanModel {
    let ns = websocket::NVS_NAMESPACE@;
    if !fits(code, 6, 6) || !is_device_name(name) {
        refused(seq![])
    } else {
        halting(
            seq![
                storing(ns, websocket::NVS_KEY_REGISTRATION_CODE@, code),
                storing(ns, websocket::NVS_KEY_DEVICE_NAME@, name),
            ],
            EffectModel::Register(name),
        )
    }
}

/// "#name,<name>".
pub open spec fn name_plan(name: Seq<char>) -> PlanModel {
    if !is_device_name(name) {
        refused(seq![])
    } else {
        halting(
            seq![storing(websocket::NVS_NAMESPACE@, websocket::NVS_KEY_DEVICE_NAME@, name)],
            EffectModel::Name(name),
        )
    }
}

/// "#iled", which switches the chain off, or
/// "#iled,<geometry>,<protocol>,<color>,<off_color>". `args` is what follows
/// the comma: where there is one, blank fields are defaults, however few are
/// given.
pub open spec fn iled_plan(args: Option<Seq<char>>) -> PlanModel {
    let ns = iled::NVS_NAMESPACE@;
    let key = iled::NVS_KEY_CONFIG@;
    match args {
        None => halting(seq![removing(ns, key)], EffectModel::Iled(None)),
        Some(args) => match iled_of(args) {
            Some(m) => if fits(iled_text(m), 1, iled::NVS_VALUE_MAX_LEN as int) {
                halting(seq![storing(ns, key, iled_text(m))], EffectModel::Iled(Some(m)))
            } else {
                refused(seq![])
            },
            None => refused(seq![]),
        },
    }
}

/// "#nodem", which sets the default, or
/// "#nodem,<width>:<height>:<bits_per_pixel>[,<device>...]".
pub open spec fn nodem_plan(args: Seq<char>) -> PlanModel {
    let value = trimmed(args);
    let config = if value.len() == 0 {
        Some(default_nodem())
    } else {
        nodem_of(value)
    };
    match config {
        Some(m) => halting(
            seq![storing(nodem::NVS_NAMESPACE@, nodem::NVS_KEY_CONFIG@, nodem_text(m))],
            EffectModel::Nodem(m),
        ),
        None => refused(seq![]),
    }
}

/// "#oled,<protocol>:<width>:<height>:<x>:<y>[:<rotation>]". A value that
/// switches the display off is stored as it is.
pub open spec fn oled_plan(args: Seq<char>) -> PlanModel {
    let value = trimmed(args);
    match oled_of(value) {
        Ok(config) => {
            let text = match config {
                Some(c) => oled_text(c),
                None => value,
            };
            if fits(text, 0, oled::NVS_VALUE_MAX_LEN as int) {
                halting(
                    seq![storing(oled::NVS_NAMESPACE@, oled::NVS_KEY_CONFIG@, text)],
                    EffectModel::Oled(config),
                )
            } else {
                refused(seq![])
            }
        },
        Err(_) => refused(seq![]),
    }
}

/// "#host[,<host>]". Credentials mean nothing to another host, so they go in
/// any case.
pub open spec fn host_plan(host: Seq<char>) -> PlanModel {
    let ns = websocket::NVS_NAMESPACE@;
    let key = websocket::NVS_KEY_CLOUD_HOST@;
    let first = if host.len() == 0 {
        seq![removing(ns, key)]
    } else if fits(host, 1, 128) {
        seq![storing(ns, key, host)]
    } else {
        seq![]
    };
    PlanModel {
        ops: first + seq![
            removing(ns, websocket::NVS_KEY_DEVICE_ID@),
            removing(ns, websocket::NVS_KEY_DEVICE_SECRET@),
        ],
        halting: false,
        malformed: host.len() > 0 && !fits(host, 1, 128),
        erase_pkg: false,
        effect: EffectModel::Reregister,
    }
}

/// "#factory": what has a default is set to it, everything else goes.
pub open spec fn factory_plan() -> PlanModel {
    let w = wifi::NVS_NAMESPACE@;
    let d = websocket::NVS_NAMESPACE@;
    PlanModel {
        ops: seq![
            removing(w, wifi::NVS_KEY_SSID@),
            removing(w, wifi::NVS_KEY_PASS@),
            removing(w, wifi::NVS_KEY_CONNECT_SUCCESS_COUNT@),
            removing(w, wifi::NVS_KEY_CONNECT_FAIL_COUNT@),
            removing(d, websocket::NVS_KEY_DEVICE_NAME@),
            removing(d, websocket::NVS_KEY_REGISTRATION_CODE@),
            removing(d, websocket::NVS_KEY_DEVICE_ID@),
            removing(d, websocket::NVS_KEY_DEVICE_SECRET@),
            removing(d, websocket::NVS_KEY_CLOUD_HOST@),
            removing(nodem::NVS_NAMESPACE@, nodem::NVS_KEY_LAST_PAGE@),
            storing(nodem::NVS_NAMESPACE@, nodem::NVS_KEY_CONFIG@, nodem_text(default_nodem())),
            storing(iled::NVS_NAMESPACE@, iled::NVS_KEY_CONFIG@, iled_text(default_model())),
            storing(oled::NVS_NAMESPACE@, oled::NVS_KEY_CONFIG@, oled_text(default_oled())),
        ],
        halting: false,
        malformed: false,
        erase_pkg: true,
        effect: EffectModel::Factory {
            nodem: default_nodem(),
            iled: default_model(),
            oled: default_oled(),
        },
    }
}

// ---------------------------------------------------------------------------
// Lines
// ---------------------------------------------------------------------------

/// What a line asks for.
#[derive(Debug)]
pub enum LineAction {
    /// It is no command of this listener.
    Pass,
    /// It is no command of this listener, but the page that it names is to be
    /// remembered; see `page_write`.
    RememberPage(String),
    /// Carry out a plan.
    Write(Plan),
    /// Show the stored configuration; see `config_text`.
    ShowConfig,
    /// Show the state of the device; see `status_text`.
    ShowStatus,
    /// Show everything that is stored; see `entries_text`.
    ShowEntries,
    /// It is a command that does not exist.
    Unknown,
}

/// What a line's action is.
pub enum LineModel {
    Pass,
    RememberPage(Seq<char>),
    Write(PlanModel),
    ShowConfig,
    ShowStatus,
    ShowEntries,
    Unknown,
}

impl View for LineAction {
    type V = LineModel;

    open spec fn view(&self) -> LineModel {
        match *self {
            LineAction::Pass => LineModel::Pass,
            LineAction::RememberPage(page) => LineModel::RememberPage(page@),
            LineAction::Write(plan) => LineModel::Write(plan@),
            LineAction::ShowConfig => LineModel::ShowConfig,
            LineAction::ShowStatus => LineModel::ShowStatus,
            LineAction::ShowEntries => LineModel::ShowEntries,
            LineAction::Unknown => LineModel::Unknown,
        }
    }
}

impl LineAction {
    /// What is sent back for an action that is no plan.
    pub fn ret(&self) -> (r: Ret)
        ensures
            r == if *self is Unknown {
                Ret::Error
            } else {
                Ret::Done
            },
    {
        match self {
            LineAction::Unknown => Ret::Error,
            _ => Ret::Done,
        }
    }
}

/// The text behind a command's comma, empty where there is none.
pub open spec fn args_text(args: Option<Seq<char>>) -> Seq<char> {
    match args {
        Some(args) => args,
        None => seq![],
    }
}

/// The action of a command with its arguments, `None` where no comma follows
/// it.
pub open spec fn command_action(command: Seq<char>, given: Option<Seq<char>>) -> LineModel {
    let args = args_text(given);
    let arg_0 = field(fields(args, ','), 0);
    let arg_1 = field(fields(args, ','), 1);
    if command == "reset"@ {
        LineModel::Write(halting(seq![], EffectModel::Restart))
    } else if command == "factory"@ {
        LineModel::Write(factory_plan())
    } else if command == "wifi"@ {
        LineModel::Write(wifi_plan(arg_0, arg_1))
    } else if command == "reg"@ {
        LineModel::Write(reg_plan(arg_0, arg_1))
    } else if command == "name"@ {
        LineModel::Write(name_plan(arg_0))
    } else if command == "iled"@ {
        LineModel::Write(iled_plan(given))
    } else if command == "nodem"@ {
        LineModel::Write(nodem_plan(args))
    } else if command == "oled"@ {
        LineModel::Write(oled_plan(args))
    } else if command == "host"@ {
        LineModel::Write(host_plan(arg_0))
    } else if command == "cfg"@ {
        LineModel::ShowConfig
    } else if command == "stat"@ {
        LineModel::ShowStatus
    } else if command == "nvs"@ {
        LineModel::ShowEntries
    } else {
        LineModel::Unknown
    }
}

/// The action of a line. A command starts with `#`, and its arguments follow
/// a comma.
pub open spec fn line_action(line: Seq<char>) -> LineModel {
    if line.len() > 0 && line[0] == '#' {
        let body = line.skip(1);
        let k = first_at(body, ',');
        if k < body.len() {
            command_action(trimmed(body.take(k)), Some(body.skip(k + 1)))
        } else {
            command_action(trimmed(body), None)
        }
    } else {
        let k = first_at(line, '=');
        let value = trimmed(line.skip(k + 1));
        if k < line.len() && trimmed(line.take(k)) == "page"@ && number_upto(value, 255) is Some {
            LineModel::RememberPage(value)
        } else {
            LineModel::Pass
        }
    }
}

/// The bytes of a value are counted.
fn value_fits(value: &str, min: usize, max: usize) -> (r: bool)
    ensures
        r == fits(value@, min as int, max as int),
{
    let n: usize = byte_len(value);
    min <= n && n <= max
}

fn plan_halting(ops: Vec<NvsOp>, effect: Effect) -> (r: Plan)
    ensures
        r@ == halting(op_models(ops@), effect@),
        r.ops == ops,
        r.effect == effect,
{
    Plan { ops, halting: true, malformed: false, erase_pkg: false, effect }
}

fn plan_refused(ops: Vec<NvsOp>) -> (r: Plan)
    ensures
        r@ == refused(op_models(ops@)),
        r.effect == Effect::Nothing,
{
    Plan { ops, halting: true, malformed: true, erase_pkg: false, effect: Effect::Nothing }
}

/// No writes.
fn no_ops() -> (r: Vec<NvsOp>)
    ensures
        op_models(r@) == Seq::<NvsModel>::empty(),
{
    let v: Vec<NvsOp> = Vec::new();
    proof {
        assert(op_models(v@) =~= Seq::<NvsModel>::empty());
    }
    v
}

/// One write.
fn one_op(op: NvsOp) -> (r: Vec<NvsOp>)
    ensures
        op_models(r@) == seq![op@],
{
    let mut v: Vec<NvsOp> = Vec::new();
    v.push(op);
    proof {
        assert(op_models(v@) =~= seq![op@]);
    }
    v
}

/// Appends a write.
fn push_op(v: &mut Vec<NvsOp>, op: NvsOp)
    ensures
        op_models(final(v)@) == op_models(old(v)@).push(op@),
{
    v.push(op);
    proof {
        assert(op_models(v@) =~= op_models(old(v)@).push(op@));
    }
}

fn plan_wifi(ssid: &str, pass: &str) -> (r: Plan)
    ensures
        r@ == wifi_plan(ssid@, pass@),
{
    if !value_fits(ssid, 1, 32) {
        return plan_refused(no_ops());
    }
    let mut ops: Vec<NvsOp> = one_op(store(wifi::NVS_NAMESPACE, wifi::NVS_KEY_SSID, ssid));
    if !value_fits(pass, 8, 63) {
        return plan_refused(ops);
    }
    push_op(&mut ops, store(wifi::NVS_NAMESPACE, wifi::NVS_KEY_PASS, pass));
    let r = plan_halting(ops, Effect::WifiReconnect);
    proof {
        assert(r@.ops =~= wifi_plan(ssid@, pass@).ops);
    }
    r
}

fn plan_reg(code: &str, name: &str) -> (r: Plan)
    ensures
        r@ == reg_plan(code@, name@),
{
    if !value_fits(code, 6, 6) || !value_fits(name, DEVICE_NAME_MIN_LEN, DEVICE_NAME_MAX_LEN) {
        return plan_refused(no_ops());
    }
    let mut ops: Vec<NvsOp> = one_op(
        store(websocket::NVS_NAMESPACE, websocket::NVS_KEY_REGISTRATION_CODE, code),
    );
    push_op(&mut ops, store(websocket::NVS_NAMESPACE, websocket::NVS_KEY_DEVICE_NAME, name));
    let r = plan_halting(ops, Effect::Register(name.to_owned()));
    proof {
        assert(r@.ops =~= reg_plan(code@, name@).ops);
    }
    r
}

fn plan_name(name: &str) -> (r: Plan)
    ensures
        r@ == name_plan(name@),
{
    if !value_fits(name, DEVICE_NAME_MIN_LEN, DEVICE_NAME_MAX_LEN) {
        return plan_refused(no_ops());
    }
    plan_halting(
        one_op(store(websocket::NVS_NAMESPACE, websocket::NVS_KEY_DEVICE_NAME, name)),
        Effect::Name(name.to_owned()),
    )
}

fn plan_iled(given: Option<&str>) -> (r: Plan)
    ensures
        r@ == iled_plan(given_text(given)),
        r@.effect.wf(),
{
    let args: &str = match given {
        Some(args) => args,
        None => {
            return plan_halting(
                one_op(remove(iled::NVS_NAMESPACE, iled::NVS_KEY_CONFIG)),
                Effect::Iled(None),
            );
        },
    };
    match IledConfig::parse(args) {
        Some(config) => {
            let text: String = config.to_csv();
            if !value_fits(text.as_str(), 1, iled::NVS_VALUE_MAX_LEN) {
                return plan_refused(no_ops());
            }
            plan_halting(
                one_op(store(iled::NVS_NAMESPACE, iled::NVS_KEY_CONFIG, text.as_str())),
                Effect::Iled(Some(config)),
            )
        },
        None => plan_refused(no_ops()),
    }
}

fn plan_nodem(args: &str) -> (r: Plan)
    ensures
        r@ == nodem_plan(args@),
        r@.effect.wf(),
{
    let value: &str = trim(args);
    let config: Option<NodemConfig> = if value.is_empty() {
        Some(NodemConfig::default())
    } else {
        NodemConfig::parse(value)
    };
    match config {
        Some(c) => {
            let text: String = c.to_nvs_string();
            plan_halting(
                one_op(store(nodem::NVS_NAMESPACE, nodem::NVS_KEY_CONFIG, text.as_str())),
                Effect::Nodem(c),
            )
        },
        None => plan_refused(no_ops()),
    }
}

fn plan_oled(args: &str) -> (r: Plan)
    ensures
        r@ == oled_plan(args@),
        r@.effect.wf(),
{
    let value: &str = trim(args);
    match OledConfig::parse(value) {
        Ok(config) => {
            let text: String = match config {
                Some(c) => c.to_nvs_string(),
                None => value.to_owned(),
            };
            if !value_fits(text.as_str(), 0, oled::NVS_VALUE_MAX_LEN) {
                return plan_refused(no_ops());
            }
            plan_halting(
                one_op(store(oled::NVS_NAMESPACE, oled::NVS_KEY_CONFIG, text.as_str())),
                Effect::Oled(config),
            )
        },
        Err(_) => plan_refused(no_ops()),
    }
}

fn plan_host(host: &str) -> (r: Plan)
    ensures
        r@ == host_plan(host@),
{
    let mut ops: Vec<NvsOp> = no_ops();
    let mut malformed: bool = false;
    if host.is_empty() {
        push_op(&mut ops, remove(websocket::NVS_NAMESPACE, websocket::NVS_KEY_CLOUD_HOST));
    } else if value_fits(host, 1, 128) {
        push_op(&mut ops, store(websocket::NVS_NAMESPACE, websocket::NVS_KEY_CLOUD_HOST, host));
    } else {
        malformed = true;
    }
    push_op(&mut ops, remove(websocket::NVS_NAMESPACE, websocket::NVS_KEY_DEVICE_ID));
    push_op(&mut ops, remove(websocket::NVS_NAMESPACE, websocket::NVS_KEY_DEVICE_SECRET));
    let r = Plan { ops, halting: false, malformed, erase_pkg: false, effect: Effect::Reregister };
    proof {
        assert(r@.ops =~= host_plan(host@).ops);
    }
    r
}

fn plan_factory() -> (r: Plan)
    ensures
        r@ == factory_plan(),
        r@.effect.wf(),
{
    let nodem: NodemConfig = NodemConfig::default();
    let iled: IledConfig = IledConfig::default();
    let oled: OledConfig = OledConfig::default();
    let mut ops: Vec<NvsOp> = no_ops();
    push_op(&mut ops, remove(wifi::NVS_NAMESPACE, wifi::NVS_KEY_SSID));
    push_op(&mut ops, remove(wifi::NVS_NAMESPACE, wifi::NVS_KEY_PASS));
    push_op(&mut ops, remove(wifi::NVS_NAMESPACE, wifi::NVS_KEY_CONNECT_SUCCESS_COUNT));
    push_op(&mut ops, remove(wifi::NVS_NAMESPACE, wifi::NVS_KEY_CONNECT_FAIL_COUNT));
    push_op(&mut ops, remove(websocket::NVS_NAMESPACE, websocket::NVS_KEY_DEVICE_NAME));
    push_op(&mut ops, remove(websocket::NVS_NAMESPACE, websocket::NVS_KEY_REGISTRATION_CODE));
    push_op(&mut ops, remove(websocket::NVS_NAMESPACE, websocket::NVS_KEY_DEVICE_ID));
    push_op(&mut ops, remove(websocket::NVS_NAMESPACE, websocket::NVS_KEY_DEVICE_SECRET));
    push_op(&mut ops, remove(websocket::NVS_NAMESPACE, websocket::NVS_KEY_CLOUD_HOST));
    push_op(&mut ops, remove(nodem::NVS_NAMESPACE, nodem::NVS_KEY_LAST_PAGE));
    push_op(
        &mut ops,
        store(nodem::NVS_NAMESPACE, nodem::NVS_KEY_CONFIG, nodem.to_nvs_string().as_str()),
    );
    push_op(&mut ops, store(iled::NVS_NAMESPACE, iled::NVS_KEY_CONFIG, iled.to_csv().as_str()));
    push_op(
        &mut ops,
        store(oled::NVS_NAMESPACE, oled::NVS_KEY_CONFIG, oled.to_nvs_string().as_str()),
    );
    let r = Plan {
        ops,
        halting: false,
        malformed: false,
        erase_pkg: true,
        effect: Effect::Factory { nodem, iled, oled },
    };
    proof {
        assert(r@.ops =~= factory_plan().ops);
    }
    r
}

/// What the arguments of a command are.
spec fn given_text(given: Option<&str>) -> Option<Seq<char>> {
    match given {
        Some(args) => Some(args@),
        None => None,
    }
}

/// The action of a command with its arguments.
fn dispatch(command: &str, given: Option<&str>) -> (r: LineAction)
    ensures
        r@ == command_action(command@, given_text(given)),
        r matches LineAction::Write(plan) ==> plan@.effect.wf(),
{
    proof {
        reveal_strlit("");
        assert(""@ =~= Seq::<char>::empty());
    }
    let args: &str = match given {
        Some(args) => args,
        None => "",
    };
    let parts: Vec<&str> = split_trimmed(args, ',');
    let arg_0: &str = piece_at(&parts, 0);
    let arg_1: &str = piece_at(&parts, 1);
    if same(command, "reset") {
        LineAction::Write(plan_halting(no_ops(), Effect::Restart))
    } else if same(command, "factory") {
        LineAction::Write(plan_factory())
    } else if same(command, "wifi") {
        LineAction::Write(plan_wifi(arg_0, arg_1))
    } else if same(command, "reg") {
        LineAction::Write(plan_reg(arg_0, arg_1))
    } else if same(command, "name") {
        LineAction::Write(plan_name(arg_0))
    } else if same(command, "iled") {
        LineAction::Write(plan_iled(given))
    } else if same(command, "nodem") {
        LineAction::Write(plan_nodem(args))
    } else if same(command, "oled") {
        LineAction::Write(plan_oled(args))
    } else if same(command, "host") {
        LineAction::Write(plan_host(arg_0))
    } else if same(command, "cfg") {
        LineAction::ShowConfig
    } else if same(command, "stat") {
        LineAction::ShowStatus
    } else if same(command, "nvs") {
        LineAction::ShowEntries
    } else {
        LineAction::Unknown
    }
}

/// What a line asks for.
pub fn process_line(line: &str) -> (r: LineAction)
    ensures
        r@ == line_action(line@),
        r matches LineAction::Write(plan) ==> plan@.effect.wf(),
{
    match strip_first(line, '#') {
        Some(body) => {
            match split_once(body, ',') {
                Some((command, args)) => dispatch(trim(command), Some(args)),
                None => dispatch(trim(body), None),
            }
        },
        None => {
            match split_once(line, '=') {
                Some((key, value)) => {
                    let value: &str = trim(value);
                    if same(trim(key), "page") && parse_number(value, 255).is_some() {
                        LineAction::RememberPage(value.to_owned())
                    } else {
                        LineAction::Pass
                    }
                },
                None => LineAction::Pass,
            }
        },
    }
}

// ---------------------------------------------------------------------------
// Laws
// ---------------------------------------------------------------------------

/// A registration is stored whole or not at all: where the code or the name
/// cannot be accepted, nothing is written.
pub proof fn lemma_reg_is_atomic(code: Seq<char>, name: Seq<char>)
    ensures
        ({
            let p = reg_plan(code, name);
            &&& p.malformed <==> !(fits(code, 6, 6) && is_device_name(name))
            &&& p.malformed ==> p.ops.len() == 0
            &&& !p.malformed ==> p.ops == seq![
                storing(websocket::NVS_NAMESPACE@, websocket::NVS_KEY_REGISTRATION_CODE@, code),
                storing(websocket::NVS_NAMESPACE@, websocket::NVS_KEY_DEVICE_NAME@, name),
            ]
        }),
{
}

/// What "#reg" stores leads to a registration, whatever else is stored.
pub proof fn lemma_reg_leads_to_registration(
    code: String,
    name: String,
    id: Result<Option<String>, String>,
    secret: Result<Option<String>, String>,
)
    requires
        !reg_plan(code@, name@).malformed,
    ensures
        credentials_of(Ok(Some(code)), id, secret, Ok(Some(name))) == (CredentialPlan::Register {
            code,
            name,
        }),
{
    reveal_strlit("0");
    assert(is_ascii_chars("0"@));
    is_ascii_chars_encode_utf8("0"@);
}

/// What "#iled" stores reads back as what is set.
pub proof fn lemma_iled_reads_back(args: Option<Seq<char>>)
    ensures
        iled_plan(args).effect matches EffectModel::Iled(Some(m)) ==> {
            &&& iled_plan(args).ops.len() == 1
            &&& iled_plan(args).ops[0] matches NvsModel::Store { namespace, key, value }
                && iled_of(value) == Some(m)
        },
{
    if let Some(args) = args {
        if iled_of(args) is Some {
            lemma_iled_canonical(args);
        }
    }
}

/// Only an "#iled" without a comma switches the chain off. With one, blank
/// fields store and set every default.
pub proof fn lemma_only_bare_iled_disables(args: Seq<char>)
    requires
        forall|i: int| 0 <= i < args.len() ==> is_space(#[trigger] args[i]) || args[i] == ',',
    ensures
        line_action("#iled"@) == LineModel::Write(
            halting(
                seq![removing(iled::NVS_NAMESPACE@, iled::NVS_KEY_CONFIG@)],
                EffectModel::Iled(None),
            ),
        ),
        line_action("#iled,"@ + args) == LineModel::Write(
            halting(
                seq![
                    storing(
                        iled::NVS_NAMESPACE@,
                        iled::NVS_KEY_CONFIG@,
                        iled_text(blank_model()),
                    ),
                ],
                EffectModel::Iled(Some(blank_model())),
            ),
        ),
{
    lemma_command_heads();
    lemma_command_line("#iled,"@, "iled"@, args);
    lemma_command_words(Some(args));
    lemma_command_words(None);
    lemma_blank_fields(args);
    reveal_strlit("#iled");
    reveal_strlit("iled");
    let body = "#iled"@.skip(1);
    assert(body =~= "iled"@);
    lemma_first_at(body, ',', 4);
    lemma_trimmed_plain("iled"@);
}

/// What "#nodem" stores reads back as what is set.
pub proof fn lemma_nodem_reads_back(args: Seq<char>)
    ensures
        nodem_plan(args).effect matches EffectModel::Nodem(m) ==> {
            &&& nodem_plan(args).ops.len() == 1
            &&& nodem_plan(args).ops[0] matches NvsModel::Store { namespace, key, value }
                && nodem_of(value) == Some(m) && fits(value, 1, nodem::NVS_VALUE_MAX_LEN as int)
        },
{
    let value = trimmed(args);
    lemma_nodem_roundtrip(default_nodem());
    lemma_nodem_text_fits(default_nodem());
    if nodem_of(value) is Some {
        lemma_nodem_of_wf(value);
        lemma_nodem_canonical(value);
        lemma_nodem_text_fits(nodem_of(value)->0);
    }
}

/// What "#oled" stores reads back as what is set.
pub proof fn lemma_oled_reads_back(args: Seq<char>)
    ensures
        oled_plan(args).effect matches EffectModel::Oled(config) ==> {
            &&& oled_plan(args).ops.len() == 1
            &&& oled_plan(args).ops[0] matches NvsModel::Store { namespace, key, value }
                && oled_of(value) == Ok::<Option<OledConfig>, ()>(config)
        },
{
    let value = trimmed(args);
    if let Ok(Some(c)) = oled_of(value) {
        lemma_oled_roundtrip(c);
    }
}

/// The keys of the storage are all different.
proof fn lemma_keys_differ()
    ensures
        forall|i: int, j: int|
            0 <= i < j < factory_plan().ops.len() ==> key_of(#[trigger] factory_plan().ops[i])
                != key_of(#[trigger] factory_plan().ops[j]),
{
    reveal_strlit("ssid");
    reveal_strlit("pass");
    reveal_strlit("conn_ok");
    reveal_strlit("conn_fail");
    reveal_strlit("device_name");
    reveal_strlit("reg_code");
    reveal_strlit("device_id");
    reveal_strlit("device_secret");
    reveal_strlit("cloud_host");
    reveal_strlit("last_page");
    reveal_strlit("nodem");
    reveal_strlit("iled");
    reveal_strlit("oled");
    let ops = factory_plan().ops;
    let marks = seq![
        (4nat, 's', 's'),
        (4nat, 'p', 'a'),
        (7nat, 'c', 'o'),
        (9nat, 'c', 'o'),
        (11nat, 'd', 'e'),
        (8nat, 'r', 'e'),
        (9nat, 'd', 'e'),
        (13nat, 'd', 'e'),
        (10nat, 'c', 'l'),
        (9nat, 'l', 'a'),
        (5nat, 'n', 'o'),
        (4nat, 'i', 'l'),
        (4nat, 'o', 'l'),
    ];
    assert forall|i: int| 0 <= i < ops.len() implies mark_of(#[trigger] ops[i]) == marks[i] by {}
    assert forall|i: int, j: int| 0 <= i < j < ops.len() implies key_of(#[trigger] ops[i])
        != key_of(#[trigger] ops[j]) by {
        assert(marks[i] != marks[j]);
    }
}

/// The length of a write's key and its first two characters.
spec fn mark_of(op: NvsModel) -> (nat, char, char) {
    let k = key_of(op).1;
    (k.len(), k[0], k[1])
}

/// After "#factory" everything that it is about is as it says: what has a
/// default is set to it, and everything else is gone.
pub proof fn lemma_factory_resets(stored: Stored, i: int)
    requires
        0 <= i < factory_plan().ops.len(),
    ensures
        left_by(factory_plan().ops[i], after_ops(stored, factory_plan().ops)),
{
    lemma_keys_differ();
    let ops = factory_plan().ops;
    assert forall|j: int| i < j < ops.len() implies key_of(#[trigger] ops[j]) != key_of(
        ops[i],
    ) by {
        assert(key_of(ops[i]) != key_of(ops[j]));
    }
    lemma_last_write_stays(stored, ops, i);
}

/// What "#factory" stores is what the next start reads as the defaults, and it
/// fits.
pub proof fn lemma_factory_defaults_read()
    ensures
        nodem_of(nodem_text(default_nodem())) == Some(default_nodem()),
        fits(nodem_text(default_nodem()), 1, nodem::NVS_VALUE_MAX_LEN as int),
        iled_of(iled_text(default_model())) == Some(default_model()),
        fits(iled_text(default_model()), 1, iled::NVS_VALUE_MAX_LEN as int),
        oled_of(oled_text(default_oled())) == Ok::<Option<OledConfig>, ()>(Some(default_oled())),
        fits(oled_text(default_oled()), 1, oled::NVS_VALUE_MAX_LEN as int),
{
    nodem::lemma_startup_settles();
    lemma_nodem_text_fits(default_nodem());
    iled::lemma_startup_settles();
    lemma_default_text_fits();
    lemma_oled_roundtrip(default_oled());
    lemma_oled_text_fits(default_oled());
}

/// After "#host" no credentials are left, whether the host was accepted or
/// not.
pub proof fn lemma_host_drops_credentials(stored: Stored, host: Seq<char>)
    ensures
        ({
            let after = after_ops(stored, host_plan(host).ops);
            let ns = websocket::NVS_NAMESPACE@;
            &&& !after.contains_key((ns, websocket::NVS_KEY_DEVICE_ID@))
            &&& !after.contains_key((ns, websocket::NVS_KEY_DEVICE_SECRET@))
        }),
{
    reveal_strlit("device_id");
    reveal_strlit("device_secret");
    let ops = host_plan(host).ops;
    let n = ops.len() as int;
    assert("device_id"@.len() != "device_secret"@.len());
    lemma_last_write_stays(stored, ops, n - 1);
    assert(key_of(ops[n - 1]) != key_of(ops[n - 2]));
    lemma_last_write_stays(stored, ops, n - 2);
}

/// How many bytes a key's value takes.
pub open spec fn value_bounds(namespace: Seq<char>, key: Seq<char>) -> (int, int) {
    if key == wifi::NVS_KEY_SSID@ {
        (1, 32)
    } else if key == wifi::NVS_KEY_PASS@ {
        (8, 63)
    } else if key == websocket::NVS_KEY_REGISTRATION_CODE@ {
        (6, 6)
    } else if key == websocket::NVS_KEY_DEVICE_NAME@ {
        (DEVICE_NAME_MIN_LEN as int, DEVICE_NAME_MAX_LEN as int)
    } else if key == websocket::NVS_KEY_CLOUD_HOST@ {
        (1, 128)
    } else if key == iled::NVS_KEY_CONFIG@ {
        (1, iled::NVS_VALUE_MAX_LEN as int)
    } else if key == oled::NVS_KEY_CONFIG@ {
        (0, oled::NVS_VALUE_MAX_LEN as int)
    } else {
        (1, nodem::NVS_VALUE_MAX_LEN as int)
    }
}

/// Whether a write stores no value that is out of its key's bounds.
pub open spec fn op_fits(op: NvsModel) -> bool {
    match op {
        NvsModel::Store { namespace, key, value } => fits(
            value,
            value_bounds(namespace, key).0,
            value_bounds(namespace, key).1,
        ),
        NvsModel::Remove { .. } => true,
    }
}

/// No line stores a value that is out of its key's bounds.
pub proof fn lemma_lines_store_what_fits(line: Seq<char>, i: int)
    ensures
        line_action(line) matches LineModel::Write(plan) ==> (0 <= i < plan.ops.len() ==> op_fits(
            plan.ops[i],
        )),
{
    if line.len() > 0 && line[0] == '#' {
        let body = line.skip(1);
        let k = first_at(body, ',');
        let command = if k < body.len() {
            trimmed(body.take(k))
        } else {
            trimmed(body)
        };
        let args = if k < body.len() {
            Some(body.skip(k + 1))
        } else {
            None
        };
        lemma_commands_store_what_fits(command, args, i);
    }
}

/// The bounds of each key.
proof fn lemma_bounds(ns: Seq<char>)
    ensures
        value_bounds(ns, wifi::NVS_KEY_SSID@) == (1int, 32int),
        value_bounds(ns, wifi::NVS_KEY_PASS@) == (8int, 63int),
        value_bounds(ns, websocket::NVS_KEY_REGISTRATION_CODE@) == (6int, 6int),
        value_bounds(ns, websocket::NVS_KEY_DEVICE_NAME@) == (3int, 64int),
        value_bounds(ns, websocket::NVS_KEY_CLOUD_HOST@) == (1int, 128int),
        value_bounds(ns, iled::NVS_KEY_CONFIG@) == (1int, iled::NVS_VALUE_MAX_LEN as int),
        value_bounds(ns, oled::NVS_KEY_CONFIG@) == (0int, oled::NVS_VALUE_MAX_LEN as int),
        value_bounds(ns, nodem::NVS_KEY_CONFIG@) == (1int, nodem::NVS_VALUE_MAX_LEN as int),
{
    reveal_strlit("ssid");
    reveal_strlit("pass");
    reveal_strlit("device_name");
    reveal_strlit("reg_code");
    reveal_strlit("cloud_host");
    reveal_strlit("nodem");
    reveal_strlit("iled");
    reveal_strlit("oled");
    assert("ssid"@.len() == 4 && "ssid"@[0] == 's');
    assert("pass"@.len() == 4 && "pass"@[0] == 'p');
    assert("device_name"@.len() == 11);
    assert("reg_code"@.len() == 8);
    assert("cloud_host"@.len() == 10);
    assert("nodem"@.len() == 5);
    assert("iled"@.len() == 4 && "iled"@[0] == 'i');
    assert("oled"@.len() == 4 && "oled"@[0] == 'o');
}

proof fn lemma_factory_fits(i: int)
    requires
        0 <= i < factory_plan().ops.len(),
    ensures
        op_fits(factory_plan().ops[i]),
{
    lemma_factory_defaults_read();
    lemma_bounds(nodem::NVS_NAMESPACE@);
    lemma_bounds(iled::NVS_NAMESPACE@);
    lemma_bounds(oled::NVS_NAMESPACE@);
}

proof fn lemma_wifi_fits(ssid: Seq<char>, pass: Seq<char>, i: int)
    ensures
        0 <= i < wifi_plan(ssid, pass).ops.len() ==> op_fits(wifi_plan(ssid, pass).ops[i]),
{
    lemma_bounds(wifi::NVS_NAMESPACE@);
}

proof fn lemma_device_fits(code: Seq<char>, name: Seq<char>, host: Seq<char>, i: int)
    ensures
        0 <= i < reg_plan(code, name).ops.len() ==> op_fits(reg_plan(code, name).ops[i]),
        0 <= i < name_plan(name).ops.len() ==> op_fits(name_plan(name).ops[i]),
        0 <= i < host_plan(host).ops.len() ==> op_fits(host_plan(host).ops[i]),
{
    lemma_bounds(websocket::NVS_NAMESPACE@);
}

proof fn lemma_config_fits(given: Option<Seq<char>>, args: Seq<char>, i: int)
    ensures
        0 <= i < iled_plan(given).ops.len() ==> op_fits(iled_plan(given).ops[i]),
        0 <= i < nodem_plan(args).ops.len() ==> op_fits(nodem_plan(args).ops[i]),
        0 <= i < oled_plan(args).ops.len() ==> op_fits(oled_plan(args).ops[i]),
{
    lemma_bounds(nodem::NVS_NAMESPACE@);
    lemma_bounds(iled::NVS_NAMESPACE@);
    lemma_bounds(oled::NVS_NAMESPACE@);
    lemma_nodem_reads_back(args);
}

proof fn lemma_commands_store_what_fits(command: Seq<char>, given: Option<Seq<char>>, i: int)
    ensures
        command_action(command, given) matches LineModel::Write(plan) ==> (0 <= i < plan.ops.len()
            ==> op_fits(plan.ops[i])),
{
    let args = args_text(given);
    let arg_0 = field(fields(args, ','), 0);
    let arg_1 = field(fields(args, ','), 1);
    if 0 <= i < factory_plan().ops.len() {
        lemma_factory_fits(i);
    }
    lemma_wifi_fits(arg_0, arg_1, i);
    lemma_device_fits(arg_0, arg_1, arg_0, i);
    lemma_device_fits(arg_0, arg_0, arg_0, i);
    lemma_config_fits(given, args, i);
}

/// A configuration's text, given to "#iled", sets that configuration, if it
/// can be stored: what "#cfg" shows can be entered again.
pub proof fn lemma_iled_command_sets(m: IledModel)
    requires
        m.wf(),
        fits(iled_text(m), 1, iled::NVS_VALUE_MAX_LEN as int),
    ensures
        line_action("#iled,"@ + iled_text(m)) == LineModel::Write(
            halting(
                seq![storing(iled::NVS_NAMESPACE@, iled::NVS_KEY_CONFIG@, iled_text(m))],
                EffectModel::Iled(Some(m)),
            ),
        ),
{
    let text = iled_text(m);
    lemma_command_heads();
    lemma_command_line("#iled,"@, "iled"@, text);
    lemma_command_words(Some(text));
    lemma_iled_text_chars(m);
    lemma_iled_roundtrip(m);
    lemma_trimmed_plain(text);
}

/// The same for "#nodem".
pub proof fn lemma_nodem_command_sets(m: NodemModel)
    requires
        m.wf(),
    ensures
        line_action("#nodem,"@ + nodem_text(m)) == LineModel::Write(
            halting(
                seq![storing(nodem::NVS_NAMESPACE@, nodem::NVS_KEY_CONFIG@, nodem_text(m))],
                EffectModel::Nodem(m),
            ),
        ),
{
    let text = nodem_text(m);
    lemma_command_heads();
    lemma_command_line("#nodem,"@, "nodem"@, text);
    lemma_command_words(Some(text));
    lemma_nodem_text_chars(m);
    lemma_nodem_roundtrip(m);
    lemma_trimmed_plain(text);
}

/// The same for "#oled".
pub proof fn lemma_oled_command_sets(c: OledConfig)
    requires
        c.wf(),
    ensures
        line_action("#oled,"@ + oled_text(c)) == LineModel::Write(
            halting(
                seq![storing(oled::NVS_NAMESPACE@, oled::NVS_KEY_CONFIG@, oled_text(c))],
                EffectModel::Oled(Some(c)),
            ),
        ),
{
    let text = oled_text(c);
    lemma_command_heads();
    lemma_command_line("#oled,"@, "oled"@, text);
    lemma_command_words(Some(text));
    lemma_oled_text_chars(c);
    lemma_oled_roundtrip(c);
    lemma_oled_text_fits(c);
    lemma_trimmed_plain(text);
}

/// How the commands that take a configuration are written.
proof fn lemma_command_heads()
    ensures
        "#iled,"@ == seq!['#'] + "iled"@ + seq![','],
        "#nodem,"@ == seq!['#'] + "nodem"@ + seq![','],
        "#oled,"@ == seq!['#'] + "oled"@ + seq![','],
        lacks("iled"@, ',') && no_space("iled"@),
        lacks("nodem"@, ',') && no_space("nodem"@),
        lacks("oled"@, ',') && no_space("oled"@),
{
    reveal_strlit("#iled,");
    reveal_strlit("#nodem,");
    reveal_strlit("#oled,");
    reveal_strlit("iled");
    reveal_strlit("nodem");
    reveal_strlit("oled");
    assert("#iled,"@ =~= seq!['#'] + "iled"@ + seq![',']);
    assert("#nodem,"@ =~= seq!['#'] + "nodem"@ + seq![',']);
    assert("#oled,"@ =~= seq!['#'] + "oled"@ + seq![',']);
}

/// A line that is a command, a comma and arguments.
proof fn lemma_command_line(head: Seq<char>, command: Seq<char>, args: Seq<char>)
    requires
        head == seq!['#'] + command + seq![','],
        lacks(command, ','),
        no_space(command),
    ensures
        line_action(head + args) == command_action(command, Some(args)),
{
    let line = head + args;
    let body = line.skip(1);
    assert(body =~= command + seq![','] + args);
    lemma_first_at(body, ',', command.len() as int);
    assert(body.take(command.len() as int) =~= command);
    assert(body.skip(command.len() as int + 1) =~= args);
    lemma_trimmed_plain(command);
}

/// The commands that take a configuration.
proof fn lemma_command_words(args: Option<Seq<char>>)
    ensures
        command_action("iled"@, args) == LineModel::Write(iled_plan(args)),
        command_action("nodem"@, args) == LineModel::Write(nodem_plan(args_text(args))),
        command_action("oled"@, args) == LineModel::Write(oled_plan(args_text(args))),
{
    reveal_strlit("reset");
    reveal_strlit("factory");
    reveal_strlit("wifi");
    reveal_strlit("reg");
    reveal_strlit("name");
    reveal_strlit("iled");
    reveal_strlit("nodem");
    reveal_strlit("oled");
    assert("reset"@.len() == 5 && "reset"@[0] == 'r');
    assert("factory"@.len() == 7);
    assert("wifi"@.len() == 4 && "wifi"@[0] == 'w');
    assert("reg"@.len() == 3);
    assert("name"@.len() == 4 && "name"@[0] == 'n');
    assert("iled"@.len() == 4 && "iled"@[0] == 'i');
    assert("nodem"@.len() == 5 && "nodem"@[0] == 'n');
    assert("oled"@.len() == 4 && "oled"@[0] == 'o');
}

/// The command that brings a page back is seen as that page, so that it is
/// not stored again.
pub proof fn lemma_page_line_is_seen(page: Seq<char>)
    requires
        number_upto(page, 255) is Some,
    ensures
        line_action("page="@ + page) == LineModel::RememberPage(page),
{
    reveal_strlit("page=");
    reveal_strlit("page");
    let line = "page="@ + page;
    lemma_first_at(line, '=', 4);
    assert(line.take(4) =~= "page"@);
    assert(line.skip(5) =~= page);
    lemma_trimmed_plain("page"@);
    lemma_number_plain(page);
    lemma_trimmed_plain(page);
}

/// A number holds no white space.
proof fn lemma_number_plain(s: Seq<char>)
    requires
        number(s) is Some,
    ensures
        no_space(s),
{
    let d = if s[0] == '+' {
        s.skip(1)
    } else {
        s
    };
    assert forall|i: int| 0 <= i < s.len() implies !is_space(#[trigger] s[i]) by {
        if s[0] == '+' {
            if i > 0 {
                assert(is_digit(d[i - 1]));
            }
        } else {
            assert(is_digit(d[i]));
        }
    }
}

/// "#wifi" is accepted exactly where the name takes from 1 to 32 bytes and the
/// password from 8 to 63. Both are then stored, each under its own key, and
/// the device connects again. A name that is accepted is stored even where the
/// password is not.
pub proof fn lemma_wifi_stores(stored: Stored, ssid: Seq<char>, pass: Seq<char>)
    ensures
        ({
            let p = wifi_plan(ssid, pass);
            let after = after_ops(stored, p.ops);
            let named = 1 <= encode_utf8(ssid).len() <= 32;
            &&& p.halting && !p.erase_pkg
            &&& !p.malformed <==> named && 8 <= encode_utf8(pass).len() <= 63
            &&& p.effect == if p.malformed {
                EffectModel::Nothing
            } else {
                EffectModel::WifiReconnect
            }
            &&& !p.malformed ==> after == stored.insert(("wifi"@, "ssid"@), ssid).insert(
                ("wifi"@, "pass"@),
                pass,
            )
            &&& p.malformed && named ==> after == stored.insert(("wifi"@, "ssid"@), ssid)
            &&& !named ==> after == stored
        }),
{
    let ops = wifi_plan(ssid, pass).ops;
    reveal_with_fuel(after_ops, 3);
    if ops.len() == 2 {
        assert(ops.drop_last().last() == ops[0]);
        assert(ops.drop_last().drop_last() =~= Seq::<NvsModel>::empty());
    } else if ops.len() == 1 {
        assert(ops.drop_last() =~= Seq::<NvsModel>::empty());
    }
}

/// "#reg" is accepted exactly where the code takes 6 bytes and the name from 3
/// to 64. Both are then stored, each under its own key, and the device
/// registers under that name; else nothing is stored.
pub proof fn lemma_reg_stores(stored: Stored, code: Seq<char>, name: Seq<char>)
    ensures
        ({
            let p = reg_plan(code, name);
            let after = after_ops(stored, p.ops);
            &&& p.halting && !p.erase_pkg
            &&& !p.malformed <==> encode_utf8(code).len() == 6 && 3 <= encode_utf8(name).len()
                <= 64
            &&& p.effect == if p.malformed {
                EffectModel::Nothing
            } else {
                EffectModel::Register(name)
            }
            &&& !p.malformed ==> after == stored.insert(("device"@, "reg_code"@), code).insert(
                ("device"@, "device_name"@),
                name,
            )
            &&& p.malformed ==> after == stored
        }),
{
    let ops = reg_plan(code, name).ops;
    reveal_with_fuel(after_ops, 3);
    if ops.len() == 2 {
        assert(ops.drop_last().last() == ops[0]);
        assert(ops.drop_last().drop_last() =~= Seq::<NvsModel>::empty());
    }
}

/// "#name" is accepted exactly where the name takes from 3 to 64 bytes. It is
/// then stored and shown; else nothing is.
pub proof fn lemma_name_stores(stored: Stored, name: Seq<char>)
    ensures
        ({
            let p = name_plan(name);
            let after = after_ops(stored, p.ops);
            &&& p.halting && !p.erase_pkg
            &&& !p.malformed <==> 3 <= encode_utf8(name).len() <= 64
            &&& p.effect == if p.malformed {
                EffectModel::Nothing
            } else {
                EffectModel::Name(name)
            }
            &&& after == if p.malformed {
                stored
            } else {
                stored.insert(("device"@, "device_name"@), name)
            }
        }),
{
    let ops = name_plan(name).ops;
    reveal_with_fuel(after_ops, 2);
    if ops.len() == 1 {
        assert(ops.drop_last() =~= Seq::<NvsModel>::empty());
    }
}

/// "#host" stores a host of 1 to 128 bytes, goes back to the default without
/// one, and leaves the stored one where it is too long. The id and the secret
/// go, and the device registers again, in any case.
pub proof fn lemma_host_stores(stored: Stored, host: Seq<char>)
    ensures
        ({
            let p = host_plan(host);
            let after = after_ops(stored, p.ops);
            let kept = if host.len() == 0 {
                stored.remove(("device"@, "cloud_host"@))
            } else if encode_utf8(host).len() <= 128 {
                stored.insert(("device"@, "cloud_host"@), host)
            } else {
                stored
            };
            &&& !p.halting && !p.erase_pkg
            &&& p.malformed <==> encode_utf8(host).len() > 128
            &&& p.effect == EffectModel::Reregister
            &&& after == kept.remove(("device"@, "device_id"@)).remove(
                ("device"@, "device_secret"@),
            )
        }),
{
    lemma_empty_bytes(host);
    let ops = host_plan(host).ops;
    reveal_with_fuel(after_ops, 4);
    let n = ops.len() as int;
    assert(ops.last() == removing("device"@, "device_secret"@));
    assert(ops.drop_last().last() == removing("device"@, "device_id"@));
    let first = ops.drop_last().drop_last();
    if n == 3 {
        assert(first.last() == ops[0]);
        assert(first.drop_last() =~= Seq::<NvsModel>::empty());
    } else {
        assert(first =~= Seq::<NvsModel>::empty());
    }
}

/// A text takes no bytes exactly where it has no characters.
proof fn lemma_empty_bytes(s: Seq<char>)
    ensures
        encode_utf8(s).len() == 0 <==> s.len() == 0,
{
    encode_utf8_decode_utf8(s);
    let none = Seq::<char>::empty();
    encode_utf8_decode_utf8(none);
    if s.len() == 0 {
        assert(s =~= none);
    }
}

/// "#iled" without a comma removes the chain's configuration and switches it
/// off. With one it is accepted exactly where it names a configuration whose
/// text takes at most 80 bytes. That text is then stored, and the
/// configuration set; else nothing is.
pub proof fn lemma_iled_stores(stored: Stored, args: Option<Seq<char>>)
    ensures
        ({
            let p = iled_plan(args);
            let after = after_ops(stored, p.ops);
            &&& p.halting && !p.erase_pkg
            &&& match args {
                None => {
                    &&& !p.malformed
                    &&& p.effect == EffectModel::Iled(None)
                    &&& after == stored.remove(("drivers"@, "iled"@))
                },
                Some(a) => {
                    &&& !p.malformed <==> iled_of(a) is Some && encode_utf8(
                        iled_text(iled_of(a)->0),
                    ).len() <= 80
                    &&& p.malformed ==> p.effect == EffectModel::Nothing && after == stored
                    &&& !p.malformed ==> p.effect == EffectModel::Iled(iled_of(a)) && after
                        == stored.insert(("drivers"@, "iled"@), iled_text(iled_of(a)->0))
                },
            }
        }),
{
    let ops = iled_plan(args).ops;
    reveal_with_fuel(after_ops, 2);
    if ops.len() == 1 {
        assert(ops.drop_last() =~= Seq::<NvsModel>::empty());
    }
    if let Some(a) = args {
        if let Some(m) = iled_of(a) {
            lemma_empty_bytes(iled_text(m));
            assert(iled_text(m).len() > 0);
        }
    }
}

/// "#nodem" is accepted exactly where it is blank, which sets the default, or
/// names a configuration. Its text is then stored, and the configuration set;
/// else nothing is.
pub proof fn lemma_nodem_stores(stored: Stored, args: Seq<char>)
    ensures
        ({
            let p = nodem_plan(args);
            let after = after_ops(stored, p.ops);
            let blank = trimmed(args).len() == 0;
            &&& p.halting && !p.erase_pkg
            &&& !p.malformed <==> blank || nodem_of(trimmed(args)) is Some
            &&& p.malformed ==> p.effect == EffectModel::Nothing && after == stored
            &&& !p.malformed ==> (p.effect matches EffectModel::Nodem(m) && {
                &&& after == stored.insert(("nodem"@, "nodem"@), nodem_text(m))
                &&& blank ==> m.width == 128 && m.height == 64 && m.bits_per_pixel == 1
                    && m.devices.len() == 0
                &&& !blank ==> nodem_of(trimmed(args)) == Some(m)
            })
        }),
{
    let ops = nodem_plan(args).ops;
    reveal_with_fuel(after_ops, 2);
    if ops.len() == 1 {
        assert(ops.drop_last() =~= Seq::<NvsModel>::empty());
    }
}

/// "#oled" is accepted exactly where it names a panel, or a protocol that
/// switches the display off and takes at most 63 bytes as it is given. The
/// panel's text, or what was given, is then stored; else nothing is.
pub proof fn lemma_oled_stores(stored: Stored, args: Seq<char>)
    ensures
        ({
            let p = oled_plan(args);
            let after = after_ops(stored, p.ops);
            let value = trimmed(args);
            &&& p.halting && !p.erase_pkg
            &&& !p.malformed <==> (oled_of(value) matches Ok(config) && (config is Some
                || encode_utf8(value).len() <= 63))
            &&& p.malformed ==> p.effect == EffectModel::Nothing && after == stored
            &&& !p.malformed ==> (p.effect matches EffectModel::Oled(config) && {
                &&& oled_of(value) == Ok::<Option<OledConfig>, ()>(config)
                &&& config matches Some(c) ==> after == stored.insert(
                    ("drivers"@, "oled"@),
                    oled_text(c),
                )
                &&& config is None ==> after == stored.insert(("drivers"@, "oled"@), value)
            })
        }),
{
    let ops = oled_plan(args).ops;
    reveal_with_fuel(after_ops, 2);
    if ops.len() == 1 {
        assert(ops.drop_last() =~= Seq::<NvsModel>::empty());
    }
    if let Ok(Some(c)) = oled_of(trimmed(args)) {
        lemma_oled_text_fits(c);
    }
}

/// The commands, all of them different.
proof fn lemma_all_words(given: Option<Seq<char>>)
    ensures
        ({
            let args = args_text(given);
            let arg_0 = field(fields(args, ','), 0);
            let arg_1 = field(fields(args, ','), 1);
            &&& command_action("reset"@, given) == LineModel::Write(
                halting(seq![], EffectModel::Restart),
            )
            &&& command_action("factory"@, given) == LineModel::Write(factory_plan())
            &&& command_action("wifi"@, given) == LineModel::Write(wifi_plan(arg_0, arg_1))
            &&& command_action("reg"@, given) == LineModel::Write(reg_plan(arg_0, arg_1))
            &&& command_action("name"@, given) == LineModel::Write(name_plan(arg_0))
            &&& command_action("host"@, given) == LineModel::Write(host_plan(arg_0))
            &&& command_action("cfg"@, given) == LineModel::ShowConfig
            &&& command_action("stat"@, given) == LineModel::ShowStatus
            &&& command_action("nvs"@, given) == LineModel::ShowEntries
        }),
{
    reveal_strlit("reset");
    reveal_strlit("factory");
    reveal_strlit("wifi");
    reveal_strlit("reg");
    reveal_strlit("name");
    reveal_strlit("iled");
    reveal_strlit("nodem");
    reveal_strlit("oled");
    reveal_strlit("host");
    reveal_strlit("cfg");
    reveal_strlit("stat");
    reveal_strlit("nvs");
    assert("reset"@.len() == 5 && "reset"@[0] == 'r');
    assert("factory"@.len() == 7);
    assert("wifi"@.len() == 4 && "wifi"@[0] == 'w');
    assert("reg"@.len() == 3 && "reg"@[0] == 'r');
    assert("name"@.len() == 4 && "name"@[0] == 'n');
    assert("iled"@.len() == 4 && "iled"@[0] == 'i');
    assert("nodem"@.len() == 5 && "nodem"@[0] == 'n');
    assert("oled"@.len() == 4 && "oled"@[0] == 'o');
    assert("host"@.len() == 4 && "host"@[0] == 'h');
    assert("cfg"@.len() == 3 && "cfg"@[0] == 'c');
    assert("stat"@.len() == 4 && "stat"@[0] == 's');
    assert("nvs"@.len() == 3 && "nvs"@[0] == 'n');
}

/// The words of the commands are plain.
proof fn lemma_words_plain()
    ensures
        lacks("reset"@, ',') && no_space("reset"@),
        lacks("factory"@, ',') && no_space("factory"@),
        lacks("wifi"@, ',') && no_space("wifi"@),
        lacks("reg"@, ',') && no_space("reg"@),
        lacks("name"@, ',') && no_space("name"@),
        lacks("host"@, ',') && no_space("host"@),
        lacks("cfg"@, ',') && no_space("cfg"@),
        lacks("stat"@, ',') && no_space("stat"@),
        lacks("nvs"@, ',') && no_space("nvs"@),
{
    reveal_strlit("reset");
    reveal_strlit("factory");
    reveal_strlit("wifi");
    reveal_strlit("reg");
    reveal_strlit("name");
    reveal_strlit("host");
    reveal_strlit("cfg");
    reveal_strlit("stat");
    reveal_strlit("nvs");
}

/// The arguments of a command come in the order in which they are written,
/// white space around each aside. What follows the last one that a command
/// takes does not matter.
pub proof fn lemma_arguments_in_order(a: Seq<char>, b: Seq<char>, rest: Seq<char>)
    requires
        lacks(a, ','),
        lacks(b, ','),
    ensures
        ({
            let c = seq![','];
            let args = a + c + b + c + rest;
            let x = trimmed(a);
            let y = trimmed(b);
            &&& line_action(seq!['#'] + "wifi"@ + c + args) == LineModel::Write(wifi_plan(x, y))
            &&& line_action(seq!['#'] + "reg"@ + c + args) == LineModel::Write(reg_plan(x, y))
            &&& line_action(seq!['#'] + "name"@ + c + args) == LineModel::Write(name_plan(x))
            &&& line_action(seq!['#'] + "host"@ + c + args) == LineModel::Write(host_plan(x))
        }),
{
    let c = seq![','];
    let r1 = b + c + rest;
    let args = a + c + b + c + rest;
    assert(args =~= a + c + r1);
    lemma_pieces_join(a, ',', r1);
    lemma_pieces_join(b, ',', rest);
    assert(fields(args, ',')[0] == trimmed(a));
    assert(fields(args, ',')[1] == trimmed(b));
    lemma_words_plain();
    lemma_all_words(Some(args));
    lemma_command_line(seq!['#'] + "wifi"@ + c, "wifi"@, args);
    lemma_command_line(seq!['#'] + "reg"@ + c, "reg"@, args);
    lemma_command_line(seq!['#'] + "name"@ + c, "name"@, args);
    lemma_command_line(seq!['#'] + "host"@ + c, "host"@, args);
}

/// A command that takes no arguments does the same whatever follows its comma:
/// a restart writes nothing, and what only shows something writes nothing
/// either.
pub proof fn lemma_arguments_ignored(args: Seq<char>)
    ensures
        ({
            let c = seq![','];
            &&& line_action(seq!['#'] + "reset"@ + c + args) == LineModel::Write(
                PlanModel {
                    ops: seq![],
                    halting: true,
                    malformed: false,
                    erase_pkg: false,
                    effect: EffectModel::Restart,
                },
            )
            &&& line_action(seq!['#'] + "factory"@ + c + args) == LineModel::Write(factory_plan())
            &&& line_action(seq!['#'] + "cfg"@ + c + args) == LineModel::ShowConfig
            &&& line_action(seq!['#'] + "stat"@ + c + args) == LineModel::ShowStatus
            &&& line_action(seq!['#'] + "nvs"@ + c + args) == LineModel::ShowEntries
        }),
{
    let c = seq![','];
    lemma_words_plain();
    lemma_all_words(Some(args));
    lemma_command_line(seq!['#'] + "reset"@ + c, "reset"@, args);
    lemma_command_line(seq!['#'] + "factory"@ + c, "factory"@, args);
    lemma_command_line(seq!['#'] + "cfg"@ + c, "cfg"@, args);
    lemma_command_line(seq!['#'] + "stat"@ + c, "stat"@, args);
    lemma_command_line(seq!['#'] + "nvs"@ + c, "nvs"@, args);
}

/// A line that does not start with '#' is at most a page to remember, which is
/// a number of at most 255; and one that does is never passed on.
pub proof fn lemma_lines_passed_on(line: Seq<char>)
    ensures
        line.len() > 0 && line[0] == '#' ==> !(line_action(line) is Pass) && !(line_action(line)
            is RememberPage),
        line.len() == 0 || line[0] != '#' ==> line_action(line) is Pass || line_action(line)
            is RememberPage,
        line_action(line) matches LineModel::RememberPage(page) ==> (number(page) matches Some(n)
            && n <= 255),
{
}

/// A line with a page's number behind "page=" is that page, white space
/// around the word and the number aside.
pub proof fn lemma_page_line(key: Seq<char>, value: Seq<char>)
    requires
        lacks(key, '='),
        key.len() == 0 || key[0] != '#',
    ensures
        ({
            let page = trimmed(value);
            let line = key + seq!['='] + value;
            &&& line_action(line) is RememberPage <==> trimmed(key) == "page"@ && number(page)
                is Some && number(page)->0 <= 255
            &&& line_action(line) matches LineModel::RememberPage(p) ==> p == page
        }),
{
    let line = key + seq!['='] + value;
    lemma_first_at(line, '=', key.len() as int);
    assert(line.take(key.len() as int) =~= key);
    assert(line.skip(key.len() as int + 1) =~= value);
}

/// "#factory" drops the pkg and goes back to every default; a value that
/// cannot be stored does not stop it.
pub proof fn lemma_factory_effect()
    ensures
        ({
            let p = factory_plan();
            &&& p.erase_pkg && !p.halting && !p.malformed
            &&& p.effect matches EffectModel::Factory { nodem, iled, oled } && {
                &&& nodem == default_nodem()
                &&& iled == default_model()
                &&& oled == default_oled()
            }
        }),
{
}

/// What is stored after "#factory": no network, no counters, no name, code, id
/// or secret, no host and no page.
pub proof fn lemma_factory_forgets(stored: Stored)
    ensures
        ({
            let after = after_ops(stored, factory_plan().ops);
            &&& !after.contains_key(("wifi"@, "ssid"@))
            &&& !after.contains_key(("wifi"@, "pass"@))
            &&& !after.contains_key(("wifi"@, "conn_ok"@))
            &&& !after.contains_key(("wifi"@, "conn_fail"@))
            &&& !after.contains_key(("device"@, "device_name"@))
            &&& !after.contains_key(("device"@, "reg_code"@))
            &&& !after.contains_key(("device"@, "device_id"@))
            &&& !after.contains_key(("device"@, "device_secret"@))
            &&& !after.contains_key(("device"@, "cloud_host"@))
            &&& !after.contains_key(("nodem"@, "last_page"@))
            &&& after.contains_pair(("nodem"@, "nodem"@), nodem_text(default_nodem()))
            &&& after.contains_pair(("drivers"@, "iled"@), iled_text(default_model()))
            &&& after.contains_pair(("drivers"@, "oled"@), oled_text(default_oled()))
        }),
{
    lemma_factory_resets(stored, 0);
    lemma_factory_resets(stored, 1);
    lemma_factory_resets(stored, 2);
    lemma_factory_resets(stored, 3);
    lemma_factory_resets(stored, 4);
    lemma_factory_resets(stored, 5);
    lemma_factory_resets(stored, 6);
    lemma_factory_resets(stored, 7);
    lemma_factory_resets(stored, 8);
    lemma_factory_resets(stored, 9);
    lemma_factory_resets(stored, 10);
    lemma_factory_resets(stored, 11);
    lemma_factory_resets(stored, 12);
}

/// A command is unknown exactly where it is none of these words.
pub proof fn lemma_other_words_unknown(command: Seq<char>, given: Option<Seq<char>>)
    ensures
        command_action(command, given) is Unknown <==> !seq![
            "reset"@,
            "factory"@,
            "wifi"@,
            "reg"@,
            "name"@,
            "iled"@,
            "nodem"@,
            "oled"@,
            "host"@,
            "cfg"@,
            "stat"@,
            "nvs"@,
        ].contains(command),
{
    let words = seq![
        "reset"@,
        "factory"@,
        "wifi"@,
        "reg"@,
        "name"@,
        "iled"@,
        "nodem"@,
        "oled"@,
        "host"@,
        "cfg"@,
        "stat"@,
        "nvs"@,
    ];
    assert(words[0] == "reset"@ && words[1] == "factory"@ && words[2] == "wifi"@);
    assert(words[3] == "reg"@ && words[4] == "name"@ && words[5] == "iled"@);
    assert(words[6] == "nodem"@ && words[7] == "oled"@ && words[8] == "host"@);
    assert(words[9] == "cfg"@ && words[10] == "stat"@ && words[11] == "nvs"@);
}

/// White space around a command does not matter, whether arguments follow it
/// or not.
pub proof fn lemma_command_trimmed(word: Seq<char>, args: Seq<char>)
    requires
        lacks(word, ','),
    ensures
        line_action(seq!['#'] + word) == command_action(trimmed(word), None),
        line_action(seq!['#'] + word + seq![','] + args) == command_action(
            trimmed(word),
            Some(args),
        ),
{
    let bare = seq!['#'] + word;
    assert(bare.skip(1) =~= word);
    lemma_first_at(word, ',', word.len() as int);
    let line = bare + seq![','] + args;
    let body = line.skip(1);
    assert(body =~= word + seq![','] + args);
    lemma_first_at(body, ',', word.len() as int);
    assert(body.take(word.len() as int) =~= word);
    assert(body.skip(word.len() as int + 1) =~= args);
}

} // verus!
