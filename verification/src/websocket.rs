//! Registration with the cloud, and the connection to it.
use crate::clock::TICKS_PER_SEC;
use crate::global::{
    CloudConnectionStatus, CloudStatus, Global, RegistrationStatus, WifiConnectionStatus,
};
use crate::nvs::{NvsModel, NvsOp, Stored, after_op, after_ops, op_models, remove, store};
use crate::text::{
    byte_len, decimal, hex_byte_upper, lacks, lemma_number_of_decimal, lemma_pieces_join,
    lemma_pieces_lack, lemma_pieces_one, number, pieces, push_hex_byte_upper, push_number, same,
    split, texts, trim, trimmed,
};
use crate::uart::utf8_error;
use vstd::prelude::*;
use vstd::utf8::*;

verus! {

broadcast use vstd::string::group_string_axioms;

pub const DEFAULT_CLOUD_HOST: &'static str = "docker.ws-ai-call-bot.workers.dev";

pub const NVS_NAMESPACE: &'static str = "device";

pub const NVS_KEY_REGISTRATION_CODE: &'static str = "reg_code";

pub const NVS_KEY_DEVICE_NAME: &'static str = "device_name";

/// How many bytes a device's name takes at least.
pub const DEVICE_NAME_MIN_LEN: usize = 3;

/// How many bytes a device's name takes at most.
pub const DEVICE_NAME_MAX_LEN: usize = 64;

pub const NVS_KEY_DEVICE_ID: &'static str = "device_id";

pub const NVS_KEY_DEVICE_SECRET: &'static str = "device_secret";

pub const NVS_KEY_CLOUD_HOST: &'static str = "cloud_host";

/// What replaces a code that was rejected. It is too short to be a code, so it
/// is not tried again, and it shows that the last attempt failed.
pub const NVS_VALUE_REGISTRATION_REJECTED: &'static str = "0";

/// Clock ticks between two pings.
pub const PING_INTERVAL: u64 = 10 * TICKS_PER_SEC;

/// Whether a text is a name that a device can have.
pub open spec fn is_device_name(s: Seq<char>) -> bool {
    DEVICE_NAME_MIN_LEN <= encode_utf8(s).len() <= DEVICE_NAME_MAX_LEN
}

/// The host for every connection to the cloud: the stored one, if there is one
/// and it is not empty, else the default.
pub open spec fn host_of(stored: Option<&str>) -> Seq<char> {
    match stored {
        Some(host) if host@.len() > 0 => host@,
        _ => DEFAULT_CLOUD_HOST@,
    }
}

/// The host for every connection to the cloud.
pub fn read_cloud_host(stored: Option<&str>) -> (r: String)
    ensures
        r@ == host_of(stored),
{
    match stored {
        Some(host) => if host.is_empty() {
            DEFAULT_CLOUD_HOST.to_owned()
        } else {
            host.to_owned()
        },
        None => DEFAULT_CLOUD_HOST.to_owned(),
    }
}

// ---------------------------------------------------------------------------
// Credentials
// ---------------------------------------------------------------------------

/// How the device comes by its id and secret.
#[derive(Debug)]
pub enum CredentialPlan {
    /// Those that are stored.
    Use { id: String, secret: String, stored_name: Option<String> },
    /// There are none, and no code to register with.
    MissingCode,
    /// There is a code, but no valid name to register: remove the code, and
    /// wait for a new one.
    DropCode,
    /// The storage could not be read.
    Failed(String),
    /// Register with this code and name.
    Register { code: String, name: String },
}

/// The plan for what is stored: that of a code, where there is one that was
/// not rejected, else that of an id and a secret.
pub open spec fn credentials_of(
    code: Result<Option<String>, String>,
    id: Result<Option<String>, String>,
    secret: Result<Option<String>, String>,
    name: Result<Option<String>, String>,
) -> CredentialPlan {
    match code {
        Err(e) => CredentialPlan::Failed(e),
        Ok(Some(c)) if c@ != NVS_VALUE_REGISTRATION_REJECTED@ => match name {
            Err(e) => CredentialPlan::Failed(e),
            Ok(Some(n)) if is_device_name(n@) => CredentialPlan::Register { code: c, name: n },
            Ok(_) => CredentialPlan::DropCode,
        },
        Ok(_) => match (id, secret) {
            (Ok(Some(i)), Ok(Some(s))) => CredentialPlan::Use {
                id: i,
                secret: s,
                stored_name: match name {
                    Ok(n) => n,
                    Err(_) => None,
                },
            },
            _ => CredentialPlan::MissingCode,
        },
    }
}

/// Decides from what is stored. A code always wins over an id and a secret
/// that are stored already: it means that the device is to register again.
pub fn plan_credentials(
    code: Result<Option<String>, String>,
    id: Result<Option<String>, String>,
    secret: Result<Option<String>, String>,
    name: Result<Option<String>, String>,
) -> (r: CredentialPlan)
    ensures
        r == credentials_of(code, id, secret, name),
{
    match code {
        Err(e) => CredentialPlan::Failed(e),
        Ok(stored) => {
            match stored {
                Some(c) => if !same(c.as_str(), NVS_VALUE_REGISTRATION_REJECTED) {
                    return match name {
                        Err(e) => CredentialPlan::Failed(e),
                        Ok(Some(n)) => {
                            let len: usize = byte_len(n.as_str());
                            if DEVICE_NAME_MIN_LEN <= len && len <= DEVICE_NAME_MAX_LEN {
                                CredentialPlan::Register { code: c, name: n }
                            } else {
                                CredentialPlan::DropCode
                            }
                        },
                        Ok(None) => CredentialPlan::DropCode,
                    };
                },
                None => {},
            }
            match (id, secret) {
                (Ok(Some(i)), Ok(Some(s))) => CredentialPlan::Use {
                    id: i,
                    secret: s,
                    stored_name: match name {
                        Ok(n) => n,
                        Err(_) => None,
                    },
                },
                _ => CredentialPlan::MissingCode,
            }
        },
    }
}

/// The writes that a plan starts with, whose failures do not matter: a code
/// without a name goes, and so does what an earlier registration left.
pub open spec fn plan_ops(plan: CredentialPlan) -> Seq<NvsModel> {
    match plan {
        CredentialPlan::DropCode => seq![
            NvsModel::Remove { namespace: NVS_NAMESPACE@, key: NVS_KEY_REGISTRATION_CODE@ },
        ],
        CredentialPlan::Register { .. } => seq![
            NvsModel::Remove { namespace: NVS_NAMESPACE@, key: NVS_KEY_DEVICE_ID@ },
            NvsModel::Remove { namespace: NVS_NAMESPACE@, key: NVS_KEY_DEVICE_SECRET@ },
        ],
        _ => seq![],
    }
}

impl CredentialPlan {
    /// The writes that the plan starts with.
    pub fn ops(&self) -> (r: Vec<NvsOp>)
        ensures
            op_models(r@) == plan_ops(*self),
    {
        let mut v: Vec<NvsOp> = Vec::new();
        match self {
            CredentialPlan::DropCode => {
                v.push(remove(NVS_NAMESPACE, NVS_KEY_REGISTRATION_CODE));
            },
            CredentialPlan::Register { .. } => {
                v.push(remove(NVS_NAMESPACE, NVS_KEY_DEVICE_ID));
                v.push(remove(NVS_NAMESPACE, NVS_KEY_DEVICE_SECRET));
            },
            _ => {},
        }
        proof {
            assert(op_models(v@) =~= plan_ops(*self));
        }
        v
    }
}

/// What is known of the cloud connection once a plan is followed.
pub open spec fn planned(c: CloudStatus, plan: CredentialPlan) -> CloudStatus {
    match plan {
        CredentialPlan::Use { stored_name, .. } => CloudStatus {
            device_name: stored_name,
            registration: RegistrationStatus::Registered,
            connection: CloudConnectionStatus::Connecting,
            ..c
        },
        CredentialPlan::MissingCode => CloudStatus {
            registration: RegistrationStatus::WaitingForCode,
            ..c
        },
        CredentialPlan::DropCode => CloudStatus {
            registration: RegistrationStatus::WaitingForCode,
            ..c
        },
        CredentialPlan::Failed(e) => CloudStatus {
            registration: RegistrationStatus::Failed(e),
            ..c
        },
        CredentialPlan::Register { name, .. } => CloudStatus {
            device_name: Some(name),
            registration: RegistrationStatus::Registering,
            ..c
        },
    }
}

impl CloudStatus {
    /// Follows a plan. Returns how many seconds to wait before the storage is
    /// looked at again, if the plan gives no credentials.
    pub fn follow(&mut self, plan: &CredentialPlan) -> (r: Option<u64>)
        ensures
            *final(self) == planned(*old(self), *plan),
            r == match *plan {
                CredentialPlan::MissingCode => Some(2u64),
                CredentialPlan::DropCode => Some(2u64),
                CredentialPlan::Failed(_) => Some(5u64),
                _ => None,
            },
    {
        match plan {
            CredentialPlan::Use { stored_name, .. } => {
                self.device_name = match stored_name {
                    Some(n) => Some(n.clone()),
                    None => None,
                };
                self.registered();
                None
            },
            CredentialPlan::MissingCode | CredentialPlan::DropCode => {
                self.registration = RegistrationStatus::WaitingForCode;
                Some(2)
            },
            CredentialPlan::Failed(e) => {
                self.registration = RegistrationStatus::Failed(e.clone());
                Some(5)
            },
            CredentialPlan::Register { name, .. } => {
                self.registration = RegistrationStatus::Registering;
                self.device_name = Some(name.clone());
                None
            },
        }
    }

    /// The device has its credentials and starts to connect.
    pub fn registered(&mut self)
        ensures
            *final(self) == (CloudStatus {
                registration: RegistrationStatus::Registered,
                connection: CloudConnectionStatus::Connecting,
                ..*old(self)
            }),
    {
        self.registration = RegistrationStatus::Registered;
        self.connection = CloudConnectionStatus::Connecting;
    }
}

// ---------------------------------------------------------------------------
// After the registration request
// ---------------------------------------------------------------------------

/// Where the device is in writing down the outcome of a registration.
#[derive(Clone, Copy, PartialEq, Eq, Debug, Structural)]
pub enum EnrolStage {
    StoreId,
    StoreSecret,
    RemoveCode,
    Registered,
    MarkRejected,
    Failed,
}

/// The outcome of a registration while it is written down: the id and the
/// secret first, and only then is the code removed.
#[derive(Debug)]
pub struct Enrolment {
    pub stage: EnrolStage,
    pub id: String,
    pub secret: String,
    pub error: String,
}

/// The write of a stage.
pub open spec fn stage_op(e: Enrolment) -> Option<NvsModel> {
    match e.stage {
        EnrolStage::StoreId => Some(
            NvsModel::Store { namespace: NVS_NAMESPACE@, key: NVS_KEY_DEVICE_ID@, value: e.id@ },
        ),
        EnrolStage::StoreSecret => Some(
            NvsModel::Store {
                namespace: NVS_NAMESPACE@,
                key: NVS_KEY_DEVICE_SECRET@,
                value: e.secret@,
            },
        ),
        EnrolStage::RemoveCode => Some(
            NvsModel::Remove { namespace: NVS_NAMESPACE@, key: NVS_KEY_REGISTRATION_CODE@ },
        ),
        EnrolStage::MarkRejected => Some(
            NvsModel::Store {
                namespace: NVS_NAMESPACE@,
                key: NVS_KEY_REGISTRATION_CODE@,
                value: NVS_VALUE_REGISTRATION_REJECTED@,
            },
        ),
        EnrolStage::Registered => None,
        EnrolStage::Failed => None,
    }
}

/// The stage after a write. A secret or an id that cannot be stored fails the
/// registration; other writes may fail.
pub open spec fn stage_after(stage: EnrolStage, ok: bool) -> EnrolStage {
    match stage {
        EnrolStage::StoreId => if ok {
            EnrolStage::StoreSecret
        } else {
            EnrolStage::Failed
        },
        EnrolStage::StoreSecret => if ok {
            EnrolStage::RemoveCode
        } else {
            EnrolStage::Failed
        },
        EnrolStage::RemoveCode => EnrolStage::Registered,
        EnrolStage::MarkRejected => EnrolStage::Failed,
        EnrolStage::Registered => EnrolStage::Registered,
        EnrolStage::Failed => EnrolStage::Failed,
    }
}

/// A registration once the write of its stage had this outcome.
pub open spec fn enrol_after(e: Enrolment, outcome: Result<(), String>) -> Enrolment {
    Enrolment {
        stage: stage_after(e.stage, outcome is Ok),
        error: match outcome {
            Err(error) if e.stage == EnrolStage::StoreId || e.stage == EnrolStage::StoreSecret
                => error,
            _ => e.error,
        },
        ..e
    }
}

impl Enrolment {
    /// Starts with the outcome of the request.
    pub fn new(outcome: Result<(String, String), String>) -> (r: Self)
        ensures
            match outcome {
                Ok((id, secret)) => r.stage == EnrolStage::StoreId && r.id == id && r.secret
                    == secret && r.error@.len() == 0,
                Err(e) => r.stage == EnrolStage::MarkRejected && r.error == e && r.id@.len() == 0
                    && r.secret@.len() == 0,
            },
    {
        match outcome {
            Ok((id, secret)) => Enrolment {
                stage: EnrolStage::StoreId,
                id,
                secret,
                error: String::new(),
            },
            Err(error) => Enrolment {
                stage: EnrolStage::MarkRejected,
                id: String::new(),
                secret: String::new(),
                error,
            },
        }
    }

    /// The next write, until there is none.
    pub fn op(&self) -> (r: Option<NvsOp>)
        ensures
            r is Some <==> stage_op(*self) is Some,
            r matches Some(o) ==> stage_op(*self) == Some(o@),
    {
        match self.stage {
            EnrolStage::StoreId => Some(store(NVS_NAMESPACE, NVS_KEY_DEVICE_ID, self.id.as_str())),
            EnrolStage::StoreSecret => Some(
                store(NVS_NAMESPACE, NVS_KEY_DEVICE_SECRET, self.secret.as_str()),
            ),
            EnrolStage::RemoveCode => Some(remove(NVS_NAMESPACE, NVS_KEY_REGISTRATION_CODE)),
            EnrolStage::MarkRejected => Some(
                store(NVS_NAMESPACE, NVS_KEY_REGISTRATION_CODE, NVS_VALUE_REGISTRATION_REJECTED),
            ),
            _ => None,
        }
    }

    /// Takes the outcome of that write.
    pub fn written(&mut self, outcome: Result<(), String>)
        ensures
            *final(self) == enrol_after(*old(self), outcome),
    {
        match self.stage {
            EnrolStage::StoreId => {
                match outcome {
                    Ok(_) => {
                        self.stage = EnrolStage::StoreSecret;
                    },
                    Err(e) => {
                        self.error = e;
                        self.stage = EnrolStage::Failed;
                    },
                }
            },
            EnrolStage::StoreSecret => {
                match outcome {
                    Ok(_) => {
                        self.stage = EnrolStage::RemoveCode;
                    },
                    Err(e) => {
                        self.error = e;
                        self.stage = EnrolStage::Failed;
                    },
                }
            },
            EnrolStage::RemoveCode => {
                self.stage = EnrolStage::Registered;
            },
            EnrolStage::MarkRejected => {
                self.stage = EnrolStage::Failed;
            },
            _ => {},
        }
    }

    /// The credentials, or why there are none.
    pub fn result(self) -> (r: Result<(String, String), String>)
        requires
            self.stage == EnrolStage::Registered || self.stage == EnrolStage::Failed,
        ensures
            r == if self.stage == EnrolStage::Registered {
                Ok((self.id, self.secret))
            } else {
                Err(self.error)
            },
    {
        match self.stage {
            EnrolStage::Registered => Ok((self.id, self.secret)),
            _ => Err(self.error),
        }
    }
}

// ---------------------------------------------------------------------------
// The registration request
// ---------------------------------------------------------------------------

/// A MAC address in upper-case hexadecimal, with colons between the bytes.
pub open spec fn mac_text(mac: Seq<u8>) -> Seq<char>
    decreases mac.len(),
{
    if mac.len() == 0 {
        seq![]
    } else if mac.len() == 1 {
        hex_byte_upper(mac[0])
    } else {
        mac_text(mac.drop_last()) + seq![':'] + hex_byte_upper(mac.last())
    }
}

/// A MAC address in upper-case hexadecimal.
pub fn device_mac_address(mac: &[u8; 6]) -> (r: String)
    ensures
        r@ == mac_text(mac@),
{
    let mut out: String = String::new();
    proof {
        reveal_strlit(":");
        assert(":"@ =~= seq![':']);
        assert(mac@.take(0) =~= seq![]);
    }
    for i in 0..6usize
        invariant
            ":"@ == seq![':'],
            mac@.len() == 6,
            out@ == mac_text(mac@.take(i as int)),
    {
        let ghost so_far = mac@.take(i + 1);
        proof {
            assert(so_far.drop_last() =~= mac@.take(i as int));
            assert(so_far.last() == mac@[i as int]);
        }
        if i > 0 {
            out.append(":");
        }
        push_hex_byte_upper(&mut out, mac[i]);
        proof {
            assert(out@ =~= mac_text(so_far));
        }
    }
    proof {
        assert(mac@.take(6) =~= mac@);
    }
    out
}

/// Where devices register.
pub open spec fn register_url_of(host: Seq<char>) -> Seq<char> {
    "https://"@ + host + "/api/devices/register"@
}

/// What a device sends to register.
pub open spec fn register_payload_of(code: Seq<char>, mac: Seq<char>, name: Seq<char>) -> Seq<
    char,
> {
    "#reg,"@ + code + ","@ + mac + ","@ + name + "\r\n"@
}

/// A request to register.
#[derive(Debug)]
pub struct RegisterRequest {
    pub url: String,
    pub payload: String,
    /// The payload's length in bytes, in decimal.
    pub content_length: String,
}

/// The request to register with `code` under `name`.
pub fn register_request(code: &str, name: &str, mac: &[u8; 6], host: &str) -> (r: RegisterRequest)
    ensures
        r.url@ == register_url_of(host@),
        r.payload@ == register_payload_of(code@, mac_text(mac@), name@),
        r.content_length@ == decimal(encode_utf8(r.payload@).len()),
{
    let mut url: String = String::new();
    url.append("https://");
    url.append(host);
    url.append("/api/devices/register");
    let mut payload: String = String::new();
    payload.append("#reg,");
    payload.append(code);
    payload.append(",");
    payload.append(device_mac_address(mac).as_str());
    payload.append(",");
    payload.append(name);
    payload.append("\r\n");
    let mut content_length: String = String::new();
    push_number(&mut content_length, byte_len(payload.as_str()) as u64);
    proof {
        assert(url@ =~= register_url_of(host@));
        assert(payload@ =~= register_payload_of(code@, mac_text(mac@), name@));
        assert(content_length@ =~= decimal(encode_utf8(payload@).len()));
    }
    RegisterRequest { url, payload, content_length }
}

/// Why a response gives no credentials.
#[derive(Debug)]
pub enum RegisterError {
    /// The status is not one of success.
    Status(u16),
    /// The body is not text.
    NotText(core::str::Utf8Error),
    /// The body does not start as it should.
    Unexpected(String),
    MissingId(String),
    MissingSecret(String),
}

/// The id and the secret in a response body, a text of
/// `#id,<id>,<secret>,<name>`. What follows the secret does not matter.
pub open spec fn response_fields(body: Seq<char>) -> Seq<Seq<char>> {
    pieces(trimmed(body), ',')
}

/// Reads the body of a response.
pub fn parse_registration_response(body: &str) -> (r: Result<(String, String), RegisterError>)
    ensures
        ({
            let p = response_fields(body@);
            if p[0] != "#id"@ {
                r matches Err(RegisterError::Unexpected(b)) && b@ == body@
            } else if p.len() == 1 {
                r matches Err(RegisterError::MissingId(b)) && b@ == body@
            } else if p.len() == 2 {
                r matches Err(RegisterError::MissingSecret(b)) && b@ == body@
            } else {
                r matches Ok((id, secret)) && id@ == p[1] && secret@ == p[2]
            }
        }),
{
    let p: Vec<&str> = split(trim(body), ',');
    proof {
        assert(texts(p@)[0] == p@[0]@);
    }
    if !same(p[0], "#id") {
        return Err(RegisterError::Unexpected(body.to_owned()));
    }
    if p.len() < 2 {
        return Err(RegisterError::MissingId(body.to_owned()));
    }
    if p.len() < 3 {
        return Err(RegisterError::MissingSecret(body.to_owned()));
    }
    proof {
        assert(texts(p@)[1] == p@[1]@);
        assert(texts(p@)[2] == p@[2]@);
    }
    Ok((p[1].to_owned(), p[2].to_owned()))
}

/// Reads a response: its status, and the bytes of its body.
pub fn read_response(status: u16, body: &[u8]) -> (r: Result<(String, String), RegisterError>)
    ensures
        if !(200 <= status < 300) {
            r == Err::<(String, String), RegisterError>(RegisterError::Status(status))
        } else if !valid_utf8(body@) {
            r == Err::<(String, String), RegisterError>(RegisterError::NotText(utf8_error(body@)))
        } else {
            let text = decode_utf8(body@);
            let p = response_fields(text);
            if p[0] != "#id"@ {
                r matches Err(RegisterError::Unexpected(b)) && b@ == text
            } else if p.len() == 1 {
                r matches Err(RegisterError::MissingId(b)) && b@ == text
            } else if p.len() == 2 {
                r matches Err(RegisterError::MissingSecret(b)) && b@ == text
            } else {
                r matches Ok((id, secret)) && id@ == p[1] && secret@ == p[2]
            }
        },
{
    if !(200 <= status && status < 300) {
        return Err(RegisterError::Status(status));
    }
    match core::str::from_utf8(body) {
        Ok(text) => parse_registration_response(text),
        Err(e) => Err(RegisterError::NotText(e)),
    }
}

/// What `Debug` writes for a text.
pub uninterp spec fn debug_text(s: Seq<char>) -> Seq<char>;

/// `format!` with `{:?}` on a `str`: the text in quotes, with escapes. Nothing
/// is claimed but that it depends on the text alone.
#[verifier::external_body]
fn format_debug(s: &str) -> (r: String)
    ensures
        r@ == debug_text(s@),
{
    format!("{s:?}")
}

/// What `Display` writes for an error of `core::str::from_utf8`.
pub uninterp spec fn utf8_error_text(e: core::str::Utf8Error) -> Seq<char>;

/// `to_string` of `core::str::Utf8Error`: what is wrong with the bytes, in
/// words. Nothing is claimed but that they depend on the error alone.
#[verifier::external_body]
fn format_utf8_error(e: &core::str::Utf8Error) -> (r: String)
    ensures
        r@ == utf8_error_text(*e),
{
    e.to_string()
}

impl RegisterError {
    /// What is wrong, in words.
    pub fn message(&self) -> (r: String)
        ensures
            match *self {
                RegisterError::Status(status) => r@
                    == "registration request failed with HTTP status "@ + decimal(status as nat),
                RegisterError::NotText(e) => r@ == utf8_error_text(e),
                RegisterError::Unexpected(body) => r@ == "unexpected registration response: "@
                    + debug_text(body@),
                RegisterError::MissingId(body) => r@
                    == "registration response missing device id: "@ + debug_text(body@),
                RegisterError::MissingSecret(body) => r@
                    == "registration response missing device secret: "@ + debug_text(body@),
            },
    {
        let mut out: String = String::new();
        match self {
            RegisterError::Status(status) => {
                out.append("registration request failed with HTTP status ");
                push_number(&mut out, *status as u64);
                proof {
                    assert(out@ =~= "registration request failed with HTTP status "@ + decimal(
                        *status as nat,
                    ));
                }
            },
            RegisterError::NotText(e) => {
                out.append(format_utf8_error(e).as_str());
                proof {
                    assert(out@ =~= utf8_error_text(*e));
                }
            },
            RegisterError::Unexpected(body) => {
                out.append("unexpected registration response: ");
                out.append(format_debug(body.as_str()).as_str());
                proof {
                    assert(out@ =~= "unexpected registration response: "@ + debug_text(body@));
                }
            },
            RegisterError::MissingId(body) => {
                out.append("registration response missing device id: ");
                out.append(format_debug(body.as_str()).as_str());
                proof {
                    assert(out@ =~= "registration response missing device id: "@ + debug_text(
                        body@,
                    ));
                }
            },
            RegisterError::MissingSecret(body) => {
                out.append("registration response missing device secret: ");
                out.append(format_debug(body.as_str()).as_str());
                proof {
                    assert(out@ =~= "registration response missing device secret: "@ + debug_text(
                        body@,
                    ));
                }
            },
        }
        out
    }
}

// ---------------------------------------------------------------------------
// The connection
// ---------------------------------------------------------------------------

/// The headers that identify a device, one line each.
pub open spec fn headers_of(id: Seq<char>, secret: Seq<char>) -> Seq<char> {
    "X-Device-Id: "@ + id + "\r\nX-Device-Secret: "@ + secret + "\r\n"@
}

/// The headers that identify a device.
pub fn device_headers(id: &str, secret: &str) -> (r: String)
    ensures
        r@ == headers_of(id@, secret@),
{
    let mut out: String = String::new();
    out.append("X-Device-Id: ");
    out.append(id);
    out.append("\r\nX-Device-Secret: ");
    out.append(secret);
    out.append("\r\n");
    proof {
        assert(out@ =~= headers_of(id@, secret@));
    }
    out
}

/// Where a client connects to.
pub open spec fn url_of(host: Seq<char>) -> Seq<char> {
    "wss://"@ + host + "/ws/device"@
}

/// Where devices connect.
pub fn websocket_url(host: &str) -> (r: String)
    ensures
        r@ == url_of(host@),
{
    let mut out: String = String::new();
    out.append("wss://");
    out.append(host);
    out.append("/ws/device");
    proof {
        assert(out@ =~= "wss://"@ + host@ + "/ws/device"@);
    }
    out
}

/// The text of a ping at tick `now`.
pub open spec fn ping_of(now: u64) -> Seq<char> {
    "ping,"@ + decimal((now / TICKS_PER_SEC) as nat)
}

/// What to do next with a client.
#[derive(Debug)]
pub enum ClientStep {
    /// Settle the state with `settle`.
    Settle,
    /// Send this text. Where that fails, drop the client; else settle.
    Ping(String),
    /// The client was closed elsewhere: start over.
    Gone,
}

/// A client's own state: when the last ping was sent.
#[derive(Clone, Copy, Debug)]
pub struct ClientTask {
    pub last_ping: u64,
}

impl ClientTask {
    pub fn new(now: u64) -> (r: Self)
        ensures
            r.last_ping == now,
    {
        ClientTask { last_ping: now }
    }

    /// One look at the client at tick `now`; `connected` is `None` where there
    /// is no client any more. A connected client is pinged at intervals: a
    /// link that passes no data any more shows only in a ping that fails.
    pub fn poll(&mut self, connected: Option<bool>, now: u64, cloud: &mut CloudStatus) -> (r:
        ClientStep)
        requires
            old(self).last_ping <= now,
        ensures
            match connected {
                None => {
                    &&& r == ClientStep::Gone
                    &&& final(self).last_ping == old(self).last_ping
                    &&& *final(cloud) == (CloudStatus {
                        connection: CloudConnectionStatus::Disconnected,
                        ..*old(cloud)
                    })
                },
                Some(up) => {
                    &&& *final(cloud) == *old(cloud)
                    &&& if up && now - old(self).last_ping >= PING_INTERVAL {
                        &&& r matches ClientStep::Ping(text) && text@ == ping_of(now)
                        &&& final(self).last_ping == now
                    } else {
                        &&& r == ClientStep::Settle
                        &&& final(self).last_ping == old(self).last_ping
                    }
                },
            },
            r is Ping <==> connected == Some(true) && now >= old(self).last_ping + 10_000_000,
            r matches ClientStep::Ping(text) ==> text@ == "ping,"@ + decimal(
                (now / 1_000_000) as nat,
            ),
    {
        match connected {
            None => {
                cloud.connection = CloudConnectionStatus::Disconnected;
                ClientStep::Gone
            },
            Some(up) => {
                if up && now - self.last_ping >= PING_INTERVAL {
                    self.last_ping = now;
                    let mut text: String = String::new();
                    text.append("ping,");
                    push_number(&mut text, now / TICKS_PER_SEC);
                    proof {
                        assert(text@ =~= ping_of(now));
                    }
                    ClientStep::Ping(text)
                } else {
                    ClientStep::Settle
                }
            },
        }
    }
}

/// A client was dropped.
pub fn dropped(cloud: &mut CloudStatus)
    ensures
        *final(cloud) == (CloudStatus {
            connection: CloudConnectionStatus::Disconnected,
            ..*old(cloud)
        }),
{
    cloud.connection = CloudConnectionStatus::Disconnected;
}

/// The shared state after a look at a client: what is known of the
/// connection, unless the device is to register again.
pub open spec fn settled(g: Global, connected: bool) -> Global {
    if g.reregister {
        Global {
            reregister: false,
            cloud_status: CloudStatus {
                registration: RegistrationStatus::Registering,
                connection: CloudConnectionStatus::Disconnected,
                ..g.cloud_status
            },
            ..g
        }
    } else {
        Global {
            cloud_status: CloudStatus {
                connection: if connected {
                    CloudConnectionStatus::Connected
                } else {
                    CloudConnectionStatus::Disconnected
                },
                ..g.cloud_status
            },
            ..g
        }
    }
}

/// Ends one look at a client. Returns whether the client is to be closed, to
/// register again; the request for that is taken.
pub fn settle(g: &mut Global, connected: bool) -> (r: bool)
    ensures
        r == old(g).reregister,
        *final(g) == settled(*old(g), connected),
        !final(g).reregister,
        final(g).cloud_status.connection is Connected <==> connected && !r,
        final(g).cloud_status.connection is Disconnected <==> !connected || r,
        r ==> final(g).cloud_status.registration is Registering,
        !r ==> final(g).cloud_status.registration == old(g).cloud_status.registration,
{
    if g.reregister {
        g.reregister = false;
        g.cloud_status.registration = RegistrationStatus::Registering;
        g.cloud_status.connection = CloudConnectionStatus::Disconnected;
        true
    } else {
        g.cloud_status.connection = if connected {
            CloudConnectionStatus::Connected
        } else {
            CloudConnectionStatus::Disconnected
        };
        false
    }
}

/// Whether the cloud can be connected to.
pub fn wifi_ready(g: &Global) -> (r: bool)
    ensures
        r == (g.wifi_status.status is Connected),
{
    match &g.wifi_status.status {
        WifiConnectionStatus::Connected => true,
        _ => false,
    }
}

/// Where the rest of a message of `len` bytes starts, after `consumed` of the
/// bytes from `start` on; `None` where there is no rest, or where nothing was
/// consumed, which would go on for ever.
pub fn next_command(start: usize, consumed: usize, len: usize) -> (r: Option<usize>)
    requires
        start <= len,
    ensures
        r == if consumed == 0 || start + consumed >= len {
            None
        } else {
            Some((start + consumed) as usize)
        },
        r matches Some(next) ==> start < next < len,
{
    if consumed == 0 || consumed >= len - start {
        None
    } else {
        Some(start + consumed)
    }
}

// ---------------------------------------------------------------------------
// Laws
// ---------------------------------------------------------------------------

/// What is stored after an enrolment that starts at `stage`, where the write
/// of each stage succeeds.
pub open spec fn enrolled(stored: Stored, id: Seq<char>, secret: Seq<char>) -> Stored {
    stored.insert((NVS_NAMESPACE@, NVS_KEY_DEVICE_ID@), id).insert(
        (NVS_NAMESPACE@, NVS_KEY_DEVICE_SECRET@),
        secret,
    ).remove((NVS_NAMESPACE@, NVS_KEY_REGISTRATION_CODE@))
}

/// A code leaves the storage only after both the id and the secret have been
/// stored: the stage that removes it is reached over two writes that
/// succeeded.
pub proof fn lemma_code_outlives_failure(first: bool, second: bool)
    ensures
        stage_after(stage_after(EnrolStage::StoreId, first), second) == EnrolStage::RemoveCode
            <==> first && second,
        !first ==> stage_after(EnrolStage::StoreId, first) == EnrolStage::Failed,
{
}

/// A registration whose writes succeed leaves the new id and secret, no code,
/// and everything else as it was.
pub proof fn lemma_enrolment_stores(e: Enrolment, stored: Stored)
    requires
        e.stage == EnrolStage::StoreId,
    ensures
        ({
            let e2 = Enrolment { stage: stage_after(e.stage, true), ..e };
            let e3 = Enrolment { stage: stage_after(e2.stage, true), ..e2 };
            let e4 = Enrolment { stage: stage_after(e3.stage, true), ..e3 };
            &&& stage_op(e4) is None
            &&& e4.stage == EnrolStage::Registered
            &&& after_op(
                after_op(after_op(stored, stage_op(e)->0), stage_op(e2)->0),
                stage_op(e3)->0,
            ) == enrolled(stored, e.id@, e.secret@)
        }),
{
}

/// A code wins over an id and a secret that are stored: the device registers
/// again.
pub proof fn lemma_code_wins(
    code: String,
    name: String,
    id: Result<Option<String>, String>,
    secret: Result<Option<String>, String>,
)
    requires
        code@ != NVS_VALUE_REGISTRATION_REJECTED@,
        is_device_name(name@),
    ensures
        credentials_of(Ok(Some(code)), id, secret, Ok(Some(name))) == (CredentialPlan::Register {
            code,
            name,
        }),
{
}

/// A code that was rejected is not tried again: what is written in its place
/// never leads to a registration, and is no code.
pub proof fn lemma_rejected_is_spent(
    e: Enrolment,
    stored: Stored,
    code: String,
    id: Result<Option<String>, String>,
    secret: Result<Option<String>, String>,
    name: Result<Option<String>, String>,
)
    requires
        e.stage == EnrolStage::MarkRejected,
        code@ == after_op(stored, stage_op(e)->0)[(NVS_NAMESPACE@, NVS_KEY_REGISTRATION_CODE@)],
    ensures
        credentials_of(Ok(Some(code)), id, secret, name) !is Register,
        encode_utf8(code@).len() == 1,
{
    reveal_strlit("0");
    assert(is_ascii_chars("0"@));
    is_ascii_chars_encode_utf8("0"@);
}

/// A response in the documented form, with or without white space around it,
/// gives its id and its secret.
pub proof fn lemma_response_reads(
    body: Seq<char>,
    id: Seq<char>,
    secret: Seq<char>,
    name: Seq<char>,
)
    requires
        lacks(id, ','),
        lacks(secret, ','),
        trimmed(body) == "#id"@ + seq![','] + id + seq![','] + secret + seq![','] + name,
    ensures
        ({
            let p = response_fields(body);
            &&& p.len() >= 3
            &&& p[0] == "#id"@
            &&& p[1] == id
            &&& p[2] == secret
        }),
{
    reveal_strlit("#id");
    let r2 = secret + seq![','] + name;
    let r1 = id + seq![','] + r2;
    assert(trimmed(body) =~= "#id"@ + seq![','] + r1);
    lemma_pieces_join("#id"@, ',', r1);
    lemma_pieces_join(id, ',', r2);
    lemma_pieces_join(secret, ',', name);
    lemma_pieces_lack(name, ',');
}

/// A device's name takes from 3 to 64 bytes.
pub proof fn lemma_device_name_bounds(s: Seq<char>)
    ensures
        is_device_name(s) <==> 3 <= encode_utf8(s).len() && encode_utf8(s).len() <= 64,
{
}

/// A host that is stored is the one that is used, unless it is empty.
pub proof fn lemma_stored_host_is_used(stored: Option<&str>)
    ensures
        stored matches Some(h) && h@.len() > 0 ==> host_of(stored) == stored->0@,
        !(stored matches Some(h) && h@.len() > 0) ==> host_of(stored)
            == "docker.ws-ai-call-bot.workers.dev"@,
        host_of(stored).len() > 0,
{
    reveal_strlit("docker.ws-ai-call-bot.workers.dev");
}

/// Without a code, or with one that was rejected, the device uses the id and
/// the secret that are stored, and waits for a code where either is missing or
/// cannot be read. The name does not matter.
pub proof fn lemma_stored_credentials_are_used(
    code: Option<String>,
    id: Result<Option<String>, String>,
    secret: Result<Option<String>, String>,
    name: Result<Option<String>, String>,
)
    requires
        code matches Some(c) ==> c@ == "0"@,
    ensures
        ({
            let plan = credentials_of(Ok(code), id, secret, name);
            let known = (id matches Ok(Some(_))) && (secret matches Ok(Some(_)));
            &&& plan is Use <==> known
            &&& plan is MissingCode <==> !known
            &&& plan matches CredentialPlan::Use { id: i, secret: s, stored_name } ==> {
                &&& id == Ok::<Option<String>, String>(Some(i))
                &&& secret == Ok::<Option<String>, String>(Some(s))
                &&& name is Ok ==> Ok::<Option<String>, String>(stored_name) == name
                &&& name is Err ==> stored_name is None
            }
        }),
{
}

/// A code that was not rejected is dropped where there is no name to register
/// that a device can have.
pub proof fn lemma_code_needs_name(
    code: String,
    id: Result<Option<String>, String>,
    secret: Result<Option<String>, String>,
    name: Option<String>,
)
    requires
        code@ != "0"@,
    ensures
        ({
            let plan = credentials_of(Ok(Some(code)), id, secret, Ok(name));
            let named = name is Some && 3 <= encode_utf8(name->0@).len() <= 64;
            &&& plan is Register <==> named
            &&& plan is DropCode <==> !named
            &&& plan matches CredentialPlan::Register { code: c, name: n } ==> c == code && name
                == Some(n)
        }),
{
}

/// A code that cannot be read fails with its error, and so does a name, where
/// it is needed.
pub proof fn lemma_unreadable_fails(
    code: Result<Option<String>, String>,
    id: Result<Option<String>, String>,
    secret: Result<Option<String>, String>,
    name: Result<Option<String>, String>,
)
    ensures
        ({
            let plan = credentials_of(code, id, secret, name);
            let needed = (code matches Ok(Some(c)) && c@ != "0"@);
            &&& plan is Failed <==> code is Err || (needed && name is Err)
            &&& code matches Err(e) ==> plan == CredentialPlan::Failed(e)
            &&& needed ==> (name matches Err(e) ==> plan == CredentialPlan::Failed(e))
        }),
{
}

/// What is known of the cloud connection follows the plan: a device that has
/// credentials starts to connect, and nothing else changes the connection.
pub proof fn lemma_status_follows_plan(c: CloudStatus, plan: CredentialPlan)
    ensures
        ({
            let after = planned(c, plan);
            &&& after.registration is Registered <==> plan is Use
            &&& after.registration is Registering <==> plan is Register
            &&& after.registration is WaitingForCode <==> plan is MissingCode || plan is DropCode
            &&& plan matches CredentialPlan::Failed(e) ==> after.registration
                == RegistrationStatus::Failed(e)
            &&& plan is Use ==> after.connection is Connecting
            &&& !(plan is Use) ==> after.connection == c.connection
            &&& plan matches CredentialPlan::Use { stored_name, .. } ==> after.device_name
                == stored_name
            &&& plan matches CredentialPlan::Register { name, .. } ==> after.device_name == Some(
                name,
            )
            &&& !(plan is Use) && !(plan is Register) ==> after.device_name == c.device_name
            &&& after.host == c.host
        }),
{
}

/// A code that is dropped is gone, and nothing else; before a registration the
/// id and the secret are gone, and nothing else; no other plan writes.
pub proof fn lemma_plan_writes(stored: Stored, plan: CredentialPlan)
    ensures
        ({
            let after = after_ops(stored, plan_ops(plan));
            &&& plan is DropCode ==> after == stored.remove(("device"@, "reg_code"@))
            &&& plan is Register ==> after == stored.remove(("device"@, "device_id"@)).remove(
                ("device"@, "device_secret"@),
            )
            &&& !(plan is DropCode) && !(plan is Register) ==> after == stored
        }),
{
    let ops = plan_ops(plan);
    reveal_with_fuel(after_ops, 3);
    if plan is Register {
        assert(ops.drop_last().drop_last() =~= Seq::<NvsModel>::empty());
        assert(ops.drop_last().last() == ops[0]);
    } else if plan is DropCode {
        assert(ops.drop_last() =~= Seq::<NvsModel>::empty());
    }
}

/// A registration that was rejected leaves a mark in place of its code, which
/// fails whether the mark could be written or not, with the error of the
/// request.
pub proof fn lemma_rejection_keeps_error(e: Enrolment, stored: Stored, outcome: Result<(), String>)
    requires
        e.stage is MarkRejected,
    ensures
        stage_op(e) is Some,
        after_op(stored, stage_op(e)->0) == stored.insert(("device"@, "reg_code"@), "0"@),
        enrol_after(e, outcome).stage is Failed,
        enrol_after(e, outcome).error == e.error,
{
}

/// An id or a secret that cannot be stored fails the registration with that
/// error; a code that cannot be removed does not.
pub proof fn lemma_enrolment_fails_with(e: Enrolment, error: String)
    ensures
        ({
            let after = enrol_after(e, Err(error));
            let stores = e.stage is StoreId || e.stage is StoreSecret;
            &&& stores ==> after.stage is Failed && after.error == error
            &&& !stores ==> after.error == e.error
            &&& e.stage is RemoveCode ==> after.stage is Registered
            &&& after.id == e.id && after.secret == e.secret
        }),
{
}

/// The bytes of an address stand in their order, each as two digits, with a
/// colon between two of them.
pub proof fn lemma_mac_byte(mac: Seq<u8>, i: int)
    requires
        0 <= i < mac.len(),
    ensures
        mac_text(mac).len() == 3 * mac.len() - 1,
        mac_text(mac)[3 * i] == hex_byte_upper(mac[i])[0],
        mac_text(mac)[3 * i + 1] == hex_byte_upper(mac[i])[1],
        i < mac.len() - 1 ==> mac_text(mac)[3 * i + 2] == ':',
    decreases mac.len(),
{
    if mac.len() > 1 {
        let rest = mac.drop_last();
        lemma_mac_byte(rest, 0);
        if i < mac.len() - 1 {
            lemma_mac_byte(rest, i);
        }
    }
}

/// The fields of what a device sends to register are the command, the code,
/// the address and the name, in this order; the line end is behind the name.
pub proof fn lemma_payload_fields(code: Seq<char>, mac: Seq<char>, name: Seq<char>)
    requires
        lacks(code, ','),
        lacks(mac, ','),
        lacks(name, ','),
    ensures
        pieces(register_payload_of(code, mac, name), ',') == seq![
            "#reg"@,
            code,
            mac,
            name + seq!['\r', '\n'],
        ],
{
    reveal_strlit("#reg,");
    reveal_strlit("#reg");
    reveal_strlit(",");
    reveal_strlit("\r\n");
    let c = seq![','];
    let last = name + seq!['\r', '\n'];
    let r2 = mac + c + last;
    let r1 = code + c + r2;
    let s = register_payload_of(code, mac, name);
    assert(s =~= "#reg"@ + c + r1);
    lemma_pieces_join("#reg"@, ',', r1);
    lemma_pieces_join(code, ',', r2);
    lemma_pieces_join(mac, ',', last);
    assert(lacks(last, ',')) by {
        assert forall|i: int| 0 <= i < last.len() implies last[i] != ',' by {
            if i < name.len() {
                assert(last[i] == name[i]);
            }
        }
    }
    lemma_pieces_one(last, ',');
    assert(pieces(s, ',') =~= seq!["#reg"@, code, mac, last]);
}

/// The headers are two lines, of the id and of the secret.
pub proof fn lemma_header_lines(id: Seq<char>, secret: Seq<char>)
    requires
        lacks(id, '\n'),
        lacks(secret, '\n'),
    ensures
        pieces(headers_of(id, secret), '\n') == seq![
            "X-Device-Id: "@ + id + seq!['\r'],
            "X-Device-Secret: "@ + secret + seq!['\r'],
            seq![],
        ],
{
    reveal_strlit("X-Device-Id: ");
    reveal_strlit("X-Device-Secret: ");
    reveal_strlit("\r\nX-Device-Secret: ");
    reveal_strlit("\r\n");
    let first = "X-Device-Id: "@ + id + seq!['\r'];
    let second = "X-Device-Secret: "@ + secret + seq!['\r'];
    let n = seq!['\n'];
    let none = Seq::<char>::empty();
    let s = headers_of(id, secret);
    let rest = second + n + none;
    assert(s =~= first + n + rest);
    assert forall|i: int| 0 <= i < first.len() implies first[i] != '\n' by {
        if 13 <= i < 13 + id.len() {
            assert(first[i] == id[i - 13]);
        }
    }
    assert forall|i: int| 0 <= i < second.len() implies second[i] != '\n' by {
        if 17 <= i < 17 + secret.len() {
            assert(second[i] == secret[i - 17]);
        }
    }
    lemma_pieces_join(first, '\n', rest);
    lemma_pieces_join(second, '\n', none);
    lemma_pieces_one(none, '\n');
    assert(pieces(s, '\n') =~= seq![first, second, none]);
}

/// A request to register again is taken once, and leaves the device neither
/// registered nor connected; else the connection is what the client says it
/// is, and the registration stays. Nothing else changes.
pub proof fn lemma_settled_status(g: Global, connected: bool)
    ensures
        ({
            let after = settled(g, connected);
            &&& !after.reregister
            &&& after.cloud_status.connection is Connected <==> connected && !g.reregister
            &&& after.cloud_status.connection is Disconnected <==> !connected || g.reregister
            &&& g.reregister ==> after.cloud_status.registration is Registering
            &&& !g.reregister ==> after.cloud_status.registration == g.cloud_status.registration
            &&& after.cloud_status.host == g.cloud_status.host
            &&& after.cloud_status.device_name == g.cloud_status.device_name
            &&& after == (Global {
                reregister: after.reregister,
                cloud_status: after.cloud_status,
                ..g
            })
        }),
{
}

/// Devices register and connect at the same host, over encrypted connections.
pub proof fn lemma_urls_hold_host(host: Seq<char>)
    ensures
        ({
            let r = register_url_of(host);
            let c = url_of(host);
            let n = host.len() as int;
            &&& r.take(8) == "https://"@
            &&& r.subrange(8, 8 + n) == host
            &&& r.skip(8 + n) == "/api/devices/register"@
            &&& c.take(6) == "wss://"@
            &&& c.subrange(6, 6 + n) == host
            &&& c.skip(6 + n) == "/ws/device"@
        }),
{
    reveal_strlit("https://");
    reveal_strlit("wss://");
    let r = register_url_of(host);
    let c = url_of(host);
    let n = host.len() as int;
    assert(r.take(8) =~= "https://"@);
    assert(r.subrange(8, 8 + n) =~= host);
    assert(r.skip(8 + n) =~= "/api/devices/register"@);
    assert(c.take(6) =~= "wss://"@);
    assert(c.subrange(6, 6 + n) =~= host);
    assert(c.skip(6 + n) =~= "/ws/device"@);
}

/// A ping holds the whole seconds since the start, so that two of them within
/// a second are the same and a later one has a later number.
pub proof fn lemma_ping_counts_seconds(now: u64)
    ensures
        ping_of(now).take(5) == seq!['p', 'i', 'n', 'g', ','],
        ({
            let secs = number(ping_of(now).skip(5));
            &&& secs matches Some(n) && n * 1_000_000 <= now && now < (n + 1) * 1_000_000
        }),
{
    reveal_strlit("ping,");
    let p = ping_of(now);
    let n = (now / TICKS_PER_SEC) as nat;
    assert(p.take(5) =~= seq!['p', 'i', 'n', 'g', ',']);
    assert(p.skip(5) =~= decimal(n));
    lemma_number_of_decimal(n);
}

} // verus!
