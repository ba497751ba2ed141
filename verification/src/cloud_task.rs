//! The task that registers the device and keeps it connected: from what
//! happened to what to do next.
use crate::global::{CloudConnectionStatus, CloudStatus, Global, RegistrationStatus};
use crate::nvs::{NvsOp, op_models};
use crate::websocket::{
    ClientStep, ClientTask, CredentialPlan, EnrolStage, Enrolment, PING_INTERVAL, credentials_of,
    device_headers, dropped, enrol_after, headers_of, host_of, ping_of, plan_credentials, plan_ops,
    planned, read_cloud_host, settle, settled, stage_op, url_of, websocket_url, wifi_ready,
};
use vstd::prelude::*;

verus! {

broadcast use vstd::string::group_string_axioms;

/// What to do next.
#[derive(Debug)]
pub enum CloudAction {
    /// Wait this many milliseconds, then `resume`.
    AwaitWifi(u64),
    /// Wait this many milliseconds, then read what is stored; see `stored`.
    ReadCredentials(u64),
    /// Send a request to register; see `replied`.
    Register { code: String, name: String },
    /// Write to the storage; see `written`.
    Write(NvsOp),
    /// Open a client for what `opening` gives; see `opened`.
    Open { id: String, secret: String },
    /// Wait a little, then look at the client; see `looked`.
    Look,
    /// Send this text; see `pinged`.
    Ping(String),
    /// Close the client, then `resume`.
    Close,
}

/// The task's state: a registration that is being written down, and when the
/// client was last pinged.
#[derive(Debug)]
pub struct CloudTask {
    pub enrolment: Option<Enrolment>,
    pub client: ClientTask,
}

/// The action that carries on a registration, or ends it.
pub open spec fn enrol_action(e: Enrolment, r: CloudAction) -> bool {
    match stage_op(e) {
        Some(op) => r matches CloudAction::Write(o) && o@ == op,
        None => if e.stage == EnrolStage::Registered {
            r == (CloudAction::Open { id: e.id, secret: e.secret })
        } else {
            r == CloudAction::ReadCredentials(5000)
        },
    }
}

/// What is known of the cloud connection after a step of a registration.
pub open spec fn enrol_status(e: Enrolment, c: CloudStatus) -> CloudStatus {
    match e.stage {
        EnrolStage::Registered => CloudStatus {
            registration: RegistrationStatus::Registered,
            connection: CloudConnectionStatus::Connecting,
            ..c
        },
        EnrolStage::Failed => CloudStatus { registration: RegistrationStatus::Failed(e.error), ..c },
        _ => c,
    }
}

/// What a client is opened with.
#[derive(Debug)]
pub struct Opening {
    pub url: String,
    pub headers: String,
}

impl CloudTask {
    pub fn new() -> (r: Self)
        ensures
            r.enrolment is None,
            r.client.last_ping == 0,
    {
        CloudTask { enrolment: None, client: ClientTask::new(0) }
    }

    /// Starts, or starts over: nothing is done before there is Wi-Fi.
    pub fn resume(&self, g: &Global) -> (r: CloudAction)
        ensures
            r == if g.wifi_status.status is Connected {
                CloudAction::ReadCredentials(0)
            } else {
                CloudAction::AwaitWifi(200)
            },
    {
        if wifi_ready(g) {
            CloudAction::ReadCredentials(0)
        } else {
            CloudAction::AwaitWifi(200)
        }
    }

    /// Takes what is stored. Returns writes to carry out first, whose failures
    /// do not matter.
    pub fn stored(
        &mut self,
        cloud: &mut CloudStatus,
        code: Result<Option<String>, String>,
        id: Result<Option<String>, String>,
        secret: Result<Option<String>, String>,
        name: Result<Option<String>, String>,
    ) -> (r: (Vec<NvsOp>, CloudAction))
        ensures
            ({
                let plan = credentials_of(code, id, secret, name);
                &&& *final(self) == *old(self)
                &&& *final(cloud) == planned(*old(cloud), plan)
                &&& op_models(r.0@) == plan_ops(plan)
                &&& r.1 == match plan {
                    CredentialPlan::Use { id, secret, .. } => CloudAction::Open { id, secret },
                    CredentialPlan::Register { code, name } => CloudAction::Register { code, name },
                    CredentialPlan::Failed(_) => CloudAction::ReadCredentials(5000),
                    _ => CloudAction::ReadCredentials(2000),
                }
            }),
            r.1 is Open ==> final(cloud).registration == RegistrationStatus::Registered,
    {
        let plan: CredentialPlan = plan_credentials(code, id, secret, name);
        let ops: Vec<NvsOp> = plan.ops();
        cloud.follow(&plan);
        let action: CloudAction = match plan {
            CredentialPlan::Use { id, secret, .. } => CloudAction::Open { id, secret },
            CredentialPlan::Register { code, name } => CloudAction::Register { code, name },
            CredentialPlan::Failed(_) => CloudAction::ReadCredentials(5000),
            _ => CloudAction::ReadCredentials(2000),
        };
        (ops, action)
    }

    /// Takes the outcome of a request to register.
    pub fn replied(&mut self, outcome: Result<(String, String), String>) -> (r: CloudAction)
        ensures
            final(self).client == old(self).client,
            final(self).enrolment matches Some(e) && enrol_action(e, r) && match outcome {
                Ok((id, secret)) => e.stage == EnrolStage::StoreId && e.id == id && e.secret
                    == secret,
                Err(error) => e.stage == EnrolStage::MarkRejected && e.error == error,
            },
    {
        let e: Enrolment = Enrolment::new(outcome);
        let op: Option<NvsOp> = e.op();
        self.enrolment = Some(e);
        match op {
            Some(o) => CloudAction::Write(o),
            None => CloudAction::ReadCredentials(5000),
        }
    }

    /// Takes the outcome of a write of a registration.
    pub fn written(&mut self, cloud: &mut CloudStatus, outcome: Result<(), String>) -> (r:
        CloudAction)
        requires
            old(self).enrolment is Some,
        ensures
            final(self).client == old(self).client,
            ({
                let e = enrol_after(old(self).enrolment->0, outcome);
                &&& enrol_action(e, r)
                &&& *final(cloud) == enrol_status(e, *old(cloud))
                &&& final(self).enrolment == if stage_op(e) is Some {
                    Some(e)
                } else {
                    None
                }
            }),
            r is Open ==> final(cloud).registration == RegistrationStatus::Registered,
    {
        match self.enrolment.take() {
            Some(e) => {
                let mut e: Enrolment = e;
                e.written(outcome);
                match e.op() {
                    Some(o) => {
                        self.enrolment = Some(e);
                        CloudAction::Write(o)
                    },
                    None => {
                        match e.result() {
                            Ok((id, secret)) => {
                                cloud.registered();
                                CloudAction::Open { id, secret }
                            },
                            Err(error) => {
                                cloud.registration = RegistrationStatus::Failed(error);
                                CloudAction::ReadCredentials(5000)
                            },
                        }
                    },
                }
            },
            None => CloudAction::ReadCredentials(5000),
        }
    }

    /// Takes that the storage cannot be opened, so that the device cannot register.
    pub fn no_storage(&self, cloud: &mut CloudStatus, error: String)
        ensures
            *final(cloud) == (CloudStatus {
                registration: RegistrationStatus::Failed(error),
                ..*old(cloud)
            }),
    {
        cloud.registration = RegistrationStatus::Failed(error);
    }

    /// What to open a client with: the host that is stored now, and the
    /// device's id and secret. That host is the one that is reported.
    pub fn opening(
        &self,
        cloud: &mut CloudStatus,
        stored_host: Option<&str>,
        id: &str,
        secret: &str,
    ) -> (r: Opening)
        ensures
            final(cloud).host matches Some(h) && h@ == host_of(stored_host) && *final(cloud) == (
            CloudStatus { host: Some(h), ..*old(cloud) }),
            r.url@ == url_of(host_of(stored_host)),
            r.headers@ == headers_of(id@, secret@),
    {
        let host: String = read_cloud_host(stored_host);
        let url: String = websocket_url(host.as_str());
        cloud.host = Some(host);
        Opening { url, headers: device_headers(id, secret) }
    }

    /// Takes whether a client could be opened, at tick `now`.
    pub fn opened(&mut self, cloud: &mut CloudStatus, ok: bool, now: u64) -> (r: CloudAction)
        ensures
            final(self).enrolment == old(self).enrolment,
            if ok {
                &&& r == CloudAction::Look
                &&& final(self).client.last_ping == now
                &&& *final(cloud) == *old(cloud)
            } else {
                &&& r == CloudAction::AwaitWifi(5000)
                &&& final(self).client == old(self).client
                &&& *final(cloud) == (CloudStatus {
                    connection: CloudConnectionStatus::Disconnected,
                    ..*old(cloud)
                })
            },
    {
        if ok {
            self.client = ClientTask::new(now);
            CloudAction::Look
        } else {
            dropped(cloud);
            CloudAction::AwaitWifi(5000)
        }
    }

    /// Takes a look at the client at tick `now`: whether it is connected,
    /// `None` where it was closed elsewhere.
    pub fn looked(&mut self, g: &mut Global, connected: Option<bool>, now: u64) -> (r: CloudAction)
        requires
            old(self).client.last_ping <= now,
        ensures
            final(self).enrolment == old(self).enrolment,
            final(self).client.last_ping <= now,
            match connected {
                None => {
                    &&& r == CloudAction::AwaitWifi(0)
                    &&& final(self).client == old(self).client
                    &&& *final(g) == (Global {
                        cloud_status: CloudStatus {
                            connection: CloudConnectionStatus::Disconnected,
                            ..old(g).cloud_status
                        },
                        ..*old(g)
                    })
                },
                Some(up) => if up && now - old(self).client.last_ping >= PING_INTERVAL {
                    &&& r matches CloudAction::Ping(text) && text@ == ping_of(now)
                    &&& final(self).client.last_ping == now
                    &&& *final(g) == *old(g)
                } else {
                    &&& r == if old(g).reregister {
                        CloudAction::Close
                    } else {
                        CloudAction::Look
                    }
                    &&& final(self).client == old(self).client
                    &&& *final(g) == settled(*old(g), up)
                },
            },
    {
        match self.client.poll(connected, now, &mut g.cloud_status) {
            ClientStep::Gone => CloudAction::AwaitWifi(0),
            ClientStep::Ping(text) => CloudAction::Ping(text),
            ClientStep::Settle => {
                let up: bool = match connected {
                    Some(up) => up,
                    None => false,
                };
                if settle(g, up) {
                    CloudAction::Close
                } else {
                    CloudAction::Look
                }
            },
        }
    }

    /// Takes whether a ping could be sent. A client that cannot send is
    /// closed, whatever it says of itself.
    pub fn pinged(&mut self, g: &mut Global, ok: bool) -> (r: CloudAction)
        ensures
            *final(self) == *old(self),
            if ok {
                &&& r == if old(g).reregister {
                    CloudAction::Close
                } else {
                    CloudAction::Look
                }
                &&& *final(g) == settled(*old(g), true)
            } else {
                &&& r == CloudAction::Close
                &&& *final(g) == (Global {
                    cloud_status: CloudStatus {
                        connection: CloudConnectionStatus::Disconnected,
                        ..old(g).cloud_status
                    },
                    ..*old(g)
                })
            },
    {
        if !ok {
            dropped(&mut g.cloud_status);
            CloudAction::Close
        } else if settle(g, true) {
            CloudAction::Close
        } else {
            CloudAction::Look
        }
    }
}

// ---------------------------------------------------------------------------
// Laws
// ---------------------------------------------------------------------------

/// A registration opens a client exactly where it succeeded, with the id and
/// the secret that it gave; where it failed, what is stored is read again
/// after five seconds; until then it writes.
pub proof fn lemma_enrolment_leads_to(e: Enrolment, r: CloudAction)
    requires
        enrol_action(e, r),
    ensures
        r is Open <==> e.stage is Registered,
        r matches CloudAction::Open { id, secret } ==> id == e.id && secret == e.secret,
        r is ReadCredentials <==> e.stage is Failed,
        r matches CloudAction::ReadCredentials(ms) ==> ms == 5000,
        r is Write <==> e.stage is StoreId || e.stage is StoreSecret || e.stage is RemoveCode
            || e.stage is MarkRejected,
{
}

/// A registration that succeeded starts to connect; one that failed shows its
/// error and leaves the connection; until then nothing changes.
pub proof fn lemma_enrolment_status(e: Enrolment, c: CloudStatus)
    ensures
        ({
            let after = enrol_status(e, c);
            &&& e.stage is Registered ==> after.registration is Registered
            &&& e.stage is Registered ==> after.connection is Connecting
            &&& e.stage is Failed ==> (after.registration matches RegistrationStatus::Failed(why)
                && why == e.error)
            &&& !(e.stage is Registered) ==> after.connection == c.connection
            &&& !(e.stage is Registered) && !(e.stage is Failed) ==> after == c
            &&& after.host == c.host
            &&& after.device_name == c.device_name
        }),
{
}

} // verus!
