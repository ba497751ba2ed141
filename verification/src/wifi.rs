//! What the task that keeps the Wi-Fi link up decides.
use crate::global::{Global, Ipv4Addr, WifiConnectionStatus, WifiStatus};
use vstd::prelude::*;

verus! {

broadcast use vstd::string::group_string_axioms;

pub const NVS_NAMESPACE: &'static str = "wifi";

pub const NVS_KEY_SSID: &'static str = "ssid";

pub const NVS_KEY_PASS: &'static str = "pass";

/// How many attempts to connect to the configured network have succeeded.
pub const NVS_KEY_CONNECT_SUCCESS_COUNT: &'static str = "conn_ok";

/// How many of them have failed.
pub const NVS_KEY_CONNECT_FAIL_COUNT: &'static str = "conn_fail";

/// The network to connect to, once both its name and its password are stored.
/// There is no built-in one.
pub fn read_wifi_config(ssid: Option<&str>, pass: Option<&str>) -> (r: Option<(String, String)>)
    ensures
        r is Some <==> ssid is Some && pass is Some,
        r matches Some((s, p)) ==> s@ == ssid->0@ && p@ == pass->0@,
{
    match (ssid, pass) {
        (Some(s), Some(p)) => Some((s.to_owned(), p.to_owned())),
        _ => None,
    }
}

/// The counter that an attempt counts in.
pub fn counter_key(connected: bool) -> (r: &'static str)
    ensures
        r@ == if connected {
            NVS_KEY_CONNECT_SUCCESS_COUNT@
        } else {
            NVS_KEY_CONNECT_FAIL_COUNT@
        },
{
    if connected {
        NVS_KEY_CONNECT_SUCCESS_COUNT
    } else {
        NVS_KEY_CONNECT_FAIL_COUNT
    }
}

/// The next value of a counter: one more than what is stored, which counts as
/// 0 where there is nothing, and never past the largest value.
pub fn increment_counter(stored: Option<u32>) -> (r: u32)
    ensures
        ({
            let n = match stored {
                Some(n) => n as int,
                None => 0,
            };
            r == if n < u32::MAX {
                n + 1
            } else {
                n
            }
        }),
{
    let n: u32 = match stored {
        Some(n) => n,
        None => 0,
    };
    if n < u32::MAX {
        n + 1
    } else {
        n
    }
}

/// What the network told a station that joined it.
#[derive(Clone, Copy, PartialEq, Eq, Debug, Structural)]
pub struct Lease {
    pub ip: Ipv4Addr,
    pub subnet_mask: Ipv4Addr,
    pub gateway: Ipv4Addr,
}

/// A link that has this state and the network's name, and no addresses.
pub open spec fn offline(ssid: Option<String>, status: WifiConnectionStatus) -> WifiStatus {
    WifiStatus { status, ssid, ip: None, subnet_mask: None, gateway: None, rssi: None }
}

impl WifiStatus {
    /// Forgets what is known only while connected.
    fn leave(&mut self, status: WifiConnectionStatus)
        ensures
            *final(self) == offline(old(self).ssid, status),
    {
        self.status = status;
        self.ip = None;
        self.subnet_mask = None;
        self.gateway = None;
        self.rssi = None;
    }

    /// The attempt succeeded.
    fn connected(&mut self, lease: Lease)
        ensures
            *final(self) == (WifiStatus {
                status: WifiConnectionStatus::Connected,
                ip: Some(lease.ip),
                subnet_mask: Some(lease.subnet_mask),
                gateway: Some(lease.gateway),
                ..*old(self)
            }),
            final(self).wf(),
    {
        self.status = WifiConnectionStatus::Connected;
        self.ip = Some(lease.ip);
        self.subnet_mask = Some(lease.subnet_mask);
        self.gateway = Some(lease.gateway);
    }

    /// The attempt failed.
    fn failed(&mut self, error: String)
        ensures
            *final(self) == offline(old(self).ssid, WifiConnectionStatus::Failed(error)),
            final(self).wf(),
    {
        self.leave(WifiConnectionStatus::Failed(error));
    }
}

/// What a look at the link showed.
#[derive(Clone, Copy, PartialEq, Eq, Debug, Structural)]
pub enum Link {
    /// It is up, with this signal strength where it could be read.
    Up(Option<i32>),
    Down,
    /// It could not be looked at.
    Unknown,
}

/// What to do next.
#[derive(Clone, Copy, PartialEq, Eq, Debug, Structural)]
pub enum LinkStep {
    /// Look again in a second.
    Stay,
    /// Other settings were stored: set both counters to 0, disconnect, and
    /// start over.
    Reconnect,
    /// The link is gone: start over.
    Lost,
}

/// What a look at a link leads to. A request to reconnect is taken before the
/// link is considered.
pub open spec fn link_step(reconnect: bool, link: Link) -> LinkStep {
    if reconnect {
        LinkStep::Reconnect
    } else if link == Link::Down {
        LinkStep::Lost
    } else {
        LinkStep::Stay
    }
}

/// What is known of a link after a look at it.
pub open spec fn link_after(s: WifiStatus, step: LinkStep, link: Link) -> WifiStatus {
    match (step, link) {
        (LinkStep::Stay, Link::Up(Some(rssi))) => WifiStatus { rssi: Some(rssi), ..s },
        (LinkStep::Stay, _) => s,
        _ => offline(s.ssid, WifiConnectionStatus::Connecting),
    }
}

/// One look at a link that was up.
pub fn poll_link(g: &mut Global, link: Link) -> (r: LinkStep)
    requires
        old(g).wifi_status.status is Connected,
    ensures
        r == link_step(old(g).wifi_reconnect, link),
        *final(g) == (Global {
            wifi_reconnect: false,
            wifi_status: link_after(old(g).wifi_status, r, link),
            ..*old(g)
        }),
        final(g).wifi_status.wf(),
        old(g).wf() ==> final(g).wf(),
{
    if g.wifi_reconnect {
        g.wifi_reconnect = false;
        g.wifi_status.leave(WifiConnectionStatus::Connecting);
        return LinkStep::Reconnect;
    }
    match link {
        Link::Up(Some(rssi)) => {
            g.wifi_status.rssi = Some(rssi);
            LinkStep::Stay
        },
        Link::Down => {
            g.wifi_status.leave(WifiConnectionStatus::Connecting);
            LinkStep::Lost
        },
        _ => LinkStep::Stay,
    }
}

// ---------------------------------------------------------------------------
// The task
// ---------------------------------------------------------------------------

/// What happened.
#[derive(Debug)]
pub enum WifiEvent {
    /// This network and password are stored, if any; see `read_wifi_config`.
    Stored(Option<(String, String)>),
    /// The network was joined.
    Joined(Lease),
    /// The network could not be joined.
    NotJoined(String),
    /// The link was looked at.
    Looked(Link),
}

/// What to do next.
#[derive(Debug)]
pub enum WifiAction {
    /// Wait this many seconds, then read what is stored.
    ReadConfig(u64),
    /// Join a network.
    Join { ssid: String, pass: String },
    /// Wait this many seconds, then look at the link.
    Look(u64),
}

/// What to do after an event: what to count, whether to set both counters to 0
/// and disconnect, and then the next action.
#[derive(Debug)]
pub struct WifiStep {
    pub count: Option<&'static str>,
    pub reset: bool,
    pub next: WifiAction,
}

/// What is known of the link after an event.
pub open spec fn status_after(s: WifiStatus, reconnect: bool, event: WifiEvent) -> WifiStatus {
    match event {
        WifiEvent::Stored(Some((ssid, pass))) => offline(
            Some(ssid),
            WifiConnectionStatus::Connecting,
        ),
        WifiEvent::Stored(None) => offline(s.ssid, WifiConnectionStatus::WaitingForConfiguration),
        WifiEvent::Joined(lease) => WifiStatus {
            status: WifiConnectionStatus::Connected,
            ip: Some(lease.ip),
            subnet_mask: Some(lease.subnet_mask),
            gateway: Some(lease.gateway),
            ..s
        },
        WifiEvent::NotJoined(error) => offline(s.ssid, WifiConnectionStatus::Failed(error)),
        WifiEvent::Looked(link) => link_after(s, link_step(reconnect, link), link),
    }
}

/// What to do next after an event.
pub open spec fn action_after(reconnect: bool, event: WifiEvent) -> WifiAction {
    match event {
        WifiEvent::Stored(Some((ssid, pass))) => WifiAction::Join { ssid, pass },
        WifiEvent::Stored(None) => WifiAction::ReadConfig(2),
        WifiEvent::Joined(_) => WifiAction::Look(1),
        WifiEvent::NotJoined(_) => WifiAction::ReadConfig(5),
        WifiEvent::Looked(link) => if link_step(reconnect, link) == LinkStep::Stay {
            WifiAction::Look(1)
        } else {
            WifiAction::ReadConfig(0)
        },
    }
}

/// Takes an event. Whenever the link is gone the stored network is read again,
/// so that a new one takes effect.
pub fn wifi_step(g: &mut Global, event: WifiEvent) -> (r: WifiStep)
    requires
        event is Looked ==> old(g).wifi_status.status is Connected,
    ensures
        r.next == action_after(old(g).wifi_reconnect, event),
        r.reset == (event is Looked && old(g).wifi_reconnect),
        match r.count {
            Some(key) => {
                ||| event is Joined && key@ == NVS_KEY_CONNECT_SUCCESS_COUNT@
                ||| event is NotJoined && key@ == NVS_KEY_CONNECT_FAIL_COUNT@
            },
            None => event is Stored || event is Looked,
        },
        *final(g) == (Global {
            wifi_status: status_after(old(g).wifi_status, old(g).wifi_reconnect, event),
            wifi_reconnect: old(g).wifi_reconnect && !(event is Looked),
            ..*old(g)
        }),
        final(g).wifi_status.wf(),
        old(g).wf() ==> final(g).wf(),
{
    match event {
        WifiEvent::Stored(Some((ssid, pass))) => {
            g.wifi_status.ssid = Some(ssid.clone());
            g.wifi_status.leave(WifiConnectionStatus::Connecting);
            WifiStep { count: None, reset: false, next: WifiAction::Join { ssid, pass } }
        },
        WifiEvent::Stored(None) => {
            g.wifi_status.leave(WifiConnectionStatus::WaitingForConfiguration);
            WifiStep { count: None, reset: false, next: WifiAction::ReadConfig(2) }
        },
        WifiEvent::Joined(lease) => {
            g.wifi_status.connected(lease);
            WifiStep { count: Some(counter_key(true)), reset: false, next: WifiAction::Look(1) }
        },
        WifiEvent::NotJoined(error) => {
            g.wifi_status.failed(error);
            WifiStep {
                count: Some(counter_key(false)),
                reset: false,
                next: WifiAction::ReadConfig(5),
            }
        },
        WifiEvent::Looked(link) => match poll_link(g, link) {
            LinkStep::Stay => WifiStep { count: None, reset: false, next: WifiAction::Look(1) },
            LinkStep::Reconnect => WifiStep {
                count: None,
                reset: true,
                next: WifiAction::ReadConfig(0),
            },
            LinkStep::Lost => WifiStep {
                count: None,
                reset: false,
                next: WifiAction::ReadConfig(0),
            },
        },
    }
}

// ---------------------------------------------------------------------------
// Laws
// ---------------------------------------------------------------------------

/// A look at a link ends it exactly where other settings were stored, which
/// counts first, or the link is down. One that could not be looked at goes on.
pub proof fn lemma_link_goes_on(reconnect: bool, link: Link)
    ensures
        link_step(reconnect, link) == LinkStep::Reconnect <==> reconnect,
        link_step(reconnect, link) == LinkStep::Lost <==> !reconnect && link is Down,
        link_step(reconnect, link) == LinkStep::Stay <==> !reconnect && (link is Up || link
            is Unknown),
{
}

/// A link is connected only from when the network was joined until a look ends
/// it, and every event but a look says what its state is.
pub proof fn lemma_status_follows_event(s: WifiStatus, reconnect: bool, event: WifiEvent)
    ensures
        ({
            let after = status_after(s, reconnect, event);
            &&& event is Joined ==> after.status is Connected
            &&& event matches WifiEvent::Stored(Some(_)) ==> after.status is Connecting
            &&& event matches WifiEvent::Stored(None) ==> after.status is WaitingForConfiguration
            &&& event matches WifiEvent::NotJoined(e) ==> (after.status matches
                WifiConnectionStatus::Failed(why) && why == e)
            &&& event matches WifiEvent::Looked(link) ==> if reconnect || link is Down {
                after.status is Connecting
            } else {
                after.status == s.status
            }
        }),
{
}

/// The addresses are those of the last network that was joined, and are known
/// until the link is gone; so is the signal strength, of the last look that
/// could read it.
pub proof fn lemma_addresses_follow_link(s: WifiStatus, reconnect: bool, event: WifiEvent)
    ensures
        ({
            let after = status_after(s, reconnect, event);
            &&& event matches WifiEvent::Joined(l) ==> {
                &&& after.ip == Some(l.ip)
                &&& after.subnet_mask == Some(l.subnet_mask)
                &&& after.gateway == Some(l.gateway)
                &&& after.rssi == s.rssi
            }
            &&& !(after.status is Connected) && !(event is Looked) ==> {
                &&& after.ip is None
                &&& after.subnet_mask is None
                &&& after.gateway is None
                &&& after.rssi is None
            }
            &&& event matches WifiEvent::Looked(link) ==> if reconnect || link is Down {
                &&& after.ip is None
                &&& after.subnet_mask is None
                &&& after.gateway is None
                &&& after.rssi is None
            } else {
                &&& after.ip == s.ip
                &&& after.subnet_mask == s.subnet_mask
                &&& after.gateway == s.gateway
                &&& link matches Link::Up(Some(n)) ==> after.rssi == Some(n)
                &&& !(link matches Link::Up(Some(_))) ==> after.rssi == s.rssi
            }
        }),
{
}

/// The name of the network is the last one that was stored.
pub proof fn lemma_ssid_is_last_stored(s: WifiStatus, reconnect: bool, event: WifiEvent)
    ensures
        event matches WifiEvent::Stored(Some((ssid, pass))) ==> status_after(
            s,
            reconnect,
            event,
        ).ssid == Some(ssid),
        !(event matches WifiEvent::Stored(Some(_))) ==> status_after(s, reconnect, event).ssid
            == s.ssid,
{
}

/// A network is joined where one is stored, and looked at every second while
/// the link is up. What is stored is read again at once where the link is
/// gone, in two seconds where nothing is stored, in five where the network
/// could not be joined.
pub proof fn lemma_wifi_waits(reconnect: bool, event: WifiEvent)
    ensures
        ({
            let next = action_after(reconnect, event);
            &&& next is Join <==> (event matches WifiEvent::Stored(Some(_)))
            &&& event matches WifiEvent::Stored(Some((ssid, pass))) ==> next == (
            WifiAction::Join { ssid, pass })
            &&& next is Look <==> event is Joined || (event matches WifiEvent::Looked(link)
                && !reconnect && !(link is Down))
            &&& next matches WifiAction::Look(seconds) ==> seconds == 1
            &&& next matches WifiAction::ReadConfig(seconds) ==> {
                &&& event is Stored ==> seconds == 2
                &&& event is NotJoined ==> seconds == 5
                &&& event is Looked ==> seconds == 0
            }
        }),
{
}

} // verus!
