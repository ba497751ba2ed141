//! The regular report, and the end of the phase in which a new firmware can
//! be rolled back.
use crate::clock::TICKS_PER_SEC;
use crate::global::{
    CloudStatus, Ipv4Addr, OledStatus, SysStatus, WifiStatus, cloud_line, ip_or, ip_text, oled_line,
    push_ip, push_text_or, text_or, wifi_line,
};
use crate::text::{decimal, push_number, push_signed, same, signed_decimal};
use vstd::prelude::*;

verus! {

broadcast use vstd::string::group_string_axioms;

/// How many clock ticks a new firmware has to run before it counts as working.
pub const ROLLBACK_PHASE: u64 = 60 * TICKS_PER_SEC;

/// The OTA slot that a partition's label names.
pub open spec fn slot_of(label: Seq<char>) -> Option<u8> {
    if label == "ota_0"@ {
        Some(0)
    } else if label == "ota_1"@ {
        Some(1)
    } else {
        None
    }
}

impl SysStatus {
    /// Takes what is known of the running slot: its label, and whether its
    /// image is unverified.
    pub fn running_slot(&mut self, label: &str, unverified: bool)
        ensures
            *final(self) == (SysStatus {
                ota_slot: slot_of(label@),
                rollback_pending: unverified,
                ..*old(self)
            }),
    {
        self.ota_slot = if same(label, "ota_0") {
            Some(0)
        } else if same(label, "ota_1") {
            Some(1)
        } else {
            None
        };
        self.rollback_pending = unverified;
    }

    /// Whether the running slot is to be marked valid at tick `now`, counted
    /// from the start of the device.
    pub fn rollback_over(&self, now: u64) -> (r: bool)
        ensures
            r == (self.rollback_pending && now >= ROLLBACK_PHASE),
            r == (self.rollback_pending && now >= 60_000_000),
    {
        self.rollback_pending && now >= ROLLBACK_PHASE
    }

    /// Takes the outcome of marking the running slot valid; a failed one is
    /// tried again.
    pub fn marked_valid(&mut self, ok: bool)
        ensures
            *final(self) == (SysStatus {
                rollback_pending: old(self).rollback_pending && !ok,
                ..*old(self)
            }),
    {
        if ok {
            self.rollback_pending = false;
        }
    }
}

/// The signal strength with its unit, or a dash.
pub open spec fn rssi_text(rssi: Option<i32>) -> Seq<char> {
    match rssi {
        Some(n) => signed_decimal(n as int) + "dBm"@,
        None => "-"@,
    }
}

/// The line that reports Wi-Fi in full.
pub open spec fn wifi_report(s: WifiStatus) -> Seq<char> {
    wifi_line(s) + " | ssid="@ + text_or(s.ssid, "-"@) + " ip="@ + ip_or(s.ip, "-"@) + " mask="@
        + ip_or(s.subnet_mask, "-"@) + " gateway="@ + ip_or(s.gateway, "-"@) + " rssi="@
        + rssi_text(s.rssi)
}

/// The line that reports the cloud connection and the display in full.
pub open spec fn cloud_report(c: CloudStatus, o: OledStatus) -> Seq<char> {
    cloud_line(c) + " | host="@ + text_or(c.host, "-"@) + " device="@ + text_or(
        c.device_name,
        "-"@,
    ) + " | "@ + oled_line(o) + " errors="@ + decimal(o.errors as nat) + " reinits="@ + decimal(
        o.reinits as nat,
    )
}

/// The line that reports Wi-Fi in full.
pub fn log_wifi(s: &WifiStatus) -> (r: String)
    ensures
        r@ == wifi_report(*s),
{
    let mut out: String = s.to_string();
    out.append(" | ssid=");
    push_text_or(&mut out, &s.ssid, "-");
    out.append(" ip=");
    push_ip(&mut out, s.ip, "-");
    out.append(" mask=");
    push_ip(&mut out, s.subnet_mask, "-");
    out.append(" gateway=");
    push_ip(&mut out, s.gateway, "-");
    out.append(" rssi=");
    match s.rssi {
        Some(n) => {
            push_signed(&mut out, n as i64);
            out.append("dBm");
        },
        None => out.append("-"),
    }
    proof {
        assert(out@ =~= wifi_report(*s));
    }
    out
}

/// The line that reports the cloud connection and the display in full.
pub fn log_cloud(c: &CloudStatus, o: &OledStatus) -> (r: String)
    ensures
        r@ == cloud_report(*c, *o),
{
    let mut out: String = c.to_string();
    out.append(" | host=");
    push_text_or(&mut out, &c.host, "-");
    out.append(" device=");
    push_text_or(&mut out, &c.device_name, "-");
    out.append(" | ");
    out.append(o.to_string().as_str());
    out.append(" errors=");
    push_number(&mut out, o.errors as u64);
    out.append(" reinits=");
    push_number(&mut out, o.reinits as u64);
    proof {
        assert(out@ =~= cloud_report(*c, *o));
    }
    out
}

// ---------------------------------------------------------------------------
// Laws
// ---------------------------------------------------------------------------

/// There are two slots, and each is named by its number.
pub proof fn lemma_slot_label(label: Seq<char>)
    ensures
        slot_of(label) matches Some(n) ==> n < 2 && label == "ota_"@ + decimal(n as nat),
        forall|n: nat| n < 2 && label == "ota_"@ + #[trigger] decimal(n) ==> slot_of(label) == Some(
            n as u8,
        ),
{
    reveal_strlit("ota_");
    reveal_strlit("ota_0");
    reveal_strlit("ota_1");
    assert(decimal(0) =~= seq!['0']);
    assert(decimal(1) =~= seq!['1']);
    assert("ota_0"@ =~= "ota_"@ + decimal(0));
    assert("ota_1"@ =~= "ota_"@ + decimal(1));
    assert("ota_0"@[4] != "ota_1"@[4]);
    assert forall|n: nat| n < 2 && label == "ota_"@ + #[trigger] decimal(n) implies slot_of(label)
        == Some(n as u8) by {
        assert(n == 0 || n == 1);
    }
}

/// What is not known is a dash in its place; what is known is shown as it is.
pub proof fn lemma_report_dashes(text: Option<String>, ip: Option<Ipv4Addr>, rssi: Option<i32>)
    ensures
        text matches Some(s) ==> text_or(text, "-"@) == s@,
        ip matches Some(a) ==> ip_or(ip, "-"@) == ip_text(a),
        rssi matches Some(n) ==> rssi_text(rssi) == signed_decimal(n as int) + seq!['d', 'B', 'm'],
        text is None ==> text_or(text, "-"@) == seq!['-'],
        ip is None ==> ip_or(ip, "-"@) == seq!['-'],
        rssi is None ==> rssi_text(rssi) == seq!['-'],
{
    reveal_strlit("-");
    reveal_strlit("dBm");
    assert("-"@ =~= seq!['-']);
    assert("dBm"@ =~= seq!['d', 'B', 'm']);
}

/// The report of Wi-Fi starts with its line, and shows each value behind its
/// own name.
pub proof fn lemma_wifi_report_shows(s: WifiStatus)
    ensures
        ({
            let ssid = match s.ssid {
                Some(t) => t@,
                None => "-"@,
            };
            let ip = ip_or(s.ip, "-"@);
            let mask = ip_or(s.subnet_mask, "-"@);
            let gateway = ip_or(s.gateway, "-"@);
            let front = wifi_line(s) + " | ssid="@ + ssid + " ip="@ + ip;
            let back = " gateway="@ + gateway + " rssi="@ + rssi_text(s.rssi);
            wifi_report(s) == front + (" mask="@ + mask) + back
        }),
{
    let ssid = match s.ssid {
        Some(t) => t@,
        None => "-"@,
    };
    let front = wifi_line(s) + " | ssid="@ + ssid + " ip="@ + ip_or(s.ip, "-"@);
    let back = " gateway="@ + ip_or(s.gateway, "-"@) + " rssi="@ + rssi_text(s.rssi);
    assert(wifi_report(s) =~= front + (" mask="@ + ip_or(s.subnet_mask, "-"@)) + back);
}

/// The report of the cloud connection starts with its line and shows the host
/// and the name; that of the display follows, with how often it failed.
pub proof fn lemma_cloud_report_shows(c: CloudStatus, o: OledStatus)
    ensures
        ({
            let host = match c.host {
                Some(t) => t@,
                None => "-"@,
            };
            let name = match c.device_name {
                Some(t) => t@,
                None => "-"@,
            };
            let front = cloud_line(c) + (" | host="@ + host) + (" device="@ + name);
            let back = oled_line(o) + (" errors="@ + decimal(o.errors as nat)) + (" reinits="@
                + decimal(o.reinits as nat));
            cloud_report(c, o) == front + " | "@ + back
        }),
{
    let host = match c.host {
        Some(t) => t@,
        None => "-"@,
    };
    let name = match c.device_name {
        Some(t) => t@,
        None => "-"@,
    };
    let front = cloud_line(c) + (" | host="@ + host) + (" device="@ + name);
    let back = oled_line(o) + (" errors="@ + decimal(o.errors as nat)) + (" reinits="@ + decimal(
        o.reinits as nat,
    ));
    assert(cloud_report(c, o) =~= front + " | "@ + back);
}

} // verus!
