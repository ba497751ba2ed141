//! What the task that draws the framebuffer decides.
use crate::clock::TICKS_PER_SEC;
use crate::global::{
    CloudConnectionStatus, Global, WifiConnectionStatus, cloud_line, sys_line, wifi_line,
};
use vstd::prelude::*;

verus! {

broadcast use vstd::string::group_string_axioms;

/// How long Wi-Fi and cloud must have been connected without a break before
/// the report is no longer shown.
pub const HIDE_REPORT_AFTER: u64 = 5 * TICKS_PER_SEC;

// ---------------------------------------------------------------------------
// The report
// ---------------------------------------------------------------------------

/// Since when Wi-Fi and cloud have both been connected without a break.
#[derive(Clone, Copy, Debug)]
pub struct ReportTimer {
    pub connected_since: Option<u64>,
}

/// The timer's state after one observation.
pub open spec fn since_after(since: Option<u64>, now: u64, connected: bool) -> Option<u64> {
    if !connected {
        None
    } else if since is Some {
        since
    } else {
        Some(now)
    }
}

/// Whether the report is shown at tick `now`: until both connections have
/// lasted long enough, and while a rollback is possible.
pub open spec fn report_shown(since: Option<u64>, now: u64, rollback_pending: bool) -> bool {
    rollback_pending || match since {
        Some(t) => now - t < HIDE_REPORT_AFTER,
        None => true,
    }
}

/// Whether Wi-Fi and cloud are both connected.
pub open spec fn both_connected(g: Global) -> bool {
    g.wifi_status.status is Connected && g.cloud_status.connection is Connected
}

/// The three lines of the report.
pub open spec fn report_of(g: Global) -> Seq<char> {
    sys_line(g.sys_status) + "{br}"@ + wifi_line(g.wifi_status) + "{br}"@ + cloud_line(
        g.cloud_status,
    )
}

/// What is to be done before a frame is drawn.
pub struct FramePlan {
    /// Load the pkg again.
    pub reload: bool,
    /// The report to show over the page, if any.
    pub message: Option<String>,
}

impl ReportTimer {
    pub fn new() -> (r: Self)
        ensures
            r.connected_since is None,
    {
        ReportTimer { connected_since: None }
    }

    /// Follows the connection at tick `now`, and tells whether the report is
    /// to be shown: until both connections have lasted long enough, again as
    /// soon as one of them drops, and while a rollback is possible.
    pub fn observe(&mut self, now: u64, connected: bool, rollback_pending: bool) -> (r: bool)
        requires
            old(self).connected_since matches Some(since) ==> since <= now,
        ensures
            final(self).connected_since == since_after(
                old(self).connected_since,
                now,
                connected,
            ),
            final(self).connected_since matches Some(since) ==> since <= now,
            r == report_shown(
                since_after(old(self).connected_since, now, connected),
                now,
                rollback_pending,
            ),
    {
        if !connected {
            self.connected_since = None;
        } else if self.connected_since.is_none() {
            self.connected_since = Some(now);
        }
        rollback_pending || match self.connected_since {
            Some(since) => now - since < HIDE_REPORT_AFTER,
            None => true,
        }
    }

    /// What is to be done before the frame at tick `now`. A wanted reload is
    /// handed out once.
    pub fn frame(&mut self, g: &mut Global, now: u64) -> (r: FramePlan)
        requires
            old(self).connected_since matches Some(since) ==> since <= now,
        ensures
            final(self).connected_since == since_after(
                old(self).connected_since,
                now,
                both_connected(*old(g)),
            ),
            final(self).connected_since matches Some(since) ==> since <= now,
            r.reload == old(g).pkg_reload,
            *final(g) == (Global { pkg_reload: false, ..*old(g) }),
            r.message is Some <==> report_shown(
                since_after(old(self).connected_since, now, both_connected(*old(g))),
                now,
                old(g).sys_status.rollback_pending,
            ),
            r.message matches Some(m) ==> m@ == report_of(*old(g)),
            // A link or a cloud connection that is not up shows the report.
            !(old(g).wifi_status.status is Connected) || !(old(g).cloud_status.connection
                is Connected) ==> r.message is Some && final(self).connected_since is None,
            // It is hidden only after five seconds of both.
            r.message is None ==> {
                &&& old(g).wifi_status.status is Connected
                &&& old(g).cloud_status.connection is Connected
                &&& !old(g).sys_status.rollback_pending
                &&& old(self).connected_since matches Some(since) && now - since >= 5_000_000
            },
            // And from then on.
            old(g).wifi_status.status is Connected && old(g).cloud_status.connection is Connected
                && !old(g).sys_status.rollback_pending && (old(self).connected_since matches Some(
                since,
            ) && now - since >= 5_000_000) ==> r.message is None && final(self).connected_since
                == old(self).connected_since,
    {
        let reload: bool = g.pkg_reload;
        g.pkg_reload = false;
        let connected: bool = match (&g.wifi_status.status, g.cloud_status.connection) {
            (WifiConnectionStatus::Connected, CloudConnectionStatus::Connected) => true,
            _ => false,
        };
        let visible: bool = self.observe(now, connected, g.sys_status.rollback_pending);
        let message: Option<String> = if visible {
            Some(report(g))
        } else {
            None
        };
        FramePlan { reload, message }
    }
}

/// The report's text.
fn report(g: &Global) -> (r: String)
    ensures
        r@ == report_of(*g),
{
    let mut out: String = String::new();
    out.append(g.sys_status.to_string().as_str());
    out.append("{br}");
    out.append(g.wifi_status.to_string().as_str());
    out.append("{br}");
    out.append(g.cloud_status.to_string().as_str());
    proof {
        assert(out@ =~= report_of(*g));
    }
    out
}

/// Marks a new frame for every consumer.
pub fn mark_drawn(g: &mut Global)
    ensures
        final(g).display_buffer_dirty@ == seq![true, true],
        final(g).display_buffer == old(g).display_buffer,
        final(g).nodem_config == old(g).nodem_config,
        final(g).same_but_display(*old(g)),
{
    g.display_buffer_dirty = [true, true];
    proof {
        assert(g.display_buffer_dirty@ =~= seq![true, true]);
    }
}

// ---------------------------------------------------------------------------
// The pkg
// ---------------------------------------------------------------------------

/// The four bytes that a pkg starts with.
pub open spec fn pkg_magic() -> Seq<u8> {
    seq![0x50u8, 0x4bu8, 0x47u8, 0x30u8]
}

/// The number in four bytes.
pub open spec fn word_of(b: Seq<u8>, big_endian: bool) -> nat {
    if big_endian {
        (b[0] * 0x100_0000 + b[1] * 0x1_0000 + b[2] * 0x100 + b[3]) as nat
    } else {
        (b[3] * 0x100_0000 + b[2] * 0x1_0000 + b[1] * 0x100 + b[0]) as nat
    }
}

/// What a partition's header says.
#[derive(Clone, Copy, PartialEq, Eq, Debug, Structural)]
pub enum PkgHeader {
    /// There is no pkg.
    Missing,
    /// The pkg claims to be longer than the partition.
    TooLong(u32),
    /// There is a pkg of this many bytes, the header included.
    Found(u32),
}

/// What the first eight bytes of a partition say: the magic "PKG0", then the
/// pkg's length.
pub open spec fn header_of(header: Seq<u8>, big_endian: bool, partition_size: nat) -> PkgHeader {
    let len = word_of(header.skip(4), big_endian);
    if header.take(4) != pkg_magic() {
        PkgHeader::Missing
    } else if len > partition_size {
        PkgHeader::TooLong(len as u32)
    } else {
        PkgHeader::Found(len as u32)
    }
}

/// Reads the first eight bytes of a partition: the magic "PKG0", then the
/// pkg's length in the byte order of the machine.
pub fn check_pkg_header(header: &[u8; 8], big_endian: bool, partition_size: usize) -> (r: PkgHeader)
    ensures
        r == header_of(header@, big_endian, partition_size as nat),
{
    let magic: bool = header[0] == 0x50 && header[1] == 0x4b && header[2] == 0x47 && header[3]
        == 0x30;
    proof {
        let h = header@.take(4);
        if magic {
            assert(h =~= pkg_magic());
        } else if h == pkg_magic() {
            assert(h[0] == header@[0] && h[1] == header@[1] && h[2] == header@[2] && h[3]
                == header@[3]);
        }
    }
    if !magic {
        return PkgHeader::Missing;
    }
    let a: u32 = header[4] as u32;
    let b: u32 = header[5] as u32;
    let c: u32 = header[6] as u32;
    let d: u32 = header[7] as u32;
    let len: u32 = if big_endian {
        a * 0x100_0000 + b * 0x1_0000 + c * 0x100 + d
    } else {
        d * 0x100_0000 + c * 0x1_0000 + b * 0x100 + a
    };
    if len as u64 > partition_size as u64 {
        PkgHeader::TooLong(len)
    } else {
        PkgHeader::Found(len)
    }
}

/// What to do with the pkg that is loaded.
#[derive(Clone, Copy, PartialEq, Eq, Debug, Structural)]
pub enum PkgStep {
    /// Load the pkg in the partition, of this many bytes.
    Load(u32),
    /// Leave it as it is.
    Keep,
    /// Drop it: the partition holds none any more.
    Unload,
}

/// What a header asks for.
pub open spec fn step_of(header: PkgHeader) -> PkgStep {
    match header {
        PkgHeader::Found(len) => PkgStep::Load(len),
        PkgHeader::TooLong(_) => PkgStep::Keep,
        PkgHeader::Missing => PkgStep::Unload,
    }
}

/// What a header asks for. A pkg whose header was erased is dropped at once.
pub fn pkg_step(header: PkgHeader) -> (r: PkgStep)
    ensures
        r == step_of(header),
{
    match header {
        PkgHeader::Found(len) => PkgStep::Load(len),
        PkgHeader::TooLong(_) => PkgStep::Keep,
        PkgHeader::Missing => PkgStep::Unload,
    }
}

/// The command that brings back the page that was shown last, where a pkg was
/// loaded and a page is known.
pub fn restore_command(last_page: Option<&str>, loaded: bool) -> (r: Option<String>)
    ensures
        r is Some <==> last_page is Some && loaded,
        r matches Some(c) ==> c@ == "page="@ + last_page->0@ + "\n"@,
{
    match last_page {
        Some(page) if loaded => {
            let mut out: String = String::new();
            out.append("page=");
            out.append(page);
            out.append("\n");
            proof {
                assert(out@ =~= "page="@ + page@ + "\n"@);
            }
            Some(out)
        },
        _ => None,
    }
}

// ---------------------------------------------------------------------------
// Laws
// ---------------------------------------------------------------------------

/// The timer's state after a series of observations, each of a time and
/// whether both were connected.
pub open spec fn since_of(observed: Seq<(u64, bool)>) -> Option<u64>
    decreases observed.len(),
{
    if observed.len() == 0 {
        None
    } else {
        since_after(
            since_of(observed.drop_last()),
            observed.last().0,
            observed.last().1,
        )
    }
}

/// The timer holds the time of the first observation of the unbroken series
/// that the last one ends.
pub proof fn lemma_since_is_streak_start(observed: Seq<(u64, bool)>, k: int)
    requires
        0 <= k < observed.len(),
        k == 0 || !observed[k - 1].1,
        forall|i: int| k <= i < observed.len() ==> (#[trigger] observed[i]).1,
    ensures
        since_of(observed) == Some(observed[k].0),
    decreases observed.len(),
{
    let rest = observed.drop_last();
    if k == observed.len() - 1 {
        reveal_with_fuel(since_of, 2);
        if k > 0 {
            assert(rest.last() == observed[k - 1]);
            assert(since_of(rest) is None);
        }
    } else {
        assert forall|i: int| k <= i < rest.len() implies (#[trigger] rest[i]).1 by {
            assert(rest[i] == observed[i]);
        }
        lemma_since_is_streak_start(rest, k);
        assert(observed[observed.len() - 1].1);
    }
}

/// Erased flash, all of whose bits are set, holds no pkg: what was loaded from
/// it is dropped.
pub proof fn lemma_erased_is_unloaded(header: Seq<u8>, big_endian: bool, partition_size: nat)
    requires
        header.len() == 8,
        forall|i: int| 0 <= i < 8 ==> #[trigger] header[i] == 0xff,
    ensures
        step_of(header_of(header, big_endian, partition_size)) == PkgStep::Unload,
{
    assert(header.take(4)[0] == header[0]);
    assert(pkg_magic()[0] == 0x50);
}

/// A break in the connection brings the report back at once.
pub proof fn lemma_break_resets(observed: Seq<(u64, bool)>)
    requires
        observed.len() > 0,
        !observed.last().1,
    ensures
        since_of(observed) is None,
{
}

/// The length in a header is the 32-bit number that its last four bytes make
/// up: byte `k` of the number is the header's byte at `4 + k`, or at `7 - k` on
/// a machine that stores the most significant byte first. All four count.
pub proof fn lemma_header_length(header: Seq<u8>, big_endian: bool, partition_size: nat)
    requires
        header.len() == 8,
        header[0] == 0x50 && header[1] == 0x4b && header[2] == 0x47 && header[3] == 0x30,
    ensures
        ({
            let len = match header_of(header, big_endian, partition_size) {
                PkgHeader::Found(len) => len as int,
                PkgHeader::TooLong(len) => len as int,
                PkgHeader::Missing => -1,
            };
            let low_first = if big_endian {
                seq![header[7], header[6], header[5], header[4]]
            } else {
                seq![header[4], header[5], header[6], header[7]]
            };
            &&& len % 256 == low_first[0]
            &&& len / 256 % 256 == low_first[1]
            &&& len / 65536 % 256 == low_first[2]
            &&& len / 16777216 == low_first[3]
            &&& header_of(header, big_endian, partition_size) is Found <==> 0 <= len
                <= partition_size
            &&& header_of(header, big_endian, partition_size) is TooLong <==> len > partition_size
        }),
{
    assert(header.take(4) =~= pkg_magic());
    let b = header.skip(4);
    assert(b[0] == header[4] && b[1] == header[5] && b[2] == header[6] && b[3] == header[7]);
    if big_endian {
        lemma_bytes_of_word(header[7], header[6], header[5], header[4]);
    } else {
        lemma_bytes_of_word(header[4], header[5], header[6], header[7]);
    }
}

/// Four bytes make up a number of 32 bits, and the number gives them back.
proof fn lemma_bytes_of_word(b0: u8, b1: u8, b2: u8, b3: u8)
    ensures
        ({
            let n = b3 * 0x100_0000 + b2 * 0x1_0000 + b1 * 0x100 + b0;
            &&& 0 <= n <= u32::MAX
            &&& n % 256 == b0
            &&& n / 256 % 256 == b1
            &&& n / 65536 % 256 == b2
            &&& n / 16777216 == b3
        }),
{
    let n = b3 * 0x100_0000 + b2 * 0x1_0000 + b1 * 0x100 + b0;
    let q1 = b3 * 0x1_0000 + b2 * 0x100 + b1;
    let q2 = b3 * 0x100 + b2;
    assert(n == 256 * q1 + b0);
    assert(n / 256 == q1);
    assert(q1 == 256 * q2 + b1);
    assert(n == 65536 * q2 + (256 * b1 + b0));
    assert(n / 65536 == q2);
    assert(n == 16777216 * b3 + (65536 * b2 + 256 * b1 + b0));
}

/// Anything but "PKG0" at the start is no pkg.
pub proof fn lemma_header_magic(header: Seq<u8>, big_endian: bool, partition_size: nat, i: int)
    requires
        header.len() == 8,
        0 <= i < 4,
        header[i] != seq![0x50u8, 0x4bu8, 0x47u8, 0x30u8][i],
    ensures
        header_of(header, big_endian, partition_size) == PkgHeader::Missing,
{
    assert(header.take(4)[i] == header[i]);
}

/// The report is hidden only after five seconds, counted in millionths, of an
/// unbroken connection, and never while a rollback is possible.
pub proof fn lemma_report_hidden(since: Option<u64>, now: u64, rollback_pending: bool)
    ensures
        !report_shown(since, now, rollback_pending) <==> !rollback_pending && since is Some && now
            - since->0 >= 5_000_000,
{
}

/// A link that is not up, whatever it is instead, ends the streak and brings
/// the report back at once; so does a cloud connection that is not up.
pub proof fn lemma_drop_shows_report(since: Option<u64>, now: u64, g: Global)
    requires
        !(g.wifi_status.status is Connected) || !(g.cloud_status.connection is Connected),
    ensures
        since_after(since, now, both_connected(g)) is None,
        report_shown(
            since_after(since, now, both_connected(g)),
            now,
            g.sys_status.rollback_pending,
        ),
{
}

/// While both are up, a streak that goes on keeps its start, and a new one
/// starts now.
pub proof fn lemma_streak_goes_on(since: Option<u64>, now: u64, g: Global)
    requires
        g.wifi_status.status is Connected,
        g.cloud_status.connection is Connected,
    ensures
        since is Some ==> since_after(since, now, both_connected(g)) == since,
        since is None ==> since_after(since, now, both_connected(g)) == Some(now),
{
}

/// A pkg is loaded exactly where the header is one and the partition holds all
/// of it; what is loaded is dropped exactly where there is no header.
pub proof fn lemma_pkg_steps(header: Seq<u8>, big_endian: bool, partition_size: nat)
    requires
        header.len() == 8,
    ensures
        ({
            let step = step_of(header_of(header, big_endian, partition_size));
            let magic = header.take(4) == seq![0x50u8, 0x4bu8, 0x47u8, 0x30u8];
            let len = word_of(header.skip(4), big_endian);
            &&& step is Load <==> magic && len <= partition_size
            &&& step matches PkgStep::Load(n) ==> n == len
            &&& step is Keep <==> magic && len > partition_size
            &&& step is Unload <==> !magic
        }),
{
    let b = header.skip(4);
    assert(word_of(b, big_endian) <= u32::MAX);
}

/// The report's first line is that of the firmware, the last that of the cloud
/// connection, and the one between them that of Wi-Fi.
pub proof fn lemma_report_lines(g: Global)
    ensures
        ({
            let r = report_of(g);
            let sys = sys_line(g.sys_status);
            let wifi = wifi_line(g.wifi_status);
            let cloud = cloud_line(g.cloud_status);
            let n = sys.len() as int;
            let m = n + 4 + wifi.len();
            &&& r.take(n) == sys
            &&& r.subrange(n, n + 4) == seq!['{', 'b', 'r', '}']
            &&& r.subrange(n + 4, m) == wifi
            &&& r.subrange(m, m + 4) == seq!['{', 'b', 'r', '}']
            &&& r.skip(m + 4) == cloud
        }),
{
    reveal_strlit("{br}");
    let r = report_of(g);
    let sys = sys_line(g.sys_status);
    let wifi = wifi_line(g.wifi_status);
    let n = sys.len() as int;
    let m = n + 4 + wifi.len();
    assert(r.take(n) =~= sys);
    assert(r.subrange(n, n + 4) =~= seq!['{', 'b', 'r', '}']);
    assert(r.subrange(n + 4, m) =~= wifi);
    assert(r.subrange(m, m + 4) =~= seq!['{', 'b', 'r', '}']);
    assert(r.skip(m + 4) =~= cloud_line(g.cloud_status));
}

} // verus!
