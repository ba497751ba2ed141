//! What the task that drives the display decides and shows.
use crate::driver::DriverView;
use crate::frame::bit;
use crate::global::{Global, OledConnectionStatus, OledStatus};
use crate::oled::{OledConfig, OledStartup};
use vstd::prelude::*;

verus! {

broadcast use vstd::string::group_string_axioms;

/// How often one frame is tried before the display is initialized again.
pub const MAX_ATTEMPTS: u32 = 3;

// ---------------------------------------------------------------------------
// Pages
// ---------------------------------------------------------------------------

/// Whether `b` holds the eight pixels of column `col` in page `row`, the
/// topmost in its least significant bit.
pub open spec fn column_of<'a>(view: DriverView<'a>, row: int, col: int, b: u8) -> bool {
    forall|k: u8| k < 8 ==> #[trigger] bit(b, k) == view.lit(col, row * 8 + k)
}

/// The bytes of one page: eight rows of pixels, a byte for each column.
pub fn page<'a>(view: &DriverView<'a>, row: usize) -> (r: Vec<u8>)
    requires
        view.wf(),
        row < 8,
    ensures
        r@.len() == view.width,
        forall|col: int|
            0 <= col < view.width ==> column_of(*view, row as int, col, #[trigger] r@[col]),
{
    let mut out: Vec<u8> = Vec::new();
    for col in 0..view.width
        invariant
            view.wf(),
            row < 8,
            out@.len() == col,
            forall|c: int|
                0 <= c < col ==> column_of(*view, row as int, c, #[trigger] out@[c]),
    {
        let b: u8 = column(view, row, col);
        out.push(b);
    }
    out
}

/// The byte of one column in a page.
fn column<'a>(view: &DriverView<'a>, row: usize, col: usize) -> (r: u8)
    requires
        view.wf(),
        row < 8,
    ensures
        column_of(*view, row as int, col as int, r),
{
    let mut buf: u8 = 0;
    proof {
        assert forall|k: u8| k < 8 implies !(#[trigger] bit(0u8, k)) by {
            assert((0u8 >> k) & 1u8 != 1u8) by (bit_vector)
                requires
                    k < 8,
            ;
        }
    }
    let mut b: u8 = 0;
    while b < 8
        invariant
            view.wf(),
            row < 8,
            b <= 8,
            forall|k: u8| k < b ==> #[trigger] bit(buf, k) == view.lit(col as int, row * 8 + k),
            forall|k: u8| b <= k < 8 ==> !(#[trigger] bit(buf, k)),
        decreases 8 - b,
    {
        let ghost before = buf;
        if view.pixel(col, row * 8 + b as usize) {
            buf = buf | (1u8 << b);
            proof {
                assert forall|k: u8| k < 8 implies #[trigger] bit(buf, k) == (k == b || bit(
                    before,
                    k,
                )) by {
                    lemma_set_bit(before, b, k);
                }
            }
        }
        b = b + 1;
    }
    buf
}

/// Setting one bit leaves the others alone.
proof fn lemma_set_bit(v: u8, b: u8, k: u8)
    requires
        b < 8,
        k < 8,
    ensures
        bit(v | (1u8 << b), k) == (k == b || bit(v, k)),
{
    assert((((v | (1u8 << b)) >> k) & 1u8 == 1u8) == (k == b || (v >> k) & 1u8 == 1u8))
        by (bit_vector)
        requires
            b < 8,
            k < 8,
    ;
}

// ---------------------------------------------------------------------------
// Polling
// ---------------------------------------------------------------------------

/// What to do next.
#[derive(Clone, Copy, PartialEq, Eq, Debug, Structural)]
pub enum OledAction {
    /// There is nothing to do.
    Idle,
    /// The display has been switched off.
    SwitchOff,
    /// The display is to be initialized; report with `initialized`.
    Init(OledConfig),
    /// The framebuffer is to be shown; see `Flush`.
    Flush(OledConfig),
}

/// The task's state: the configuration that it acts on, `None` before the
/// first, and whether the display could be initialized for it.
#[derive(Clone, Copy, Debug)]
pub struct OledTask {
    pub config: Option<Option<OledConfig>>,
    pub ready: bool,
}

/// Whether two configurations are the same.
fn same_config(a: Option<OledConfig>, b: Option<OledConfig>) -> (r: bool)
    ensures
        r == (a == b),
{
    match (a, b) {
        (Some(x), Some(y)) => x == y,
        (None, None) => true,
        _ => false,
    }
}

impl OledTask {
    pub fn new() -> (r: Self)
        ensures
            r.config is None,
            !r.ready,
    {
        OledTask { config: None, ready: false }
    }

    /// Starts with the configuration that was read from storage, which is the
    /// one that is wanted from then on.
    pub fn start(startup: &OledStartup, g: &mut Global) -> (r: Self)
        ensures
            r.config is None,
            !r.ready,
            *final(g) == (Global { oled_config: startup.config, ..*old(g) }),
    {
        g.oled_config = startup.config;
        Self::new()
    }

    /// One check of the shared state: a configuration that differs from the
    /// last is applied; otherwise a new picture is shown, where the display
    /// could be initialized.
    pub fn poll(
        &mut self,
        wanted: Option<OledConfig>,
        dirty: bool,
        status: &mut OledStatus,
    ) -> (r: OledAction)
        ensures
            final(self).config == Some(wanted),
            final(status).errors == old(status).errors,
            final(status).reinits == old(status).reinits,
            if old(self).config == Some(wanted) {
                &&& final(self).ready == old(self).ready
                &&& final(status).status == old(status).status
                &&& r == match wanted {
                    Some(c) if dirty && old(self).ready => OledAction::Flush(c),
                    _ => OledAction::Idle,
                }
            } else {
                &&& !final(self).ready
                &&& match wanted {
                    Some(c) => final(status).status == OledConnectionStatus::Initializing && r
                        == OledAction::Init(c),
                    None => final(status).status == OledConnectionStatus::Disabled && r
                        == OledAction::SwitchOff,
                }
            },
    {
        let known: bool = match self.config {
            Some(c) => same_config(c, wanted),
            None => false,
        };
        if known {
            match wanted {
                Some(c) => if dirty && self.ready {
                    OledAction::Flush(c)
                } else {
                    OledAction::Idle
                },
                None => OledAction::Idle,
            }
        } else {
            self.config = Some(wanted);
            self.ready = false;
            match wanted {
                Some(c) => {
                    status.status = OledConnectionStatus::Initializing;
                    OledAction::Init(c)
                },
                None => {
                    status.status = OledConnectionStatus::Disabled;
                    OledAction::SwitchOff
                },
            }
        }
    }

    /// Takes the outcome of the first initialization. Where it failed, the
    /// display is left alone until the configuration changes.
    pub fn initialized(&mut self, outcome: Result<(), String>, status: &mut OledStatus)
        ensures
            final(self).config == old(self).config,
            final(self).ready == (outcome is Ok),
            final(status).errors == old(status).errors,
            final(status).reinits == old(status).reinits,
            match outcome {
                Ok(_) => final(status).status == OledConnectionStatus::Connected,
                Err(e) => final(status).status matches OledConnectionStatus::Failed(m) && m@
                    == "init: "@ + e@,
            },
    {
        match outcome {
            Ok(_) => {
                self.ready = true;
                status.status = OledConnectionStatus::Connected;
            },
            Err(e) => {
                self.ready = false;
                let mut m: String = String::new();
                m.append("init: ");
                m.append(e.as_str());
                proof {
                    assert(m@ =~= "init: "@ + e@);
                }
                status.status = OledConnectionStatus::Failed(m);
            },
        }
    }
}

// ---------------------------------------------------------------------------
// Flushing
// ---------------------------------------------------------------------------

/// What to do after an attempt to show a frame.
#[derive(Clone, Copy, PartialEq, Eq, Debug, Structural)]
pub enum FlushStep {
    /// The frame is shown.
    Done,
    /// Wait a little, then try again.
    Retry,
    /// All attempts failed: initialize the display again, and report with
    /// `reinitialized`.
    Reinit,
}

/// The attempts to show one frame: how many have failed.
#[derive(Clone, Copy, Debug)]
pub struct Flush {
    pub failed: u32,
}

impl Flush {
    pub fn new() -> (r: Self)
        ensures
            r.failed == 0,
    {
        Flush { failed: 0 }
    }

    /// Takes the outcome of one attempt. Every failed one counts as an error,
    /// and the last of them as a reinitialization.
    pub fn attempted(&mut self, ok: bool, status: &mut OledStatus) -> (r: FlushStep)
        requires
            old(self).failed < MAX_ATTEMPTS,
            old(status).errors < u32::MAX,
            old(status).reinits < u32::MAX,
        ensures
            if ok {
                &&& r == FlushStep::Done
                &&& final(self).failed == old(self).failed
                &&& final(status).status == OledConnectionStatus::Connected
                &&& final(status).errors == old(status).errors
                &&& final(status).reinits == old(status).reinits
            } else {
                &&& final(self).failed == old(self).failed + 1
                &&& final(status).status == old(status).status
                &&& final(status).errors == old(status).errors + 1
                &&& if final(self).failed == MAX_ATTEMPTS {
                    &&& r == FlushStep::Reinit
                    &&& final(status).reinits == old(status).reinits + 1
                } else {
                    &&& r == FlushStep::Retry
                    &&& final(status).reinits == old(status).reinits
                }
            },
            r == FlushStep::Reinit <==> !ok && old(self).failed == 2,
            r == FlushStep::Retry <==> !ok && old(self).failed < 2,
    {
        if ok {
            status.status = OledConnectionStatus::Connected;
            return FlushStep::Done;
        }
        status.errors = status.errors + 1;
        self.failed = self.failed + 1;
        if self.failed < MAX_ATTEMPTS {
            FlushStep::Retry
        } else {
            status.reinits = status.reinits + 1;
            FlushStep::Reinit
        }
    }
}

/// Takes the outcome of an initialization after all attempts failed, the last
/// with `error`. The next frame is tried either way.
pub fn reinitialized(error: &str, outcome: Result<(), String>, status: &mut OledStatus)
    ensures
        final(status).errors == old(status).errors,
        final(status).reinits == old(status).reinits,
        match outcome {
            Ok(_) => final(status).status == OledConnectionStatus::Connected,
            Err(e) => final(status).status matches OledConnectionStatus::Failed(m) && m@ == error@
                + ", reinit: "@ + e@,
        },
{
    match outcome {
        Ok(_) => {
            status.status = OledConnectionStatus::Connected;
        },
        Err(e) => {
            let mut m: String = String::new();
            m.append(error);
            m.append(", reinit: ");
            m.append(e.as_str());
            proof {
                assert(m@ =~= error@ + ", reinit: "@ + e@);
            }
            status.status = OledConnectionStatus::Failed(m);
        },
    }
}

// ---------------------------------------------------------------------------
// Laws
// ---------------------------------------------------------------------------

/// Bit `k` of a column's byte, counted from the least significant one, is the
/// pixel `k` rows below the page's first row.
pub proof fn lemma_column_bit<'a>(view: DriverView<'a>, row: int, col: int, b: u8, k: u8)
    requires
        column_of(view, row, col, b),
        k < 8,
    ensures
        (b >> k) & 1u8 == 1u8 <==> view.lit(col, 8 * row + k),
{
    assert(bit(b, k) == view.lit(col, row * 8 + k));
}

/// Two bytes that show the same column are the same.
pub proof fn lemma_column_is_one<'a>(view: DriverView<'a>, row: int, col: int, a: u8, b: u8)
    requires
        column_of(view, row, col, a),
        column_of(view, row, col, b),
    ensures
        a == b,
{
    assert(bit(a, 0) == bit(b, 0) && bit(a, 1) == bit(b, 1) && bit(a, 2) == bit(b, 2));
    assert(bit(a, 3) == bit(b, 3) && bit(a, 4) == bit(b, 4) && bit(a, 5) == bit(b, 5));
    assert(bit(a, 6) == bit(b, 6) && bit(a, 7) == bit(b, 7));
    assert(a == b) by (bit_vector)
        requires
            ((a >> 0u8) & 1u8 == 1u8) == ((b >> 0u8) & 1u8 == 1u8),
            ((a >> 1u8) & 1u8 == 1u8) == ((b >> 1u8) & 1u8 == 1u8),
            ((a >> 2u8) & 1u8 == 1u8) == ((b >> 2u8) & 1u8 == 1u8),
            ((a >> 3u8) & 1u8 == 1u8) == ((b >> 3u8) & 1u8 == 1u8),
            ((a >> 4u8) & 1u8 == 1u8) == ((b >> 4u8) & 1u8 == 1u8),
            ((a >> 5u8) & 1u8 == 1u8) == ((b >> 5u8) & 1u8 == 1u8),
            ((a >> 6u8) & 1u8 == 1u8) == ((b >> 6u8) & 1u8 == 1u8),
            ((a >> 7u8) & 1u8 == 1u8) == ((b >> 7u8) & 1u8 == 1u8),
    ;
}

} // verus!
