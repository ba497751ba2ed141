//! What the task that drives the LED chain decides and shows.
use crate::driver::{DeviceMapping, DriverKind, DriverView};
use crate::frame::{Framebuffer, led_color};
use crate::global::{DISPLAY_BUFFER_ILED, Global, shown};
use crate::iled::{IledConfig, IledModel, IledStartup, MAX_LEDS};
use vstd::arithmetic::div_mod::*;
use vstd::arithmetic::mul::*;
use vstd::prelude::*;

verus! {

/// How many milliseconds lie between two checks. Even the largest chain is far
/// coarser than a display, so what is worth showing on it changes slowly.
pub const CHECK_INTERVAL_MS: u64 = 100;

/// What to do next. Every action is reported with `done`.
#[derive(Clone, Copy, PartialEq, Eq, Debug, Structural)]
pub enum IledAction {
    /// There is nothing new to show.
    Idle,
    /// The chain has been switched off and stays dark.
    Off,
    /// The chain was just switched off: send one frame with every pixel off.
    GoDark,
    /// Send a frame, after a rebuild of the output driver where the timing
    /// has changed.
    Redraw { rebuild: bool },
}

/// The task's state: the configuration that the output driver was last built
/// for, and whether the chain is switched on. The configuration is kept while
/// the chain is off, for the dark frame and to tell whether the timing
/// changed.
#[derive(Clone, Copy, Debug)]
pub struct IledTask {
    pub config: IledConfig,
    pub enabled: bool,
}

/// What one check asks for: `wanted` is the configuration that is wanted, and
/// `dirty` whether the framebuffer was drawn since the last frame.
pub open spec fn action_of(task: IledTask, wanted: Option<IledConfig>, dirty: bool) -> IledAction {
    match wanted {
        None => if task.enabled {
            IledAction::GoDark
        } else {
            IledAction::Off
        },
        Some(c) => if dirty || !task.enabled || c@ != task.config@ {
            IledAction::Redraw { rebuild: c.timing != task.config.timing }
        } else {
            IledAction::Idle
        },
    }
}

/// The task's state after one check.
pub open spec fn task_after(task: IledTask, wanted: Option<IledConfig>) -> IledTask {
    match wanted {
        None => IledTask { enabled: false, ..task },
        Some(c) => IledTask { config: c, enabled: true },
    }
}

/// The chain's dirty flag after an action was carried out.
pub open spec fn flag_after(dirty: bool, action: IledAction) -> bool {
    dirty && action == IledAction::Idle
}

/// A framebuffer with every pixel off.
pub open spec fn blank_pixels() -> Seq<bool> {
    Seq::new(MAX_LEDS as nat, |i: int| false)
}

/// The pixels that the task sends, where `f` is what the chain is to show:
/// none while it is off.
pub open spec fn picture_of(task: IledTask, f: spec_fn(int, int) -> bool) -> Seq<bool> {
    if task.enabled {
        sampled(blank_pixels(), task.config.width as int, task.config.height as int, f)
    } else {
        blank_pixels()
    }
}

impl IledTask {
    /// Starts with the configuration that was read from storage.
    pub fn new(config: IledConfig) -> (r: Self)
        ensures
            r.config == config,
            r.enabled,
    {
        IledTask { config, enabled: true }
    }

    /// Starts with the configuration that was read from storage, which is the
    /// one that is wanted from then on.
    pub fn start(startup: &IledStartup, g: &mut Global) -> (r: Self)
        ensures
            r.config == startup.config,
            r.enabled,
            *final(g) == (Global { iled_config: Some(startup.config), ..*old(g) }),
    {
        g.iled_config = Some(startup.config);
        Self::new(startup.config)
    }

    /// One check: `new_config` is the configuration that is wanted now,
    /// `dirty` whether the framebuffer was drawn since the last frame. Either
    /// a new configuration or a new picture is reason enough to redraw.
    pub fn step(&mut self, new_config: Option<IledConfig>, dirty: bool) -> (r: IledAction)
        ensures
            r == action_of(*old(self), new_config, dirty),
            *final(self) == task_after(*old(self), new_config),
            match new_config {
                None => {
                    &&& final(self).config == old(self).config
                    &&& !final(self).enabled
                    &&& r == if old(self).enabled {
                        IledAction::GoDark
                    } else {
                        IledAction::Off
                    }
                },
                Some(c) => {
                    &&& final(self).config == c
                    &&& final(self).enabled
                    &&& r == if dirty || !old(self).enabled || c@ != old(self).config@ {
                        IledAction::Redraw { rebuild: c.timing != old(self).config.timing }
                    } else {
                        IledAction::Idle
                    }
                },
            },
            final(self).config.timing != old(self).config.timing ==> r == (IledAction::Redraw {
                rebuild: true,
            }),
    {
        match new_config {
            None => {
                if self.enabled {
                    self.enabled = false;
                    IledAction::GoDark
                } else {
                    IledAction::Off
                }
            },
            Some(c) => {
                let config_changed: bool = !self.enabled || c != self.config;
                let timing_changed: bool = c.timing != self.config.timing;
                self.config = c;
                self.enabled = true;
                if !dirty && !config_changed {
                    IledAction::Idle
                } else {
                    IledAction::Redraw { rebuild: timing_changed }
                }
            },
        }
    }

    /// One check of the shared state.
    pub fn check(&mut self, g: &Global) -> (r: IledAction)
        ensures
            r == action_of(
                *old(self),
                g.iled_config,
                g.display_buffer_dirty@[DISPLAY_BUFFER_ILED as int],
            ),
            *final(self) == task_after(*old(self), g.iled_config),
    {
        self.step(g.iled_config, g.display_buffer_dirty[DISPLAY_BUFFER_ILED])
    }

    /// The picture to send after a check: what `view` shows, or nothing where
    /// the chain was switched off.
    pub fn picture<'a>(&self, view: &DriverView<'a>) -> (r: Framebuffer)
        requires
            view.wf(),
            self.config@.wf(),
        ensures
            r.config == self.config,
            r.pixels@ == picture_of(*self, |x: int, y: int| view.lit(x, y)),
    {
        let mut fb: Framebuffer = Framebuffer::blank(self.config);
        if self.enabled {
            sample_from_view(&mut fb, &self.config, view);
        }
        fb
    }

    /// Takes that an action was carried out: what the chain was to show has
    /// been shown. The display's own flag stays.
    pub fn done(&self, g: &mut Global, action: IledAction)
        ensures
            final(g).display_buffer_dirty@ == old(g).display_buffer_dirty@.update(
                DISPLAY_BUFFER_ILED as int,
                flag_after(old(g).display_buffer_dirty@[DISPLAY_BUFFER_ILED as int], action),
            ),
            final(g).display_buffer == old(g).display_buffer,
            final(g).nodem_config == old(g).nodem_config,
            final(g).same_but_display(*old(g)),
    {
        match action {
            IledAction::Idle => {
                assert(g.display_buffer_dirty@ =~= g.display_buffer_dirty@.update(
                    DISPLAY_BUFFER_ILED as int,
                    g.display_buffer_dirty@[DISPLAY_BUFFER_ILED as int],
                ));
            },
            _ => {
                shown(g, DISPLAY_BUFFER_ILED);
            },
        }
    }
}

/// The pixels after the first `width * height` have been taken from `f`.
pub open spec fn sampled(
    before: Seq<bool>,
    width: int,
    height: int,
    f: spec_fn(int, int) -> bool,
) -> Seq<bool> {
    Seq::new(
        before.len(),
        |i: int|
            if i < width * height {
                f(i % width, i / width)
            } else {
                before[i]
            },
    )
}

/// Takes the top left corner of the framebuffer, pixel for pixel. What lies
/// beyond the framebuffer is off.
pub fn sample_from_dom(fb: &mut Framebuffer, config: &IledConfig, g: &Global)
    requires
        g.wf(),
        config@.wf(),
        old(fb).config.width == config.width,
    ensures
        final(fb).config == old(fb).config,
        final(fb).pixels@ == sampled(
            old(fb).pixels@,
            config.width as int,
            config.height as int,
            |x: int, y: int| g.pixel(x, y),
        ),
{
    let ghost before = fb.pixels@;
    let w: usize = g.nodem_config.width as usize;
    let h: usize = g.nodem_config.height as usize;
    // As wide and as high as both, so that nothing is centered.
    let view = DriverView {
        g,
        mapping: Some(
            DeviceMapping { driver: DriverKind::Iled, x: 0, y: 0, scale_x: 1, scale_y: 1 },
        ),
        width: if config.width < w {
            config.width
        } else {
            w
        },
        height: if config.height < h {
            config.height
        } else {
            h
        },
        phase: 0,
    };
    sample_from_view(fb, config, &view);
    proof {
        let width = config.width as int;
        let height = config.height as int;
        let cropped = sampled(before, width, height, |x: int, y: int| g.pixel(x, y));
        assert forall|i: int| 0 <= i < before.len() implies fb.pixels@[i] == cropped[i] by {
            if i < width * height {
                let x = i % width;
                let y = i / width;
                lemma_place(i, width, height);
                if x < view.width && y < view.height {
                    lemma_plain_mapping_is_crop(view, x, y);
                }
            }
        }
        assert(fb.pixels@ =~= cropped);
    }
}

/// Takes what `view` shows.
pub fn sample_from_view<'a>(fb: &mut Framebuffer, config: &IledConfig, view: &DriverView<'a>)
    requires
        view.wf(),
        config@.wf(),
        old(fb).config.width == config.width,
    ensures
        final(fb).config == old(fb).config,
        final(fb).pixels@ == sampled(
            old(fb).pixels@,
            config.width as int,
            config.height as int,
            |x: int, y: int| view.lit(x, y),
        ),
{
    let ghost before = fb.pixels@;
    let ghost f = |x: int, y: int| view.lit(x, y);
    let width: usize = config.width;
    let height: usize = config.height;
    proof {
        lemma_mul_basics_1(width as int);
        lemma_sides(width as int, height as int);
    }
    for y in 0..height
        invariant
            view.wf(),
            f == |x: int, y: int| view.lit(x, y),
            1 <= width <= MAX_LEDS,
            1 <= height <= MAX_LEDS,
            width * height <= MAX_LEDS,
            fb.config == old(fb).config,
            fb.config.width == width,
            taken(before, fb.pixels@, width as int, y * width, f),
    {
        proof {
            lemma_row(y as int, width as int, height as int);
            assert(y * width + 0 == y * width);
        }
        for x in 0..width
            invariant
                view.wf(),
                f == |x: int, y: int| view.lit(x, y),
                1 <= width <= MAX_LEDS,
                y < height <= MAX_LEDS,
                0 <= y * width,
                y * width + width <= MAX_LEDS,
                fb.config == old(fb).config,
                fb.config.width == width,
                taken(before, fb.pixels@, width as int, y * width + x, f),
        {
            let on: bool = view.pixel(x, y);
            fb.set(x, y, on);
            proof {
                lemma_fundamental_div_mod_converse(y * width + x, width as int, y as int, x as int);
            }
        }
        proof {
            assert((y + 1) * width == y * width + width) by (nonlinear_arith);
        }
    }
    proof {
        assert(height * width == width * height) by (nonlinear_arith);
        assert(fb.pixels@ =~= sampled(before, width as int, height as int, f));
    }
}

/// Whether the first `k` pixels have been taken from `f`.
spec fn taken(
    before: Seq<bool>,
    now: Seq<bool>,
    width: int,
    k: int,
    f: spec_fn(int, int) -> bool,
) -> bool {
    &&& now.len() == before.len()
    &&& now.len() == MAX_LEDS
    &&& forall|i: int|
        0 <= i < now.len() ==> #[trigger] now[i] == if i < k {
            f(i % width, i / width)
        } else {
            before[i]
        }
}

proof fn lemma_sides(width: int, height: int)
    requires
        width >= 1,
        height >= 1,
        width * height <= MAX_LEDS,
    ensures
        width <= MAX_LEDS,
        height <= MAX_LEDS,
{
    assert(width <= width * height && height <= width * height) by (nonlinear_arith)
        requires
            width >= 1,
            height >= 1,
    ;
}

/// The pixel at place `i` of rows of `width`.
proof fn lemma_place(i: int, width: int, height: int)
    requires
        width >= 1,
        0 <= i < width * height,
    ensures
        0 <= i % width < width,
        0 <= i / width < height,
{
    lemma_fundamental_div_mod(i, width);
    lemma_mod_bound(i, width);
    assert(0 <= i / width < height) by (nonlinear_arith)
        requires
            i == width * (i / width) + i % width,
            0 <= i % width < width,
            0 <= i < width * height,
            width >= 1,
    ;
}

proof fn lemma_row(y: int, width: int, height: int)
    requires
        0 <= y < height,
        width >= 1,
        width * height <= MAX_LEDS,
    ensures
        0 <= y * width,
        y * width + width <= MAX_LEDS,
{
    assert(0 <= y * width && y * width + width <= width * height) by (nonlinear_arith)
        requires
            0 <= y < height,
            width >= 1,
    ;
}

// ---------------------------------------------------------------------------
// Laws
// ---------------------------------------------------------------------------

/// The frame of a blank framebuffer shows every LED in the off color.
pub proof fn lemma_blank_is_dark(m: IledModel, pixels: Seq<bool>, index: int)
    requires
        m.wf(),
        pixels == Seq::new(MAX_LEDS as nat, |i: int| false),
        0 <= index < m.width * m.height,
    ensures
        led_color(m, pixels, index) == m.off_color,
{
    let w = m.width as int;
    let h = m.height as int;
    crate::layout::lemma_chain_index_onto(m.layout, index, w, h);
    let (x, y) = crate::layout::pixel_of(m.layout, index, w, h);
    lemma_row(y, w, h);
}

/// Whether an action sends a frame.
pub open spec fn sends(action: IledAction) -> bool {
    action == IledAction::GoDark || action is Redraw
}

/// The task's state before check `i` of a run. A check is what is wanted, and
/// whether the framebuffer was drawn.
pub open spec fn task_at(
    task: IledTask,
    checks: Seq<(Option<IledConfig>, bool)>,
    i: int,
) -> IledTask
    decreases i,
{
    if i <= 0 {
        task
    } else {
        task_after(task_at(task, checks, i - 1), checks[i - 1].0)
    }
}

/// The action of check `i` of a run.
pub open spec fn action_at(
    task: IledTask,
    checks: Seq<(Option<IledConfig>, bool)>,
    i: int,
) -> IledAction {
    action_of(task_at(task, checks, i), checks[i].0, checks[i].1)
}

/// How many frames the first `n` checks of a run send.
pub open spec fn frames_sent(
    task: IledTask,
    checks: Seq<(Option<IledConfig>, bool)>,
    n: int,
) -> nat
    decreases n,
{
    if n <= 0 {
        0
    } else {
        frames_sent(task, checks, n - 1) + if sends(action_at(task, checks, n - 1)) {
            1nat
        } else {
            0
        }
    }
}

/// A chain that is switched off and stays so is sent one frame, on the first
/// check, with every LED in the off color of the configuration that it had. No
/// driver is rebuilt, and the chain's dirty flag is clear after every check.
pub proof fn lemma_off_sends_one_dark_frame(
    task: IledTask,
    checks: Seq<(Option<IledConfig>, bool)>,
    n: int,
    f: spec_fn(int, int) -> bool,
)
    requires
        task.enabled,
        task.config@.wf(),
        1 <= n <= checks.len(),
        forall|i: int| 0 <= i < n ==> (#[trigger] checks[i]).0 is None,
    ensures
        frames_sent(task, checks, n) == 1,
        action_at(task, checks, 0) == IledAction::GoDark,
        forall|i: int| 1 <= i < n ==> #[trigger] action_at(task, checks, i) == IledAction::Off,
        forall|i: int|
            0 <= i < n ==> !flag_after(#[trigger] checks[i].1, action_at(task, checks, i)),
        task_at(task, checks, n) == (IledTask { enabled: false, ..task }),
        picture_of(task_at(task, checks, 1), f) == blank_pixels(),
        forall|index: int|
            0 <= index < task.config.width * task.config.height ==> #[trigger] led_color(
                task.config@,
                picture_of(task_at(task, checks, 1), f),
                index,
            ) == task.config.off_color,
    decreases n,
{
    reveal_with_fuel(task_at, 2);
    reveal_with_fuel(frames_sent, 2);
    if n > 1 {
        lemma_off_sends_one_dark_frame(task, checks, n - 1, f);
        assert(checks[n - 1].0 is None);
    } else {
        assert(checks[0].0 is None);
    }
    assert forall|index: int|
        0 <= index < task.config.width * task.config.height implies #[trigger] led_color(
        task.config@,
        picture_of(task_at(task, checks, 1), f),
        index,
    ) == task.config.off_color by {
        lemma_blank_is_dark(task.config@, blank_pixels(), index);
    }
}

/// An unscaled, unshifted mapping of a framebuffer that is at least as large
/// as the chain shows its top left corner, pixel for pixel.
pub proof fn lemma_plain_mapping_is_crop<'a>(view: DriverView<'a>, x: int, y: int)
    requires
        view.wf(),
        view.mapping matches Some(m) && m.x == 0 && m.y == 0 && m.scale_x == 1 && m.scale_y == 1,
        view.width <= view.g.nodem_config@.width,
        view.height <= view.g.nodem_config@.height,
        0 <= x < view.width,
        0 <= y < view.height,
    ensures
        view.lit(x, y) == view.g.pixel(x, y),
{
    lemma_div_basics(x);
    lemma_div_basics(y);
}

/// Pixel `(x, y)` is taken from place `(x, y)`; places that the chain does not
/// have stay as they are.
pub proof fn lemma_sampled_pixel(
    before: Seq<bool>,
    width: int,
    height: int,
    f: spec_fn(int, int) -> bool,
    x: int,
    y: int,
)
    requires
        0 <= x < width,
        0 <= y < height,
        width * height <= before.len(),
    ensures
        0 <= y * width + x < before.len(),
        sampled(before, width, height, f)[y * width + x] == f(x, y),
        forall|i: int|
            width * height <= i < before.len() ==> #[trigger] sampled(before, width, height, f)[i]
                == before[i],
        sampled(before, width, height, f).len() == before.len(),
{
    assert(0 <= y * width && y * width + x < width * height) by (nonlinear_arith)
        requires
            0 <= x < width,
            0 <= y < height,
    ;
    lemma_fundamental_div_mod_converse(y * width + x, width, y, x);
}

/// A chain that is on is sent a frame exactly where the framebuffer was drawn,
/// the configuration is another one, or it was off before; its driver is
/// rebuilt exactly where the timing is another one.
pub proof fn lemma_on_sends_when_needed(task: IledTask, c: IledConfig, dirty: bool)
    ensures
        sends(action_of(task, Some(c), dirty)) <==> dirty || c@ != task.config@ || !task.enabled,
        action_of(task, Some(c), dirty) matches IledAction::Redraw { rebuild } ==> (rebuild
            <==> c.timing != task.config.timing),
        c.timing != task.config.timing ==> sends(action_of(task, Some(c), dirty)),
        action_of(task, Some(c), dirty) != IledAction::GoDark,
{
}

/// A chain that is on shows at each of its places what is to be shown there;
/// one that is off shows nothing anywhere.
pub proof fn lemma_picture_shows(
    task: IledTask,
    f: spec_fn(int, int) -> bool,
    x: int,
    y: int,
    i: int,
)
    requires
        task.config@.wf(),
        0 <= x < task.config.width,
        0 <= y < task.config.height,
        0 <= i < 128,
    ensures
        picture_of(task, f).len() == 128,
        0 <= y * task.config.width + x < 128,
        task.enabled ==> picture_of(task, f)[y * task.config.width + x] == f(x, y),
        task.enabled && i >= task.config.width * task.config.height ==> !picture_of(task, f)[i],
        !task.enabled ==> !picture_of(task, f)[i],
{
    let w = task.config.width as int;
    let h = task.config.height as int;
    lemma_sampled_pixel(blank_pixels(), w, h, f, x, y);
}

/// Every action but the one that does nothing takes the chain's flag down, and
/// none puts it up.
pub proof fn lemma_flag_taken_down(dirty: bool, action: IledAction)
    ensures
        flag_after(dirty, action) <==> dirty && action is Idle,
{
}

} // verus!
