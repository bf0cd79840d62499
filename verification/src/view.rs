use vstd::prelude::*;

verus! {

use vstd::arithmetic::div_mod::{
    lemma_div_is_ordered, lemma_div_multiples_vanish, lemma_fundamental_div_mod, lemma_mod_bound,
};

/// One scroll event's horizontal and vertical components.
#[derive(Clone, Copy, Debug, PartialEq, Eq, Structural)]
pub struct ScrollDelta {
    pub dx: i32,
    pub dy: i32,
}

/// One input tick: an optional scroll event and the modifier states held
/// while it happened.
#[derive(Clone, Copy, Debug)]
pub struct TickInput {
    pub scroll: Option<ScrollDelta>,
    /// Precision modifier: scales every step down tenfold.
    pub precision: bool,
    /// Axis-swap modifier: the scroll components trade roles, with a sign
    /// flip on the vertical one, before they are applied.
    pub swap_axes: bool,
}

/// Mathematical view of a controller: the visible sub-range `[start,
/// start + length)` of a timeline of `total` samples.
pub struct RangeModel {
    pub start: int,
    pub length: int,
    pub total: int,
}

impl RangeModel {
    /// The range invariant: a nonempty sub-range of `[0, total]`.
    pub open spec fn wf(self) -> bool {
        0 <= self.start && 1 <= self.length && self.start + self.length <= self.total
    }
}

/// Magnitude of a scroll component.
pub open spec fn scroll_mag(d: int) -> int {
    if d >= 0 {
        d
    } else {
        -d
    }
}

/// Scaling divisor: the step factor is one tenth of the visible half-length,
/// and the precision modifier scales it down tenfold again.
pub open spec fn step_divisor(precision: bool) -> int {
    if precision {
        100
    } else {
        10
    }
}

/// Samples moved per scroll event of magnitude `mag` over a range of
/// `length` samples: proportional to the visible half-length, but never less
/// than one sample, so that repeated input cannot stall short of a bound.
pub open spec fn step_amount(mag: int, length: int, precision: bool) -> int {
    let raw = mag * (length / 2) / step_divisor(precision);
    if raw < 1 {
        1
    } else {
        raw
    }
}

/// Pan transition: a positive `dx` moves the range toward the end of the
/// timeline and a negative one toward the beginning, by `step_amount`
/// samples, clamped so the range never leaves `[0, total]`; the length never
/// changes. A zero `dx` changes nothing.
pub open spec fn pan_model(s: RangeModel, dx: int, precision: bool) -> RangeModel {
    if dx == 0 {
        s
    } else {
        let d = step_amount(scroll_mag(dx), s.length, precision);
        let max_start = s.total - s.length;
        if dx > 0 {
            RangeModel { start: if s.start + d <= max_start { s.start + d } else { max_start }, ..s }
        } else {
            RangeModel { start: if d <= s.start { s.start - d } else { 0 }, ..s }
        }
    }
}

/// Zoom transition: a positive `dy` shrinks the range symmetrically from
/// both ends, never below one sample; a negative `dy` grows it
/// symmetrically, never past the full extent, re-positioning the start when
/// the grown range would leave `[0, total]`. A zero `dy` changes nothing.
pub open spec fn zoom_model(s: RangeModel, dy: int, precision: bool) -> RangeModel {
    if dy == 0 {
        s
    } else {
        let d = step_amount(scroll_mag(dy), s.length, precision);
        if dy > 0 {
            let new_len = if s.length - 2 * d >= 1 {
                s.length - 2 * d
            } else {
                1
            };
            RangeModel { start: s.start + (s.length - new_len) / 2, length: new_len, ..s }
        } else {
            let new_len = if s.length + 2 * d <= s.total {
                s.length + 2 * d
            } else {
                s.total
            };
            let grow = new_len - s.length;
            let left = if grow / 2 <= s.start {
                s.start - grow / 2
            } else {
                0
            };
            let start2 = if left + new_len <= s.total {
                left
            } else {
                s.total - new_len
            };
            RangeModel { start: start2, length: new_len, ..s }
        }
    }
}

/// One tick of the pan-and-zoom policy: the horizontal component pans, the
/// vertical one zooms, after the axis-swap modifier has traded their roles.
pub open spec fn tick_model(s: RangeModel, inp: TickInput) -> RangeModel {
    match inp.scroll {
        None => s,
        Some(sc) => {
            let dx = if inp.swap_axes {
                -(sc.dy as int)
            } else {
                sc.dx as int
            };
            let dy = if inp.swap_axes {
                sc.dx as int
            } else {
                sc.dy as int
            };
            zoom_model(pan_model(s, dx, inp.precision), dy, inp.precision)
        },
    }
}

/// Panning keeps the invariant and touches only the start of the range.
pub proof fn lemma_pan_model_wf(s: RangeModel, dx: int, precision: bool)
    requires
        s.wf(),
    ensures
        pan_model(s, dx, precision).wf(),
        pan_model(s, dx, precision).length == s.length,
        pan_model(s, dx, precision).total == s.total,
{
}

/// Zooming keeps the invariant and touches only the range, not the total.
pub proof fn lemma_zoom_model_wf(s: RangeModel, dy: int, precision: bool)
    requires
        s.wf(),
    ensures
        zoom_model(s, dy, precision).wf(),
        zoom_model(s, dy, precision).total == s.total,
{
}

/// A single tick keeps the view-range invariant, whatever the input.
pub proof fn lemma_tick_model_wf(s: RangeModel, inp: TickInput)
    requires
        s.wf(),
    ensures
        tick_model(s, inp).wf(),
        tick_model(s, inp).total == s.total,
{
    match inp.scroll {
        None => {},
        Some(sc) => {
            let dx = if inp.swap_axes {
                -(sc.dy as int)
            } else {
                sc.dx as int
            };
            let dy = if inp.swap_axes {
                sc.dx as int
            } else {
                sc.dy as int
            };
            lemma_pan_model_wf(s, dx, inp.precision);
            lemma_zoom_model_wf(pan_model(s, dx, inp.precision), dy, inp.precision);
        },
    }
}

/// The range reached after a whole sequence of input ticks.
pub open spec fn run_model(s: RangeModel, inputs: Seq<TickInput>) -> RangeModel
    decreases inputs.len(),
{
    if inputs.len() == 0 {
        s
    } else {
        run_model(tick_model(s, inputs[0]), inputs.drop_first())
    }
}

/// No sequence of scroll inputs can drive the controller out of its
/// invariant: every reachable range has a nonnegative start, a length of at
/// least one sample, and an end within the timeline.
pub proof fn lemma_run_model_wf(s: RangeModel, inputs: Seq<TickInput>)
    requires
        s.wf(),
    ensures
        run_model(s, inputs).wf(),
        run_model(s, inputs).total == s.total,
    decreases inputs.len(),
{
    if inputs.len() > 0 {
        lemma_tick_model_wf(s, inputs[0]);
        lemma_run_model_wf(tick_model(s, inputs[0]), inputs.drop_first());
    }
}

/// Zooming out strictly grows any range short of the full extent, never
/// grows one past it, and leaves the full extent `[0, total)` exactly where
/// it is: repeated zoom-out converges to the full extent and stops there.
pub proof fn lemma_zoom_out_converges(s: RangeModel, dy: int, precision: bool)
    requires
        s.wf(),
        dy < 0,
    ensures
        zoom_model(s, dy, precision).wf(),
        zoom_model(s, dy, precision).length <= s.total,
        s.length < s.total ==> zoom_model(s, dy, precision).length > s.length,
        s.length == s.total ==> s.start == 0 && zoom_model(s, dy, precision) == s,
{
    lemma_zoom_model_wf(s, dy, precision);
}

/// Zooming in strictly shrinks any range longer than one sample, never
/// shrinks one below it, and leaves a one-sample range exactly where it is:
/// repeated zoom-in converges to a single sample and stops there.
pub proof fn lemma_zoom_in_converges(s: RangeModel, dy: int, precision: bool)
    requires
        s.wf(),
        dy > 0,
    ensures
        zoom_model(s, dy, precision).wf(),
        1 <= zoom_model(s, dy, precision).length,
        s.length > 1 ==> zoom_model(s, dy, precision).length < s.length,
        s.length == 1 ==> zoom_model(s, dy, precision) == s,
{
    lemma_zoom_model_wf(s, dy, precision);
}

/// Magnitude of a scroll component as a 64-bit value.
fn magnitude(v: i32) -> (m: u64)
    ensures
        m as int == scroll_mag(v as int),
{
    if v < 0 {
        if v == i32::MIN {
            2147483648u64
        } else {
            (-v) as u64
        }
    } else {
        v as u64
    }
}

/// Computes `step_amount` without overflow; the result can exceed the
/// timeline and is clamped by the callers' comparisons.
fn step_len(mag: u64, length: usize, precision: bool) -> (d: u128)
    requires
        1 <= mag,
    ensures
        d == step_amount(mag as int, length as int, precision),
{
    let div: u128 = if precision {
        100
    } else {
        10
    };
    proof {
        assert((mag as u128) * ((length / 2) as u128) <= u128::MAX) by (nonlinear_arith)
            requires
                mag as u128 <= u64::MAX as u128,
                (length / 2) as u128 <= u64::MAX as u128,
        ;
    }
    let raw: u128 = (mag as u128) * ((length / 2) as u128) / div;
    if raw < 1 {
        1
    } else {
        raw
    }
}

/// The view-window controller: holds the visible sub-range of the sample
/// timeline and moves it in response to scroll input, under the
/// pan-and-zoom policy of `tick_model`.
pub struct ViewController {
    start: usize,
    length: usize,
    total: usize,
}

impl View for ViewController {
    type V = RangeModel;

    closed spec fn view(&self) -> RangeModel {
        RangeModel { start: self.start as int, length: self.length as int, total: self.total as int }
    }
}

impl ViewController {
    /// The controller's range invariant.
    pub open spec fn wf(&self) -> bool {
        self@.wf()
    }

    /// A controller showing the full extent of a timeline of `total`
    /// samples.
    pub fn new(total: usize) -> (c: ViewController)
        requires
            1 <= total,
        ensures
            c@ == (RangeModel { start: 0, length: total as int, total: total as int }),
            c.wf(),
    {
        ViewController { start: 0, length: total, total }
    }

    /// First sample of the visible range.
    pub fn start(&self) -> (s: usize)
        ensures
            s as int == self@.start,
    {
        self.start
    }

    /// Number of visible samples.
    pub fn length(&self) -> (l: usize)
        ensures
            l as int == self@.length,
    {
        self.length
    }

    /// Number of samples in the whole timeline.
    pub fn total(&self) -> (t: usize)
        ensures
            t as int == self@.total,
    {
        self.total
    }

    /// Applies the pan transition for an effective horizontal component
    /// `dx` of magnitude `mag`.
    fn apply_pan(&mut self, dx_pos: bool, mag: u64, precision: bool, Ghost(dx): Ghost<int>)
        requires
            old(self).wf(),
            1 <= mag,
            mag as int == scroll_mag(dx),
            dx_pos == (dx > 0),
            dx != 0,
        ensures
            final(self)@ == pan_model(old(self)@, dx, precision),
    {
        let d = step_len(mag, self.length, precision);
        if dx_pos {
            let max_start = self.total - self.length;
            let room = max_start - self.start;
            if d <= room as u128 {
                self.start = self.start + (d as usize);
            } else {
                self.start = max_start;
            }
        } else {
            if d <= self.start as u128 {
                self.start = self.start - (d as usize);
            } else {
                self.start = 0;
            }
        }
    }

    /// Applies the zoom transition for an effective vertical component
    /// `dy` of magnitude `mag`.
    fn apply_zoom(&mut self, dy_pos: bool, mag: u64, precision: bool, Ghost(dy): Ghost<int>)
        requires
            old(self).wf(),
            1 <= mag,
            mag as int == scroll_mag(dy),
            dy_pos == (dy > 0),
            dy != 0,
        ensures
            final(self)@ == zoom_model(old(self)@, dy, precision),
    {
        let d = step_len(mag, self.length, precision);
        let ghost dd = step_amount(scroll_mag(dy), self.length as int, precision);
        if dy_pos {
            let shrink_room = (self.length - 1) / 2;
            proof {
                if 2 * dd <= self.length - 1 {
                    lemma_div_is_ordered(2 * dd, self.length - 1, 2);
                }
                lemma_div_multiples_vanish(dd, 2);
                lemma_fundamental_div_mod(self.length - 1, 2);
                lemma_mod_bound(self.length - 1, 2);
            }
            let new_len: usize = if d <= shrink_room as u128 {
                self.length - 2 * (d as usize)
            } else {
                1
            };
            self.start = self.start + (self.length - new_len) / 2;
            self.length = new_len;
        } else {
            let t = self.total;
            let grow_room = (t - self.length) / 2;
            proof {
                if 2 * dd <= t - self.length {
                    lemma_div_is_ordered(2 * dd, t - self.length, 2);
                }
                lemma_div_multiples_vanish(dd, 2);
                lemma_fundamental_div_mod(t - self.length, 2);
                lemma_mod_bound(t - self.length, 2);
            }
            if d <= grow_room as u128 {
                let du = d as usize;
                let new_len = self.length + 2 * du;
                let left = if du <= self.start {
                    self.start - du
                } else {
                    0
                };
                self.start = if left <= t - new_len {
                    left
                } else {
                    t - new_len
                };
                self.length = new_len;
            } else {
                self.start = 0;
                self.length = t;
            }
        }
    }

    /// Consumes one tick's input and moves the visible range under the
    /// pan-and-zoom policy; reports whether the range changed, so the
    /// caller knows to re-render.
    pub fn tick(&mut self, inp: TickInput) -> (changed: bool)
        requires
            old(self).wf(),
        ensures
            final(self).wf(),
            final(self)@ == tick_model(old(self)@, inp),
            changed == (final(self)@ != old(self)@),
    {
        proof {
            lemma_tick_model_wf(old(self)@, inp);
        }
        match inp.scroll {
            None => false,
            Some(sc) => {
                let s0 = self.start;
                let l0 = self.length;
                let ghost eff_dx: int = if inp.swap_axes {
                    -(sc.dy as int)
                } else {
                    sc.dx as int
                };
                let ghost eff_dy: int = if inp.swap_axes {
                    sc.dx as int
                } else {
                    sc.dy as int
                };
                let (dx_pos, dx_mag): (bool, u64) = if inp.swap_axes {
                    (sc.dy < 0, magnitude(sc.dy))
                } else {
                    (sc.dx > 0, magnitude(sc.dx))
                };
                let (dy_pos, dy_mag): (bool, u64) = if inp.swap_axes {
                    (sc.dx > 0, magnitude(sc.dx))
                } else {
                    (sc.dy > 0, magnitude(sc.dy))
                };
                if dx_mag > 0 {
                    self.apply_pan(dx_pos, dx_mag, inp.precision, Ghost(eff_dx));
                }
                proof {
                    lemma_pan_model_wf(old(self)@, eff_dx, inp.precision);
                }
                if dy_mag > 0 {
                    self.apply_zoom(dy_pos, dy_mag, inp.precision, Ghost(eff_dy));
                }
                self.start != s0 || self.length != l0
            },
        }
    }
}

} // verus!
