use vstd::prelude::*;
use crate::raster::{Raster, lemma_index_in_grid, lemma_position_to_pixel, pixel_index};

verus! {

/// One step of a render pass.
#[derive(Debug, Clone, Copy, PartialEq, Eq, Structural)]
pub enum RenderStep {
    /// Cast one more jittered sample through pixel `(i, j)` and add its colour.
    Sample(u32, u32),
    /// Pixel `(i, j)` has all its samples: average them and write the pixel.
    Emit(u32, u32),
    /// Every pixel has been written.
    Done,
}

/// The step that comes `t`-th (from zero) in a pass over a `width` by
/// `height` raster with `samples` samples per pixel: pixels in row-major
/// order, each taking `samples` sample steps and then one emit step.
pub open spec fn scheduled(width: nat, height: nat, samples: nat, t: nat) -> RenderStep {
    let k = t / (samples + 1);
    let s = t % (samples + 1);
    if k >= width * height {
        RenderStep::Done
    } else if s < samples {
        RenderStep::Sample((k % width) as u32, (k / width) as u32)
    } else {
        RenderStep::Emit((k % width) as u32, (k / width) as u32)
    }
}

/// Each pixel `(i, j)` of the raster has its own run of steps, starting at
/// `pixel_index(width, i, j) * (samples + 1)`: `samples` sample steps through
/// that pixel, then the step that emits it.
pub proof fn lemma_pixel_schedule(width: nat, height: nat, samples: nat, i: nat, j: nat, s: nat)
    requires
        i < width,
        j < height,
        s <= samples,
    ensures
        scheduled(width, height, samples, pixel_index(width, i, j) * (samples + 1) + s) == if s
            < samples {
            RenderStep::Sample(i as u32, j as u32)
        } else {
            RenderStep::Emit(i as u32, j as u32)
        },
{
    let k = pixel_index(width, i, j);
    lemma_index_in_grid(width, height, i, j);
    vstd::arithmetic::div_mod::lemma_fundamental_div_mod_converse(
        (k * (samples + 1) + s) as int,
        (samples + 1) as int,
        k as int,
        s as int,
    );
    vstd::arithmetic::mul::lemma_mul_is_commutative(k as int, (samples + 1) as int);
    vstd::arithmetic::div_mod::lemma_fundamental_div_mod_converse(
        k as int,
        width as int,
        j as int,
        i as int,
    );
    vstd::arithmetic::mul::lemma_mul_is_commutative(j as int, width as int);
}

/// A pass over a `width` by `height` raster is over exactly after
/// `width * height * (samples + 1)` steps.
pub proof fn lemma_pass_length(width: nat, height: nat, samples: nat, t: nat)
    ensures
        scheduled(width, height, samples, t) == RenderStep::Done <==> t >= width * height * (
        samples + 1),
{
    let period = (samples + 1) as int;
    let n = (width * height) as int;
    vstd::arithmetic::mul::lemma_mul_is_commutative(n, period);
    if t >= n * period {
        vstd::arithmetic::div_mod::lemma_div_is_ordered(n * period, t as int, period);
        vstd::arithmetic::div_mod::lemma_div_multiples_vanish(n, period);
    } else {
        vstd::arithmetic::div_mod::lemma_multiply_divide_lt(t as int, period, n);
    }
}

/// Where a render pass stands: the pixel being sampled and how many of its
/// samples are taken.
pub struct RenderPass {
    raster: Raster,
    samples_per_pixel: u32,
    pixel: usize,
    taken: u32,
    steps: Ghost<nat>,
}

impl RenderPass {
    /// The raster being rendered.
    pub closed spec fn raster(&self) -> Raster {
        self.raster
    }

    /// Samples averaged into each pixel.
    pub closed spec fn samples(&self) -> nat {
        self.samples_per_pixel as nat
    }

    /// Steps taken since the pass began.
    pub closed spec fn steps_taken(&self) -> nat {
        self.steps@
    }

    /// The step the pass stands at.
    pub open spec fn step_spec(&self) -> RenderStep {
        scheduled(self.raster().columns(), self.raster().rows(), self.samples(), self.steps_taken())
    }

    /// Well-formedness: the position agrees with the steps taken.
    pub closed spec fn wf(&self) -> bool {
        let n = self.raster.columns() * self.raster.rows();
        &&& self.pixel <= n
        &&& self.taken <= self.samples_per_pixel
        &&& self.pixel == n ==> self.taken == 0
        &&& self.steps@ == self.pixel * (self.samples_per_pixel + 1) + self.taken
    }

    /// A pass over `raster` with `samples_per_pixel` samples for each pixel.
    pub fn new(raster: Raster, samples_per_pixel: u32) -> (p: RenderPass)
        ensures
            p.wf(),
            p.raster() == raster,
            p.samples() == samples_per_pixel,
            p.steps_taken() == 0,
    {
        RenderPass { raster, samples_per_pixel, pixel: 0, taken: 0, steps: Ghost(0) }
    }

    /// The step the pass stands at.
    pub fn step(&self) -> (s: RenderStep)
        requires
            self.wf(),
        ensures
            s == self.step_spec(),
    {
        let n = self.raster.pixel_count();
        let w = self.raster.width();
        let ghost period = self.samples_per_pixel + 1;
        proof {
            vstd::arithmetic::div_mod::lemma_fundamental_div_mod_converse(
                self.steps@ as int,
                period as int,
                self.pixel as int,
                self.taken as int,
            );
        }
        if self.pixel >= n {
            return RenderStep::Done;
        }
        proof {
            lemma_position_to_pixel(w as nat, self.pixel as nat);
            lemma_row_fits(w as nat, self.raster.rows(), self.pixel as nat);
        }
        let i = (self.pixel % w as usize) as u32;
        let j = (self.pixel / w as usize) as u32;
        if self.taken < self.samples_per_pixel {
            RenderStep::Sample(i, j)
        } else {
            RenderStep::Emit(i, j)
        }
    }

    /// Moves on past the current step.
    pub fn advance(&mut self)
        requires
            old(self).wf(),
            old(self).step_spec() != RenderStep::Done,
        ensures
            final(self).wf(),
            final(self).raster() == old(self).raster(),
            final(self).samples() == old(self).samples(),
            final(self).steps_taken() == old(self).steps_taken() + 1,
    {
        let n = self.raster.pixel_count();
        proof {
            vstd::arithmetic::div_mod::lemma_fundamental_div_mod_converse(
                self.steps@ as int,
                self.samples_per_pixel + 1,
                self.pixel as int,
                self.taken as int,
            );
        }
        if self.taken < self.samples_per_pixel {
            self.taken = self.taken + 1;
        } else {
            let ghost p = self.pixel as int;
            let ghost period = self.samples_per_pixel + 1;
            proof {
                assert((p + 1) * period == p * period + period) by (nonlinear_arith);
            }
            self.pixel = self.pixel + 1;
            self.taken = 0;
        }
        self.steps = Ghost(self.steps@ + 1);
    }
}

/// A pixel position inside a `width` by `height` raster lies on one of its rows.
proof fn lemma_row_fits(width: nat, height: nat, k: nat)
    requires
        width >= 1,
        k < width * height,
    ensures
        k / width < height,
{
    vstd::arithmetic::mul::lemma_mul_is_commutative(width as int, height as int);
    vstd::arithmetic::div_mod::lemma_multiply_divide_lt(k as int, width as int, height as int);
}

} // verus!
