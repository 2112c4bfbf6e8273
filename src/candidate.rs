//! Layer candidates (one color and one opacity), the search configuration,
//! and the sampling and mutation operators.
use vstd::prelude::*;
use rand::rngs::StdRng;
use crate::color::{ALPHA_SCALE, Rgb, black};
use crate::random::draw_below;

verus! {

/// Candidates in one generation.
pub const POPULATION: usize = 100;
/// Best candidates carried into the next generation unchanged.
pub const ELITE: usize = 20;
/// Mutated copies of elite candidates made per generation.
pub const EXPLOIT: usize = 60;
/// Mutated copies of arbitrary candidates made per generation.
pub const EXPLORE: usize = 20;
/// Generations run per layer.
pub const GENERATIONS: usize = 20;
/// Largest change of one color channel in one mutation.
pub const COLOR_STEP: u8 = 5;
/// Largest change of opacity (thousandths) in one mutation.
pub const ALPHA_STEP: u16 = 50;
/// Upper bound on the population size.
pub const MAX_POPULATION: usize = 1_000_000;

/// Opacity bounds of the layers and the budget of the genetic search.
#[derive(Clone, Copy, Debug, PartialEq, Eq, Structural)]
pub struct Config {
    /// Least opacity of a layer, in thousandths.
    pub min_alpha: u16,
    /// Greatest opacity of a layer, in thousandths.
    pub max_alpha: u16,
    pub population: usize,
    pub elite: usize,
    pub exploit: usize,
    pub explore: usize,
    pub generations: usize,
}

/// Why a configuration is rejected.
#[derive(Clone, Copy, Debug, PartialEq, Eq, Structural)]
pub enum ConfigError {
    /// An opacity bound lies above `ALPHA_SCALE`.
    AlphaOutOfRange,
    /// The least opacity exceeds the greatest.
    AlphaBoundsReversed,
    /// The population split does not add up, or has no elite.
    BadBudget,
}

pub open spec fn budget_ok(population: int, elite: int, exploit: int, explore: int) -> bool {
    1 <= elite <= population <= MAX_POPULATION && elite + exploit + explore == population
}

impl Config {
    pub open spec fn wf(&self) -> bool {
        self.min_alpha <= self.max_alpha <= ALPHA_SCALE
            && budget_ok(
            self.population as int,
            self.elite as int,
            self.exploit as int,
            self.explore as int,
        )
    }

    /// Opacity bounds in thousandths, with the standard search budget.
    pub fn new(min_alpha: u16, max_alpha: u16) -> (r: Result<Config, ConfigError>)
        ensures
            min_alpha > ALPHA_SCALE || max_alpha > ALPHA_SCALE ==> r == Err::<
                Config,
                ConfigError,
            >(ConfigError::AlphaOutOfRange),
            min_alpha <= ALPHA_SCALE && max_alpha <= ALPHA_SCALE && min_alpha > max_alpha ==> r
                == Err::<Config, ConfigError>(ConfigError::AlphaBoundsReversed),
            min_alpha <= max_alpha <= ALPHA_SCALE ==> r == Ok::<Config, ConfigError>(
                Config {
                    min_alpha,
                    max_alpha,
                    population: POPULATION,
                    elite: ELITE,
                    exploit: EXPLOIT,
                    explore: EXPLORE,
                    generations: GENERATIONS,
                },
            ),
            r matches Ok(c) ==> c.wf(),
    {
        Config::with_budget(min_alpha, max_alpha, POPULATION, ELITE, EXPLOIT, EXPLORE, GENERATIONS)
    }

    /// Opacity bounds in thousandths, with a search budget of one's own.
    pub fn with_budget(
        min_alpha: u16,
        max_alpha: u16,
        population: usize,
        elite: usize,
        exploit: usize,
        explore: usize,
        generations: usize,
    ) -> (r: Result<Config, ConfigError>)
        ensures
            min_alpha > ALPHA_SCALE || max_alpha > ALPHA_SCALE ==> r == Err::<
                Config,
                ConfigError,
            >(ConfigError::AlphaOutOfRange),
            min_alpha <= ALPHA_SCALE && max_alpha <= ALPHA_SCALE && min_alpha > max_alpha ==> r
                == Err::<Config, ConfigError>(ConfigError::AlphaBoundsReversed),
            min_alpha <= max_alpha <= ALPHA_SCALE && !budget_ok(
                population as int,
                elite as int,
                exploit as int,
                explore as int,
            ) ==> r == Err::<Config, ConfigError>(ConfigError::BadBudget),
            min_alpha <= max_alpha <= ALPHA_SCALE && budget_ok(
                population as int,
                elite as int,
                exploit as int,
                explore as int,
            ) ==> r == Ok::<Config, ConfigError>(
                Config { min_alpha, max_alpha, population, elite, exploit, explore, generations },
            ),
            r matches Ok(c) ==> c.wf(),
    {
        if min_alpha > ALPHA_SCALE || max_alpha > ALPHA_SCALE {
            return Err(ConfigError::AlphaOutOfRange);
        }
        if min_alpha > max_alpha {
            return Err(ConfigError::AlphaBoundsReversed);
        }
        if elite < 1 || elite > population || population > MAX_POPULATION || exploit > population
            || explore > population || elite + exploit + explore != population {
            return Err(ConfigError::BadBudget);
        }
        Ok(Config { min_alpha, max_alpha, population, elite, exploit, explore, generations })
    }
}

/// One proposed layer: a flat color laid at an opacity in thousandths.
#[derive(Clone, Copy, Debug, PartialEq, Eq, Structural)]
pub struct Candidate {
    pub color: Rgb,
    pub alpha: u16,
}

/// `v` clamped into `[lo, hi]`.
pub open spec fn clamp(v: int, lo: int, hi: int) -> int {
    if v < lo {
        lo
    } else if v > hi {
        hi
    } else {
        v
    }
}

/// A color channel moved by `delta` and kept within 8 bits.
pub open spec fn shift_channel(c: u8, delta: int) -> u8 {
    clamp(c + delta, 0, 255) as u8
}

impl Candidate {
    /// The opacity lies within the configured bounds.
    pub open spec fn fits(&self, config: Config) -> bool {
        config.min_alpha <= self.alpha <= config.max_alpha
    }

    /// The spec of `mutated`: either the color moves by the three deltas, or
    /// the opacity moves by `alpha_delta` and is clamped into the bounds.
    pub open spec fn mutated_spec(
        self,
        config: Config,
        recolor: bool,
        dr: int,
        dg: int,
        db: int,
        alpha_delta: int,
    ) -> Candidate {
        if recolor {
            Candidate {
                color: Rgb {
                    r: shift_channel(self.color.r, dr),
                    g: shift_channel(self.color.g, dg),
                    b: shift_channel(self.color.b, db),
                },
                alpha: self.alpha,
            }
        } else {
            Candidate {
                color: self.color,
                alpha: clamp(
                    self.alpha + alpha_delta,
                    config.min_alpha as int,
                    config.max_alpha as int,
                ) as u16,
            }
        }
    }

    /// Black at zero opacity: the candidate that changes nothing.
    pub fn empty() -> (c: Candidate)
        ensures
            c == (Candidate { color: black(), alpha: 0 }),
    {
        Candidate { color: Rgb::black(), alpha: 0 }
    }

    /// The candidate with the color of `pixels[index]` and the opacity
    /// `min_alpha + alpha_offset`.
    pub fn from_draws(pixels: &Vec<Rgb>, config: &Config, index: usize, alpha_offset: u16) -> (c:
        Candidate)
        requires
            index < pixels.len(),
            config.min_alpha + alpha_offset <= config.max_alpha,
        ensures
            c == (Candidate {
                color: pixels@[index as int],
                alpha: (config.min_alpha + alpha_offset) as u16,
            }),
            c.fits(*config),
    {
        Candidate { color: pixels[index], alpha: config.min_alpha + alpha_offset }
    }

    /// A candidate with the color of a uniformly drawn pixel and a uniformly
    /// drawn opacity within the bounds.
    pub fn sample_from_image(pixels: &Vec<Rgb>, config: &Config, rng: &mut StdRng) -> (c:
        Candidate)
        requires
            pixels.len() > 0,
            config.wf(),
        ensures
            exists|i: int| 0 <= i < pixels.len() && c.color == #[trigger] pixels@[i],
            c.fits(*config),
    {
        let index = draw_below(rng, pixels.len() as u64) as usize;
        let span = (config.max_alpha - config.min_alpha) as u64 + 1;
        let offset = draw_below(rng, span) as u16;
        Candidate::from_draws(pixels, config, index, offset)
    }

    /// This candidate mutated by given deltas: with `recolor` each channel
    /// moves by its delta and is clamped into `[0, 255]`; otherwise the
    /// opacity moves by `alpha_delta` and is clamped into the bounds.
    pub fn mutated(
        &self,
        config: &Config,
        recolor: bool,
        dr: i32,
        dg: i32,
        db: i32,
        alpha_delta: i32,
    ) -> (c: Candidate)
        requires
            config.wf(),
            self.fits(*config),
        ensures
            c == self.mutated_spec(
                *config,
                recolor,
                dr as int,
                dg as int,
                db as int,
                alpha_delta as int,
            ),
            c.fits(*config),
    {
        if recolor {
            Candidate {
                color: Rgb {
                    r: shift_channel_exec(self.color.r, dr),
                    g: shift_channel_exec(self.color.g, dg),
                    b: shift_channel_exec(self.color.b, db),
                },
                alpha: self.alpha,
            }
        } else {
            let moved = self.alpha as i64 + alpha_delta as i64;
            let alpha = if moved < config.min_alpha as i64 {
                config.min_alpha
            } else if moved > config.max_alpha as i64 {
                config.max_alpha
            } else {
                moved as u16
            };
            Candidate { color: self.color, alpha }
        }
    }

    /// Mutates in place with random deltas: with even odds, either each color
    /// channel moves by up to `COLOR_STEP` either way, or the opacity moves by
    /// up to `ALPHA_STEP` either way; results are clamped.
    pub fn mutate(&mut self, config: &Config, rng: &mut StdRng)
        requires
            config.wf(),
            old(self).fits(*config),
        ensures
            final(self).fits(*config),
            exists|recolor: bool, dr: int, dg: int, db: int, da: int|
                -(COLOR_STEP as int) <= dr <= COLOR_STEP && -(COLOR_STEP as int) <= dg
                    <= COLOR_STEP && -(COLOR_STEP as int) <= db <= COLOR_STEP && -(
                ALPHA_STEP as int) <= da <= ALPHA_STEP && *final(self) == #[trigger] old(
                    self,
                ).mutated_spec(*config, recolor, dr, dg, db, da),
    {
        let recolor = draw_below(rng, 2) == 1;
        let span = 2 * COLOR_STEP as u64 + 1;
        let dr = draw_below(rng, span) as i32 - COLOR_STEP as i32;
        let dg = draw_below(rng, span) as i32 - COLOR_STEP as i32;
        let db = draw_below(rng, span) as i32 - COLOR_STEP as i32;
        let da = draw_below(rng, 2 * ALPHA_STEP as u64 + 1) as i32 - ALPHA_STEP as i32;
        let next = self.mutated(config, recolor, dr, dg, db, da);
        assert(next == old(self).mutated_spec(
            *config,
            recolor,
            dr as int,
            dg as int,
            db as int,
            da as int,
        ));
        *self = next;
    }
}

fn shift_channel_exec(c: u8, delta: i32) -> (r: u8)
    ensures
        r == shift_channel(c, delta as int),
{
    let moved = c as i64 + delta as i64;
    if moved < 0 {
        0
    } else if moved > 255 {
        255
    } else {
        moved as u8
    }
}

} // verus!
