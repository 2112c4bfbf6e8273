//! The layer pipeline: search, mask, composite and record, layer by layer.
use vstd::prelude::*;
use rand::rngs::StdRng;
use crate::candidate::{Candidate, Config};
use crate::canvas::{
    MAX_DISTANCE, Mask, Raster, apply, apply_spec, build_mask, fitness, fitness_spec, mask_spec,
    same_shape,
};
use crate::color::black;
use crate::evolve::evolve;

verus! {

/// One committed layer: the candidate and the pixels it was laid over.
#[derive(Debug)]
pub struct LayerRecord {
    pub candidate: Candidate,
    pub mask: Mask,
}

/// Everything a run of the pipeline produces.
#[derive(Debug)]
pub struct LayerRun {
    /// The canvas after the last layer.
    pub canvas: Raster,
    /// The committed layers, in order.
    pub records: Vec<LayerRecord>,
    /// The canvas before the first layer and after each layer.
    pub history: Vec<Raster>,
    /// For each layer, how far the canvas had come from the base towards the
    /// target, in percent (see `progress_percent`).
    pub progress: Vec<i128>,
}

/// Why a run is refused before any search.
#[derive(Clone, Copy, Debug, PartialEq, Eq, Structural)]
pub enum RunError {
    /// The target has no pixel.
    EmptyTarget,
    /// Target and base canvas differ in size, or hold the wrong pixel count.
    ShapeMismatch,
    /// The configuration breaks its bounds.
    BadConfig,
}

/// Improvement from `baseline` to `current` as a percentage of `baseline`,
/// rounded towards zero; 100 when `baseline` is zero.
pub open spec fn progress_spec(baseline: int, current: int) -> int {
    if baseline == 0 {
        100
    } else if current <= baseline {
        (100 * (baseline - current)) / baseline
    } else {
        -((100 * (current - baseline)) / baseline)
    }
}

/// How far `current` has come from `baseline` towards zero, in percent
/// rounded towards zero; 100 where there was nothing to improve.
pub fn progress_percent(baseline: u128, current: u128) -> (r: i128)
    requires
        baseline <= usize::MAX * MAX_DISTANCE,
        current <= usize::MAX * MAX_DISTANCE,
    ensures
        r == progress_spec(baseline as int, current as int),
{
    if baseline == 0 {
        100
    } else if current <= baseline {
        (100 * (baseline - current) / baseline) as i128
    } else {
        let d = 100 * (current - baseline);
        let q = d / baseline;
        assert(q <= d) by (nonlinear_arith)
            requires
                q == d / baseline,
                baseline >= 1,
        ;
        -(q as i128)
    }
}

/// The pipeline's promise for the first `n` layers of a run.
pub open spec fn layers_follow(
    target: Seq<crate::color::Rgb>,
    baseline: int,
    records: Seq<LayerRecord>,
    history: Seq<Raster>,
    progress: Seq<i128>,
    config: Config,
    n: int,
) -> bool {
    &&& records.len() == n
    &&& history.len() == n + 1
    &&& progress.len() == n
    &&& forall|k: int|
        0 <= k < n ==> {
            let rec = #[trigger] records[k];
            &&& rec.candidate.fits(config)
            &&& rec.mask.cells@ == mask_spec(rec.candidate, target, history[k].pixels@)
            &&& history[k + 1].pixels@ == apply_spec(
                history[k].pixels@,
                rec.candidate,
                rec.mask.cells@,
            )
            &&& progress[k] == progress_spec(
                baseline,
                fitness_spec(rec.candidate, target, history[k].pixels@),
            )
        }
}

/// Whether the configuration keeps its bounds.
pub fn config_ok(config: &Config) -> (r: bool)
    ensures
        r == config.wf(),
{
    config.min_alpha <= config.max_alpha && config.max_alpha <= crate::color::ALPHA_SCALE
        && config.elite >= 1 && config.elite <= config.population && config.population
        <= crate::candidate::MAX_POPULATION && config.exploit <= config.population
        && config.explore <= config.population && config.elite + config.exploit + config.explore
        == config.population
}

/// Lays `layers` layers over `base`, each the result of a genetic search,
/// laid exactly where it brings a pixel closer to `target`.
pub fn run_layers(
    target: &Raster,
    base: Raster,
    layers: usize,
    config: &Config,
    rng: &mut StdRng,
) -> (r: Result<LayerRun, RunError>)
    ensures
        r is Err <==> (target.pixels.len() == 0 || !same_shape(target, &base) || !config.wf()),
        target.pixels.len() == 0 ==> r == Err::<LayerRun, RunError>(RunError::EmptyTarget),
        target.pixels.len() > 0 && !same_shape(target, &base) ==> r == Err::<
            LayerRun,
            RunError,
        >(RunError::ShapeMismatch),
        target.pixels.len() > 0 && same_shape(target, &base) && !config.wf() ==> r == Err::<
            LayerRun,
            RunError,
        >(RunError::BadConfig),
        r matches Ok(run) ==> {
            &&& layers_follow(
                target.pixels@,
                fitness_spec(Candidate { color: black(), alpha: 0 }, target.pixels@, base.pixels@),
                run.records@,
                run.history@,
                run.progress@,
                *config,
                layers as int,
            )
            &&& run.history@[0].pixels@ == base.pixels@
            &&& run.canvas.pixels@ == run.history@[layers as int].pixels@
            &&& forall|k: int| 0 <= k <= layers ==> same_shape(target, &#[trigger] run.history@[k])
        },
{
    if target.pixels.len() == 0 {
        return Err(RunError::EmptyTarget);
    }
    if !(target.width == base.width && target.height == base.height
        && target.pixels.len() == base.pixels.len() && check_shape(target)) {
        return Err(RunError::ShapeMismatch);
    }
    if !config_ok(config) {
        return Err(RunError::BadConfig);
    }
    let ghost base_pixels = base.pixels@;
    let mut canvas = base;
    let baseline = fitness(&Candidate::empty(), target, &canvas);
    let mut records: Vec<LayerRecord> = Vec::new();
    let mut history: Vec<Raster> = Vec::new();
    let mut progress: Vec<i128> = Vec::new();
    history.push(canvas.copy());
    let mut layer: usize = 0;
    while layer < layers
        invariant
            same_shape(target, &canvas),
            target.pixels.len() > 0,
            config.wf(),
            layer <= layers,
            baseline == fitness_spec(
                Candidate { color: black(), alpha: 0 },
                target.pixels@,
                history@[0].pixels@,
            ),
            baseline <= target.pixels.len() * MAX_DISTANCE,
            layers_follow(
                target.pixels@,
                baseline as int,
                records@,
                history@,
                progress@,
                *config,
                layer as int,
            ),
            history@[layer as int].pixels@ == canvas.pixels@,
            history@[0].pixels@ == base_pixels,
            forall|k: int| 0 <= k <= layer ==> same_shape(target, &#[trigger] history@[k]),
        decreases layers - layer,
    {
        let best = evolve(target, &canvas, config, rng);
        let current = fitness(&best, target, &canvas);
        let pct = progress_percent(baseline, current);
        let mask = build_mask(&best, target, &canvas);
        apply(&mut canvas, &best, &mask);
        let ghost prev_history = history@;
        let ghost prev_records = records@;
        let ghost prev_progress = progress@;
        history.push(canvas.copy());
        records.push(LayerRecord { candidate: best, mask });
        progress.push(pct);
        proof {
            assert(records@ == prev_records.push(LayerRecord { candidate: best, mask }));
            assert forall|k: int| 0 <= k < layer + 1 implies {
                let rec = #[trigger] records@[k];
                &&& rec.candidate.fits(*config)
                &&& rec.mask.cells@ == mask_spec(rec.candidate, target.pixels@, history@[k].pixels@)
                &&& history@[k + 1].pixels@ == apply_spec(
                    history@[k].pixels@,
                    rec.candidate,
                    rec.mask.cells@,
                )
                &&& progress@[k] == progress_spec(
                    baseline as int,
                    fitness_spec(rec.candidate, target.pixels@, history@[k].pixels@),
                )
            } by {
                assert(history@[0] == prev_history[0]);
                if k < layer {
                    assert(records@[k] == prev_records[k]);
                    assert(history@[k] == prev_history[k]);
                    assert(history@[k + 1] == prev_history[k + 1]);
                    assert(progress@[k] == prev_progress[k]);
                }
            }
        }
        layer = layer + 1;
    }
    Ok(LayerRun { canvas, records, history, progress })
}

fn check_shape(r: &Raster) -> (ok: bool)
    ensures
        ok == r.wf(),
{
    let w = r.width as u128;
    let h = r.height as u128;
    assert(w * h <= 0xffff_ffff_ffff_ffff * 0xffff_ffff_ffff_ffff) by (nonlinear_arith)
        requires
            w <= 0xffff_ffff_ffff_ffff,
            h <= 0xffff_ffff_ffff_ffff,
    ;
    w * h == r.pixels.len() as u128
}

} // verus!
