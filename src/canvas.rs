//! Rasters, the per-pixel decision rule, masks, fitness and compositing.
use vstd::prelude::*;
use crate::candidate::Candidate;
use crate::color::{
    ALPHA_SCALE, Rgb, black, blend, blend_spec, dist, distance, lemma_dist_monotone,
    lemma_sq_dist_nonneg, sq_dist, sq_distance,
};

verus! {

/// Largest distance between two colors, in distance units.
pub const MAX_DISTANCE: u64 = 195840;

/// An RGB image stored row by row.
#[derive(Debug)]
pub struct Raster {
    pub width: usize,
    pub height: usize,
    pub pixels: Vec<Rgb>,
}

/// One boolean per pixel, row by row: where a layer is laid.
#[derive(Debug)]
pub struct Mask {
    pub width: usize,
    pub height: usize,
    pub cells: Vec<bool>,
}

impl Raster {
    pub open spec fn wf(&self) -> bool {
        self.pixels.len() == self.width * self.height
    }

    /// The raster of the given size and row-major pixels, if their number
    /// matches the size.
    pub fn from_pixels(width: usize, height: usize, pixels: Vec<Rgb>) -> (r: Option<Raster>)
        ensures
            pixels.len() == width * height <==> r.is_some(),
            r matches Some(ras) ==> ras.wf() && ras.width == width && ras.height == height
                && ras.pixels@ == pixels@,
    {
        let w = width as u128;
        let h = height as u128;
        assert(w * h <= 0xffff_ffff_ffff_ffff * 0xffff_ffff_ffff_ffff) by (nonlinear_arith)
            requires
                w <= 0xffff_ffff_ffff_ffff,
                h <= 0xffff_ffff_ffff_ffff,
        ;
        if w * h == pixels.len() as u128 {
            Some(Raster { width, height, pixels })
        } else {
            None
        }
    }

    /// A raster of one color; `None` where `width * height` does not fit in
    /// `usize`.
    pub fn filled(width: usize, height: usize, color: Rgb) -> (r: Option<Raster>)
        ensures
            width * height <= usize::MAX <==> r.is_some(),
            r matches Some(ras) ==> ras.wf() && ras.width == width && ras.height == height
                && forall|i: int| 0 <= i < ras.pixels.len() ==> ras.pixels@[i] == color,
    {
        let w = width as u128;
        let h = height as u128;
        assert(w * h <= 0xffff_ffff_ffff_ffff * 0xffff_ffff_ffff_ffff) by (nonlinear_arith)
            requires
                w <= 0xffff_ffff_ffff_ffff,
                h <= 0xffff_ffff_ffff_ffff,
        ;
        if w * h > usize::MAX as u128 {
            return None;
        }
        let n = (w * h) as usize;
        let mut pixels: Vec<Rgb> = Vec::new();
        while pixels.len() < n
            invariant
                pixels.len() <= n,
                forall|i: int| 0 <= i < pixels.len() ==> pixels@[i] == color,
            decreases n - pixels.len(),
        {
            pixels.push(color);
        }
        Some(Raster { width, height, pixels })
    }

    /// A pixel-for-pixel copy.
    pub fn copy(&self) -> (r: Raster)
        ensures
            r.width == self.width,
            r.height == self.height,
            r.pixels@ == self.pixels@,
    {
        let mut pixels: Vec<Rgb> = Vec::new();
        let mut i: usize = 0;
        while i < self.pixels.len()
            invariant
                i <= self.pixels.len(),
                pixels@ == self.pixels@.subrange(0, i as int),
            decreases self.pixels.len() - i,
        {
            pixels.push(self.pixels[i]);
            i = i + 1;
        }
        assert(pixels@ =~= self.pixels@);
        Raster { width: self.width, height: self.height, pixels }
    }
}

/// Two rasters of one size, each holding one pixel per cell.
pub open spec fn same_shape(a: &Raster, b: &Raster) -> bool {
    a.wf() && b.wf() && a.width == b.width && a.height == b.height
}

/// Laying `c` over `current` brings it strictly closer to `target`.
pub open spec fn applies(c: Candidate, current: Rgb, target: Rgb) -> bool {
    sq_dist(blend_spec(c.alpha as int, current, c.color), target) < sq_dist(current, target)
}

/// What a pixel becomes when `c` is laid exactly where it helps.
pub open spec fn outcome(c: Candidate, current: Rgb, target: Rgb) -> Rgb {
    if applies(c, current, target) {
        blend_spec(c.alpha as int, current, c.color)
    } else {
        current
    }
}

/// The decision of every pixel, row by row.
pub open spec fn mask_spec(c: Candidate, target: Seq<Rgb>, canvas: Seq<Rgb>) -> Seq<bool> {
    Seq::new(canvas.len(), |i: int| applies(c, canvas[i], target[i]))
}

/// The canvas after `c` is laid over every pixel that `mask` marks.
pub open spec fn apply_spec(canvas: Seq<Rgb>, c: Candidate, mask: Seq<bool>) -> Seq<Rgb> {
    Seq::new(
        canvas.len(),
        |i: int|
            if mask[i] {
                blend_spec(c.alpha as int, canvas[i], c.color)
            } else {
                canvas[i]
            },
    )
}

/// Sum of the per-pixel outcome distances over the first `n` pixels.
pub open spec fn fitness_upto(c: Candidate, target: Seq<Rgb>, canvas: Seq<Rgb>, n: int) -> int
    decreases n,
{
    if n <= 0 {
        0
    } else {
        fitness_upto(c, target, canvas, n - 1) + dist(
            outcome(c, canvas[n - 1], target[n - 1]),
            target[n - 1],
        )
    }
}

/// Total distance to the target of the canvas that `c` would leave.
pub open spec fn fitness_spec(c: Candidate, target: Seq<Rgb>, canvas: Seq<Rgb>) -> int {
    fitness_upto(c, target, canvas, canvas.len() as int)
}

/// Sum of the per-pixel distances over the first `n` pixels.
pub open spec fn total_dist_upto(canvas: Seq<Rgb>, target: Seq<Rgb>, n: int) -> int
    decreases n,
{
    if n <= 0 {
        0
    } else {
        total_dist_upto(canvas, target, n - 1) + dist(canvas[n - 1], target[n - 1])
    }
}

/// Total distance of a canvas to the target.
pub open spec fn total_dist(canvas: Seq<Rgb>, target: Seq<Rgb>) -> int {
    total_dist_upto(canvas, target, canvas.len() as int)
}

/// Whether laying `c` over `canvas_pixel` brings it strictly closer to
/// `target_pixel`; ties leave the pixel alone.
pub fn should_apply(c: &Candidate, canvas_pixel: Rgb, target_pixel: Rgb) -> (r: bool)
    ensures
        r == applies(*c, canvas_pixel, target_pixel),
{
    let laid = blend(c.alpha, canvas_pixel, c.color);
    sq_distance(laid, target_pixel) < sq_distance(canvas_pixel, target_pixel)
}

/// The mask of every pixel where `c` helps.
pub fn build_mask(c: &Candidate, target: &Raster, canvas: &Raster) -> (m: Mask)
    requires
        same_shape(target, canvas),
    ensures
        m.width == canvas.width,
        m.height == canvas.height,
        m.cells@ == mask_spec(*c, target.pixels@, canvas.pixels@),
{
    let mut cells: Vec<bool> = Vec::new();
    let mut i: usize = 0;
    while i < canvas.pixels.len()
        invariant
            same_shape(target, canvas),
            i <= canvas.pixels.len(),
            cells.len() == i,
            forall|j: int|
                0 <= j < i ==> cells@[j] == applies(
                    *c,
                    canvas.pixels@[j],
                    target.pixels@[j],
                ),
        decreases canvas.pixels.len() - i,
    {
        cells.push(should_apply(c, canvas.pixels[i], target.pixels[i]));
        i = i + 1;
    }
    assert(cells@ =~= mask_spec(*c, target.pixels@, canvas.pixels@));
    Mask { width: canvas.width, height: canvas.height, cells }
}

/// Total distance to the target of the canvas that `c` would leave if laid
/// exactly where it helps. Lower is better.
pub fn fitness(c: &Candidate, target: &Raster, canvas: &Raster) -> (r: u128)
    requires
        same_shape(target, canvas),
    ensures
        r == fitness_spec(*c, target.pixels@, canvas.pixels@),
        r <= canvas.pixels.len() * MAX_DISTANCE,
{
    let mut sum: u128 = 0;
    let mut i: usize = 0;
    while i < canvas.pixels.len()
        invariant
            same_shape(target, canvas),
            i <= canvas.pixels.len(),
            sum == fitness_upto(*c, target.pixels@, canvas.pixels@, i as int),
            sum <= i * MAX_DISTANCE,
        decreases canvas.pixels.len() - i,
    {
        let current = canvas.pixels[i];
        let wanted = target.pixels[i];
        let d = if should_apply(c, current, wanted) {
            distance(blend(c.alpha, current, c.color), wanted)
        } else {
            distance(current, wanted)
        };
        sum = sum + d as u128;
        i = i + 1;
    }
    sum
}

/// Total distance of `canvas` to `target`.
pub fn total_distance(canvas: &Raster, target: &Raster) -> (r: u128)
    requires
        same_shape(target, canvas),
    ensures
        r == total_dist(canvas.pixels@, target.pixels@),
        r <= canvas.pixels.len() * MAX_DISTANCE,
{
    let mut sum: u128 = 0;
    let mut i: usize = 0;
    while i < canvas.pixels.len()
        invariant
            same_shape(target, canvas),
            i <= canvas.pixels.len(),
            sum == total_dist_upto(canvas.pixels@, target.pixels@, i as int),
            sum <= i * MAX_DISTANCE,
        decreases canvas.pixels.len() - i,
    {
        sum = sum + distance(canvas.pixels[i], target.pixels[i]) as u128;
        i = i + 1;
    }
    sum
}

/// Lays `c` over every pixel of `canvas` that `mask` marks; the others stay.
pub fn apply(canvas: &mut Raster, c: &Candidate, mask: &Mask)
    requires
        mask.cells.len() == old(canvas).pixels.len(),
    ensures
        final(canvas).width == old(canvas).width,
        final(canvas).height == old(canvas).height,
        final(canvas).pixels@ == apply_spec(old(canvas).pixels@, *c, mask.cells@),
{
    let mut i: usize = 0;
    while i < canvas.pixels.len()
        invariant
            mask.cells.len() == old(canvas).pixels.len(),
            canvas.pixels.len() == old(canvas).pixels.len(),
            canvas.width == old(canvas).width,
            canvas.height == old(canvas).height,
            i <= canvas.pixels.len(),
            forall|j: int|
                0 <= j < i ==> canvas.pixels@[j] == apply_spec(
                    old(canvas).pixels@,
                    *c,
                    mask.cells@,
                )[j],
            forall|j: int| i <= j < canvas.pixels.len() ==> canvas.pixels@[j] == old(
                canvas,
            ).pixels@[j],
        decreases canvas.pixels.len() - i,
    {
        if mask.cells[i] {
            let laid = blend(c.alpha, canvas.pixels[i], c.color);
            canvas.pixels.set(i, laid);
        }
        i = i + 1;
    }
    assert(canvas.pixels@ =~= apply_spec(old(canvas).pixels@, *c, mask.cells@));
}

/// Laying a candidate through its own mask never moves a pixel away from the
/// target, in squared distance or in distance.
pub proof fn lemma_apply_never_worsens(c: Candidate, target: Seq<Rgb>, canvas: Seq<Rgb>)
    requires
        target.len() == canvas.len(),
    ensures
        forall|i: int|
            0 <= i < canvas.len() ==> sq_dist(
                #[trigger] apply_spec(canvas, c, mask_spec(c, target, canvas))[i],
                target[i],
            ) <= sq_dist(canvas[i], target[i]) && dist(
                apply_spec(canvas, c, mask_spec(c, target, canvas))[i],
                target[i],
            ) <= dist(canvas[i], target[i]),
{
    assert forall|i: int| 0 <= i < canvas.len() implies sq_dist(
        #[trigger] apply_spec(canvas, c, mask_spec(c, target, canvas))[i],
        target[i],
    ) <= sq_dist(canvas[i], target[i]) && dist(
        apply_spec(canvas, c, mask_spec(c, target, canvas))[i],
        target[i],
    ) <= dist(canvas[i], target[i]) by {
        let after = apply_spec(canvas, c, mask_spec(c, target, canvas))[i];
        lemma_dist_monotone(after, target[i], canvas[i], target[i]);
    }
}

/// Fitness is a function of the candidate, the target and the canvas alone.
pub proof fn lemma_fitness_deterministic(
    c1: Candidate,
    c2: Candidate,
    target1: Seq<Rgb>,
    target2: Seq<Rgb>,
    canvas1: Seq<Rgb>,
    canvas2: Seq<Rgb>,
)
    requires
        c1 == c2,
        target1 == target2,
        canvas1 == canvas2,
    ensures
        fitness_spec(c1, target1, canvas1) == fitness_spec(c2, target2, canvas2),
{
}

proof fn lemma_mask_fitness_upto(c: Candidate, target: Seq<Rgb>, canvas: Seq<Rgb>, n: int)
    requires
        target.len() == canvas.len(),
        0 <= n <= canvas.len(),
    ensures
        total_dist_upto(apply_spec(canvas, c, mask_spec(c, target, canvas)), target, n)
            == fitness_upto(c, target, canvas, n),
    decreases n,
{
    if n > 0 {
        lemma_mask_fitness_upto(c, target, canvas, n - 1);
    }
}

/// Laying a candidate through its own mask leaves a canvas whose total
/// distance to the target is the candidate's fitness.
pub proof fn lemma_mask_fitness_consistent(c: Candidate, target: Seq<Rgb>, canvas: Seq<Rgb>)
    requires
        target.len() == canvas.len(),
    ensures
        total_dist(apply_spec(canvas, c, mask_spec(c, target, canvas)), target) == fitness_spec(
            c,
            target,
            canvas,
        ),
{
    lemma_mask_fitness_upto(c, target, canvas, canvas.len() as int);
}

proof fn lemma_matched_fitness_upto(c: Candidate, target: Seq<Rgb>, n: int)
    requires
        0 <= n <= target.len(),
    ensures
        fitness_upto(c, target, target, n) == 0,
    decreases n,
{
    if n > 0 {
        lemma_matched_fitness_upto(c, target, n - 1);
        let t = target[n - 1];
        lemma_sq_dist_nonneg(blend_spec(c.alpha as int, t, c.color), t);
        lemma_sq_dist_nonneg(t, t);
        assert(outcome(c, t, t) == t);
        assert(dist(t, t) == 0) by {
            assert(sq_dist(t, t) == 0);
            reveal_with_fuel(crate::color::isqrt, 1);
        }
    }
}

/// On a canvas that already equals the target no candidate changes
/// anything, and the fitness is zero; in particular that of the empty one.
pub proof fn lemma_matched_fitness_zero(c: Candidate, target: Seq<Rgb>)
    ensures
        fitness_spec(c, target, target) == 0,
        mask_spec(c, target, target) == Seq::new(target.len(), |i: int| false),
{
    lemma_matched_fitness_upto(c, target, target.len() as int);
    assert forall|i: int| 0 <= i < target.len() implies !applies(c, target[i], target[i]) by {
        lemma_sq_dist_nonneg(blend_spec(c.alpha as int, target[i], c.color), target[i]);
        lemma_sq_dist_nonneg(target[i], target[i]);
    }
    assert(mask_spec(c, target, target) =~= Seq::new(target.len(), |i: int| false));
}

/// An opaque candidate laid over a black canvas is never laid where the target
/// is black, and is laid wherever the target has exactly its color.
pub proof fn lemma_opaque_mask_on_black(c: Candidate, target: Seq<Rgb>, canvas: Seq<Rgb>)
    requires
        c.alpha == ALPHA_SCALE,
        target.len() == canvas.len(),
        forall|i: int| 0 <= i < canvas.len() ==> canvas[i] == black(),
    ensures
        forall|i: int|
            0 <= i < target.len() ==> (target[i] == black() ==> !#[trigger] mask_spec(
                c,
                target,
                canvas,
            )[i]) && (target[i] == c.color && c.color != black() ==> mask_spec(
                c,
                target,
                canvas,
            )[i]),
{
    assert forall|i: int| 0 <= i < target.len() implies (target[i] == black() ==> !
    #[trigger] mask_spec(c, target, canvas)[i]) && (target[i] == c.color && c.color != black()
        ==> mask_spec(c, target, canvas)[i]) by {
        let laid = blend_spec(c.alpha as int, canvas[i], c.color);
        crate::color::lemma_blend_opaque(canvas[i], c.color);
        assert(laid == c.color);
        lemma_sq_dist_nonneg(laid, target[i]);
        lemma_sq_dist_nonneg(canvas[i], target[i]);
    }
}

} // verus!
