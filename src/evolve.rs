//! The genetic search for the candidate that best improves the canvas.
use vstd::prelude::*;
use rand::rngs::StdRng;
use crate::candidate::{ALPHA_STEP, COLOR_STEP, Candidate, Config};
use crate::canvas::{Raster, fitness, fitness_spec, same_shape};
use crate::color::Rgb;
use crate::random::draw_below;

verus! {

broadcast use vstd::seq_lib::group_to_multiset_ensures;

/// A candidate with its fitness.
#[derive(Clone, Copy, Debug, PartialEq, Eq, Structural)]
pub struct Scored {
    pub fitness: u128,
    pub candidate: Candidate,
}

/// Fitness never decreases along the sequence.
pub open spec fn sorted_by_fitness(s: Seq<Scored>) -> bool {
    forall|i: int, j: int| 0 <= i < j < s.len() ==> s[i].fitness <= s[j].fitness
}

/// Every entry carries its candidate's true fitness, and every candidate's
/// opacity lies within the bounds.
pub open spec fn well_scored(s: Seq<Scored>, target: Seq<Rgb>, canvas: Seq<Rgb>, config: Config) -> bool {
    forall|i: int|
        0 <= i < s.len() ==> (#[trigger] s[i]).fitness == fitness_spec(
            s[i].candidate,
            target,
            canvas,
        ) && s[i].candidate.fits(config)
}


/// The entries of fitness `f`, in their order.
pub open spec fn with_fitness(s: Seq<Scored>, f: u128) -> Seq<Scored> {
    s.filter(|x: Scored| x.fitness == f)
}

proof fn lemma_with_fitness_push(s: Seq<Scored>, x: Scored, f: u128)
    ensures
        with_fitness(s.push(x), f) == if x.fitness == f {
            with_fitness(s, f).push(x)
        } else {
            with_fitness(s, f)
        },
{
    reveal(Seq::filter);
    assert(s.push(x).drop_last() =~= s);
}

proof fn lemma_with_fitness_none(s: Seq<Scored>, f: u128)
    requires
        forall|k: int| 0 <= k < s.len() ==> (#[trigger] s[k]).fitness != f,
    ensures
        with_fitness(s, f) == Seq::<Scored>::empty(),
    decreases s.len(),
{
    reveal(Seq::filter);
    if s.len() > 0 {
        let rest = s.drop_last();
        assert forall|k: int| 0 <= k < rest.len() implies (#[trigger] rest[k]).fitness != f by {
            assert(rest[k] == s[k]);
        }
        lemma_with_fitness_none(rest, f);
        assert(s.last().fitness != f);
    } else {
        assert(with_fitness(s, f) =~= Seq::<Scored>::empty());
    }
}

proof fn lemma_with_fitness_insert(r: Seq<Scored>, p: int, x: Scored, f: u128)
    requires
        0 <= p <= r.len(),
        forall|k: int| p <= k < r.len() ==> (#[trigger] r[k]).fitness > x.fitness,
    ensures
        with_fitness(r.insert(p, x), f) == if x.fitness == f {
            with_fitness(r, f).push(x)
        } else {
            with_fitness(r, f)
        },
{
    let pred = |y: Scored| y.fitness == f;
    let lo = r.subrange(0, p);
    let hi = r.subrange(p, r.len() as int);
    assert(r =~= lo + hi);
    assert(r.insert(p, x) =~= lo.push(x) + hi);
    Seq::filter_distributes_over_add(lo, hi, pred);
    Seq::filter_distributes_over_add(lo.push(x), hi, pred);
    lemma_with_fitness_push(lo, x, f);
    if x.fitness == f {
        assert forall|k: int| 0 <= k < hi.len() implies (#[trigger] hi[k]).fitness != f by {
            assert(hi[k] == r[p + k]);
        }
        lemma_with_fitness_none(hi, f);
        assert(with_fitness(r, f) =~= with_fitness(lo, f));
        assert(with_fitness(r.insert(p, x), f) =~= with_fitness(lo, f).push(x));
    }
}

/// Stable insertion sort by ascending fitness: entries of equal fitness
/// keep their order.
pub fn sort_by_fitness(v: Vec<Scored>) -> (r: Vec<Scored>)
    ensures
        sorted_by_fitness(r@),
        r@.to_multiset() == v@.to_multiset(),
        forall|f: u128| #[trigger] with_fitness(r@, f) == with_fitness(v@, f),
{
    let mut r: Vec<Scored> = Vec::new();
    let mut i: usize = 0;
    while i < v.len()
        invariant
            i <= v.len(),
            sorted_by_fitness(r@),
            r@.to_multiset() == v@.subrange(0, i as int).to_multiset(),
            forall|f: u128| #[trigger]
                with_fitness(r@, f) == with_fitness(v@.subrange(0, i as int), f),
        decreases v.len() - i,
    {
        let x = v[i];
        let mut p: usize = r.len();
        while p > 0 && r[p - 1].fitness > x.fitness
            invariant
                p <= r.len(),
                forall|k: int| p <= k < r.len() ==> r@[k].fitness > x.fitness,
            decreases p,
        {
            p = p - 1;
        }
        proof {
            assert(v@.subrange(0, i + 1) =~= v@.subrange(0, i as int).push(x));
            vstd::seq_lib::to_multiset_insert(r@, p as int, x);
            assert forall|f: u128| #[trigger]
                with_fitness(r@.insert(p as int, x), f) == with_fitness(
                    v@.subrange(0, i + 1),
                    f,
                ) by {
                lemma_with_fitness_insert(r@, p as int, x, f);
                lemma_with_fitness_push(v@.subrange(0, i as int), x, f);
            }
        }
        r.insert(p, x);
        i = i + 1;
    }
    assert(v@.subrange(0, v.len() as int) =~= v@);
    r
}

fn score(c: Candidate, target: &Raster, canvas: &Raster) -> (s: Scored)
    requires
        same_shape(target, canvas),
    ensures
        s.candidate == c,
        s.fitness == fitness_spec(c, target.pixels@, canvas.pixels@),
{
    Scored { fitness: fitness(&c, target, canvas), candidate: c }
}

/// A first generation of candidates sampled from the target, sorted by
/// fitness.
pub fn initial_population(target: &Raster, canvas: &Raster, config: &Config, rng: &mut StdRng) -> (r:
    Vec<Scored>)
    requires
        same_shape(target, canvas),
        target.pixels.len() > 0,
        config.wf(),
    ensures
        r.len() == config.population,
        sorted_by_fitness(r@),
        well_scored(r@, target.pixels@, canvas.pixels@, *config),
        from_target(r@, target.pixels@),
{
    let mut pop: Vec<Scored> = Vec::new();
    while pop.len() < config.population
        invariant
            same_shape(target, canvas),
            target.pixels.len() > 0,
            config.wf(),
            pop.len() <= config.population,
            well_scored(pop@, target.pixels@, canvas.pixels@, *config),
            from_target(pop@, target.pixels@),
        decreases config.population - pop.len(),
    {
        let c = Candidate::sample_from_image(&target.pixels, config, rng);
        let ghost before = pop@;
        pop.push(score(c, target, canvas));
        proof {
            assert forall|i: int| 0 <= i < pop.len() implies target.pixels@.contains(
                (#[trigger] pop@[i]).candidate.color,
            ) by {
                if i < before.len() {
                    assert(pop@[i] == before[i]);
                }
            }
        }
    }
    let r = sort_by_fitness(pop);
    proof {
        lemma_sorted_keeps_scores(pop@, r@, target.pixels@, canvas.pixels@, *config);
        lemma_same_members(pop@, r@);
        lemma_members_from_target(pop@, r@, target.pixels@);
    }
    r
}

/// Every candidate's color is the color of some target pixel.
pub open spec fn from_target(s: Seq<Scored>, target: Seq<Rgb>) -> bool {
    forall|i: int| 0 <= i < s.len() ==> target.contains((#[trigger] s[i]).candidate.color)
}

/// Each channel of `a` lies within `b` of the same channel of `p`.
pub open spec fn color_near(a: Rgb, p: Rgb, b: int) -> bool {
    -b <= a.r - p.r <= b && -b <= a.g - p.g <= b && -b <= a.b - p.b <= b
}

/// Every candidate's color lies within `b` per channel of some target pixel.
pub open spec fn near_target(s: Seq<Scored>, target: Seq<Rgb>, b: int) -> bool {
    forall|i: int| 0 <= i < s.len() ==> near_some((#[trigger] s[i]).candidate.color, target, b)
}

/// `a` lies within `b` per channel of some pixel of `target`.
pub open spec fn near_some(a: Rgb, target: Seq<Rgb>, b: int) -> bool {
    exists|j: int| 0 <= j < target.len() && color_near(a, #[trigger] target[j], b)
}

proof fn lemma_members_from_target(v: Seq<Scored>, r: Seq<Scored>, target: Seq<Rgb>)
    requires
        from_target(v, target),
        forall|i: int| 0 <= i < r.len() ==> v.contains(#[trigger] r[i]),
    ensures
        from_target(r, target),
{
    assert forall|i: int| 0 <= i < r.len() implies target.contains(
        (#[trigger] r[i]).candidate.color,
    ) by {
        assert(v.contains(r[i]));
        let k = choose|k: int| 0 <= k < v.len() && v[k] == r[i];
        assert(v[k] == r[i]);
    }
}

proof fn lemma_same_members(v: Seq<Scored>, r: Seq<Scored>)
    requires
        r.to_multiset() == v.to_multiset(),
    ensures
        forall|i: int| 0 <= i < r.len() ==> v.contains(#[trigger] r[i]),
{
    assert forall|i: int| 0 <= i < r.len() implies v.contains(#[trigger] r[i]) by {
        assert(r.contains(r[i]));
        assert(r.to_multiset().count(r[i]) > 0);
        assert(v.to_multiset().count(r[i]) > 0);
    }
}

proof fn lemma_sorted_keeps_scores(
    v: Seq<Scored>,
    r: Seq<Scored>,
    target: Seq<Rgb>,
    canvas: Seq<Rgb>,
    config: Config,
)
    requires
        r.to_multiset() == v.to_multiset(),
        well_scored(v, target, canvas, config),
    ensures
        well_scored(r, target, canvas, config),
        r.len() == v.len(),
{
    vstd::seq_lib::to_multiset_len(r);
    vstd::seq_lib::to_multiset_len(v);
    assert forall|i: int| 0 <= i < r.len() implies (#[trigger] r[i]).fitness == fitness_spec(
        r[i].candidate,
        target,
        canvas,
    ) && r[i].candidate.fits(config) by {
        assert(r.contains(r[i]));
        assert(r.to_multiset().count(r[i]) > 0);
        assert(v.to_multiset().count(r[i]) > 0);
        assert(v.contains(r[i]));
        let k = choose|k: int| 0 <= k < v.len() && v[k] == r[i];
        assert(v[k] == r[i]);
    }
}

/// The random choices behind one child of a generation: which entry is
/// copied, and the deltas of its mutation.
#[derive(Clone, Copy, Debug, PartialEq, Eq, Structural)]
pub struct ChildDraw {
    pub pick: usize,
    pub recolor: bool,
    pub dr: i32,
    pub dg: i32,
    pub db: i32,
    pub da: i32,
}

/// The pick lies below `bound` and the deltas within the mutation steps.
pub open spec fn draw_ok(d: ChildDraw, bound: int) -> bool {
    0 <= d.pick < bound && deltas_ok(d)
}

/// The deltas lie within the mutation steps.
pub open spec fn deltas_ok(d: ChildDraw) -> bool {
    &&& -(COLOR_STEP as int) <= d.dr <= COLOR_STEP
    &&& -(COLOR_STEP as int) <= d.dg <= COLOR_STEP
    &&& -(COLOR_STEP as int) <= d.db <= COLOR_STEP
    &&& -(ALPHA_STEP as int) <= d.da <= ALPHA_STEP
}

/// One draw per child: the first `exploit` pick among the elite, the rest
/// among the whole population.
pub open spec fn draws_ok(draws: Seq<ChildDraw>, config: Config) -> bool {
    &&& draws.len() == config.exploit + config.explore
    &&& forall|i: int|
        0 <= i < draws.len() ==> draw_ok(
            #[trigger] draws[i],
            if i < config.exploit {
                config.elite as int
            } else {
                config.population as int
            },
        )
}

/// A candidate with its fitness.
pub open spec fn scored_spec(c: Candidate, target: Seq<Rgb>, canvas: Seq<Rgb>) -> Scored {
    Scored { fitness: fitness_spec(c, target, canvas) as u128, candidate: c }
}

/// The child that draw `d` makes from the population.
pub open spec fn child_spec(
    pop: Seq<Scored>,
    d: ChildDraw,
    config: Config,
    target: Seq<Rgb>,
    canvas: Seq<Rgb>,
) -> Scored {
    scored_spec(
        pop[d.pick as int].candidate.mutated_spec(
            config,
            d.recolor,
            d.dr as int,
            d.dg as int,
            d.db as int,
            d.da as int,
        ),
        target,
        canvas,
    )
}

/// The elite entries followed by one child per draw.
pub open spec fn merged_spec(
    pop: Seq<Scored>,
    draws: Seq<ChildDraw>,
    config: Config,
    target: Seq<Rgb>,
    canvas: Seq<Rgb>,
) -> Seq<Scored> {
    pop.subrange(0, config.elite as int) + Seq::new(
        draws.len(),
        |i: int| child_spec(pop, draws[i], config, target, canvas),
    )
}

proof fn lemma_mutated_near(
    c: Candidate,
    config: Config,
    d: ChildDraw,
    p: Rgb,
    b: int,
)
    requires
        color_near(c.color, p, b),
        deltas_ok(d),
    ensures
        color_near(
            c.mutated_spec(config, d.recolor, d.dr as int, d.dg as int, d.db as int, d.da as int).color,
            p,
            b + COLOR_STEP,
        ),
{
}

/// One generation step for given draws: the elite entries are kept
/// unchanged, each draw adds a mutated copy of the entry it picks, and the lot
/// is sorted by fitness, stably.
pub fn next_generation_from_draws(
    pop: &Vec<Scored>,
    draws: &Vec<ChildDraw>,
    target: &Raster,
    canvas: &Raster,
    config: &Config,
) -> (r: Vec<Scored>)
    requires
        same_shape(target, canvas),
        config.wf(),
        pop.len() == config.population,
        well_scored(pop@, target.pixels@, canvas.pixels@, *config),
        draws_ok(draws@, *config),
    ensures
        sorted_by_fitness(r@),
        r@.to_multiset() == merged_spec(
            pop@,
            draws@,
            *config,
            target.pixels@,
            canvas.pixels@,
        ).to_multiset(),
        r.len() == config.population,
        well_scored(r@, target.pixels@, canvas.pixels@, *config),
        forall|i: int| 0 <= i < config.elite ==> r@.contains(#[trigger] pop@[i]),
        sorted_by_fitness(pop@) ==> r@[0].fitness <= pop@[0].fitness,
        forall|b: int|
            #[trigger] near_target(pop@, target.pixels@, b) ==> near_target(
                r@,
                target.pixels@,
                b + COLOR_STEP,
            ),
{
    let ghost t = target.pixels@;
    let ghost cv = canvas.pixels@;
    let mut next: Vec<Scored> = Vec::new();
    let mut i: usize = 0;
    while i < config.elite
        invariant
            config.wf(),
            pop.len() == config.population,
            i <= config.elite,
            next@ == pop@.subrange(0, i as int),
        decreases config.elite - i,
    {
        next.push(pop[i]);
        i = i + 1;
    }
    proof {
        assert forall|i: int| 0 <= i < next.len() implies (#[trigger] next@[i]).fitness
            == fitness_spec(next@[i].candidate, t, cv) && next@[i].candidate.fits(*config) by {
            assert(next@[i] == pop@[i]);
        }
    }
    let mut n: usize = 0;
    while n < draws.len()
        invariant
            same_shape(target, canvas),
            t == target.pixels@,
            cv == canvas.pixels@,
            config.wf(),
            pop.len() == config.population,
            well_scored(pop@, t, cv, *config),
            draws_ok(draws@, *config),
            n <= draws.len(),
            well_scored(next@, t, cv, *config),
            next@ == pop@.subrange(0, config.elite as int) + Seq::new(
                n as nat,
                |j: int| child_spec(pop@, draws@[j], *config, t, cv),
            ),
        decreases draws.len() - n,
    {
        let d = draws[n];
        assert(draw_ok(draws@[n as int], if n < config.exploit {
            config.elite as int
        } else {
            config.population as int
        }));
        let c = pop[d.pick].candidate.mutated(config, d.recolor, d.dr, d.dg, d.db, d.da);
        let s = score(c, target, canvas);
        let ghost before = next@;
        next.push(s);
        proof {
            assert forall|i: int| 0 <= i < next.len() implies (#[trigger] next@[i]).fitness
                == fitness_spec(next@[i].candidate, t, cv) && next@[i].candidate.fits(*config) by {
                if i < before.len() {
                    assert(next@[i] == before[i]);
                }
            }
            assert(s == child_spec(pop@, draws@[n as int], *config, t, cv));
            assert(next@ =~= pop@.subrange(0, config.elite as int) + Seq::new(
                (n + 1) as nat,
                |j: int| child_spec(pop@, draws@[j], *config, t, cv),
            ));
        }
        n = n + 1;
    }
    let ghost merged = next@;
    proof {
        assert(merged =~= merged_spec(pop@, draws@, *config, t, cv));
    }
    let r = sort_by_fitness(next);
    proof {
        lemma_sorted_keeps_scores(merged, r@, t, cv, *config);
        lemma_same_members(merged, r@);
        assert forall|i: int| 0 <= i < config.elite implies r@.contains(#[trigger] pop@[i]) by {
            assert(merged[i] == pop@[i]);
            assert(merged.contains(pop@[i]));
            assert(merged.to_multiset().count(pop@[i]) > 0);
            assert(r@.to_multiset().count(pop@[i]) > 0);
        }
        if sorted_by_fitness(pop@) {
            assert(r@.contains(pop@[0]));
            let j = choose|j: int| 0 <= j < r.len() && r@[j] == pop@[0];
            if j > 0 {
                assert(r@[0].fitness <= r@[j].fitness);
            }
        }
        assert forall|b: int| #[trigger] near_target(pop@, t, b) implies near_target(
            r@,
            t,
            b + COLOR_STEP,
        ) by {
            assert forall|i: int| 0 <= i < r.len() implies near_some(
                (#[trigger] r@[i]).candidate.color,
                t,
                b + COLOR_STEP,
            ) by {
                assert(merged.contains(r@[i]));
                let m = choose|m: int| 0 <= m < merged.len() && merged[m] == r@[i];
                if m < config.elite {
                    assert(merged[m] == pop@[m]);
                    let j = choose|j: int|
                        0 <= j < t.len() && color_near(pop@[m].candidate.color, t[j], b);
                    assert(color_near(r@[i].candidate.color, t[j], b + COLOR_STEP));
                } else {
                    let d = draws@[m - config.elite];
                    assert(draw_ok(d, if m - config.elite < config.exploit {
                        config.elite as int
                    } else {
                        config.population as int
                    }));
                    let k = d.pick as int;
                    let j = choose|j: int|
                        0 <= j < t.len() && color_near(pop@[k].candidate.color, t[j], b);
                    lemma_mutated_near(pop@[k].candidate, *config, d, t[j], b);
                    assert(merged[m] == child_spec(pop@, d, *config, t, cv));
                }
            }
        }
    }
    r
}

/// Draws the pick and the mutation deltas of one child.
fn draw_child(rng: &mut StdRng, bound: usize) -> (d: ChildDraw)
    requires
        bound > 0,
    ensures
        draw_ok(d, bound as int),
{
    let pick = draw_below(rng, bound as u64) as usize;
    let recolor = draw_below(rng, 2) == 1;
    let span = 2 * COLOR_STEP as u64 + 1;
    let dr = draw_below(rng, span) as i32 - COLOR_STEP as i32;
    let dg = draw_below(rng, span) as i32 - COLOR_STEP as i32;
    let db = draw_below(rng, span) as i32 - COLOR_STEP as i32;
    let da = draw_below(rng, 2 * ALPHA_STEP as u64 + 1) as i32 - ALPHA_STEP as i32;
    ChildDraw { pick, recolor, dr, dg, db, da }
}

/// One generation step: the elite entries are kept unchanged, `exploit`
/// mutated copies of uniformly drawn elite entries and `explore` mutated
/// copies of uniformly drawn entries of the whole population are added, and
/// the lot is sorted by fitness.
pub fn next_generation(
    pop: &Vec<Scored>,
    target: &Raster,
    canvas: &Raster,
    config: &Config,
    rng: &mut StdRng,
) -> (r: Vec<Scored>)
    requires
        same_shape(target, canvas),
        config.wf(),
        pop.len() == config.population,
        well_scored(pop@, target.pixels@, canvas.pixels@, *config),
    ensures
        sorted_by_fitness(r@),
        exists|draws: Seq<ChildDraw>|
            draws_ok(draws, *config) && r@.to_multiset() == (#[trigger] merged_spec(
                pop@,
                draws,
                *config,
                target.pixels@,
                canvas.pixels@,
            )).to_multiset(),
        r.len() == config.population,
        well_scored(r@, target.pixels@, canvas.pixels@, *config),
        forall|i: int| 0 <= i < config.elite ==> r@.contains(#[trigger] pop@[i]),
        sorted_by_fitness(pop@) ==> r@[0].fitness <= pop@[0].fitness,
        forall|b: int|
            #[trigger] near_target(pop@, target.pixels@, b) ==> near_target(
                r@,
                target.pixels@,
                b + COLOR_STEP,
            ),
{
    let mut draws: Vec<ChildDraw> = Vec::new();
    while draws.len() < config.exploit + config.explore
        invariant
            config.wf(),
            draws.len() <= config.exploit + config.explore,
            forall|i: int|
                0 <= i < draws.len() ==> draw_ok(
                    #[trigger] draws@[i],
                    if i < config.exploit {
                        config.elite as int
                    } else {
                        config.population as int
                    },
                ),
        decreases config.exploit + config.explore - draws.len(),
    {
        let bound = if draws.len() < config.exploit {
            config.elite
        } else {
            config.population
        };
        let d = draw_child(rng, bound);
        draws.push(d);
    }
    next_generation_from_draws(pop, &draws, target, canvas, config)
}

/// Runs the genetic search for the current canvas and returns the best
/// candidate of the last generation.
pub fn evolve(target: &Raster, canvas: &Raster, config: &Config, rng: &mut StdRng) -> (c:
    Candidate)
    requires
        same_shape(target, canvas),
        target.pixels.len() > 0,
        config.wf(),
    ensures
        c.fits(*config),
        exists|last: Seq<Scored>|
            last.len() == config.population && sorted_by_fitness(last) && well_scored(
                last,
                target.pixels@,
                canvas.pixels@,
                *config,
            ) && (#[trigger] last[0]).candidate == c,
        exists|first: Seq<Scored>|
            first.len() == config.population && well_scored(
                first,
                target.pixels@,
                canvas.pixels@,
                *config,
            ) && from_target(first, target.pixels@) && forall|i: int|
                0 <= i < first.len() ==> fitness_spec(c, target.pixels@, canvas.pixels@) <= (
                #[trigger] first[i]).fitness,
        near_some(c.color, target.pixels@, COLOR_STEP * config.generations),
{
    let mut pop = initial_population(target, canvas, config, rng);
    let ghost first = pop@;
    proof {
        assert forall|i: int| 0 <= i < pop.len() implies near_some(
            (#[trigger] pop@[i]).candidate.color,
            target.pixels@,
            0,
        ) by {
            assert(target.pixels@.contains(pop@[i].candidate.color));
            let j = choose|j: int|
                0 <= j < target.pixels.len() && target.pixels@[j] == pop@[i].candidate.color;
            assert(color_near(pop@[i].candidate.color, target.pixels@[j], 0));
        }
        assert(COLOR_STEP * 0 == 0);
    }
    let mut g: usize = 0;
    while g < config.generations
        invariant
            same_shape(target, canvas),
            config.wf(),
            g <= config.generations,
            pop.len() == config.population,
            sorted_by_fitness(pop@),
            well_scored(pop@, target.pixels@, canvas.pixels@, *config),
            near_target(pop@, target.pixels@, COLOR_STEP * g),
            first.len() == config.population,
            sorted_by_fitness(first),
            well_scored(first, target.pixels@, canvas.pixels@, *config),
            from_target(first, target.pixels@),
            pop@[0].fitness <= first[0].fitness,
        decreases config.generations - g,
    {
        let next = next_generation(&pop, target, canvas, config, rng);
        assert(near_target(pop@, target.pixels@, COLOR_STEP * g));
        assert(COLOR_STEP * g + COLOR_STEP == COLOR_STEP * (g + 1));
        pop = next;
        g = g + 1;
    }
    let c = pop[0].candidate;
    proof {
        assert forall|i: int| 0 <= i < first.len() implies fitness_spec(
            c,
            target.pixels@,
            canvas.pixels@,
        ) <= (#[trigger] first[i]).fitness by {
            if i > 0 {
                assert(first[0].fitness <= first[i].fitness);
            }
        }
        assert(near_some(pop@[0].candidate.color, target.pixels@, COLOR_STEP * config.generations));
    }
    c
}

} // verus!
