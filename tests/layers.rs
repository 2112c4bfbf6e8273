use layer_stack::candidate::{Candidate, Config, ConfigError};
use layer_stack::canvas::{
    apply, build_mask, fitness, should_apply, total_distance, Raster,
};
use layer_stack::color::{blend, distance, sq_distance, Rgb};
use layer_stack::evolve::{
    evolve, initial_population, next_generation, next_generation_from_draws, sort_by_fitness,
    ChildDraw, Scored,
};
use layer_stack::pipeline::{progress_percent, run_layers, RunError};
use rand::rngs::StdRng;
use rand::SeedableRng;

fn raster(width: usize, height: usize, pixels: Vec<Rgb>) -> Raster {
    Raster::from_pixels(width, height, pixels).unwrap()
}

fn black_canvas(width: usize, height: usize) -> Raster {
    Raster::filled(width, height, Rgb::black()).unwrap()
}

fn gradient(width: usize, height: usize) -> Raster {
    let mut pixels = Vec::new();
    for y in 0..height {
        for x in 0..width {
            pixels.push(Rgb::new((x * 37 % 256) as u8, (y * 53 % 256) as u8, ((x + y) * 11 % 256) as u8));
        }
    }
    raster(width, height, pixels)
}

fn small_config(min_alpha: u16, max_alpha: u16) -> Config {
    Config::with_budget(min_alpha, max_alpha, 20, 4, 12, 4, 5).unwrap()
}

#[test]
fn scenario_single_pixel_exact_match() {
    let target = raster(1, 1, vec![Rgb::new(200, 200, 200)]);
    let mut canvas = black_canvas(1, 1);
    let c = Candidate { color: Rgb::new(200, 200, 200), alpha: 1000 };
    assert_eq!(fitness(&c, &target, &canvas), 0);
    let mask = build_mask(&c, &target, &canvas);
    assert_eq!(mask.cells, vec![true]);
    apply(&mut canvas, &c, &mask);
    assert_eq!(canvas.pixels, vec![Rgb::new(200, 200, 200)]);
}

#[test]
fn scenario_empty_candidate_on_matched_canvas() {
    let target = gradient(4, 3);
    let canvas = target.copy();
    assert_eq!(fitness(&Candidate::empty(), &target, &canvas), 0);
    let mask = build_mask(&Candidate::empty(), &target, &canvas);
    assert!(mask.cells.iter().all(|&b| !b));
}

#[test]
fn scenario_replay_reproduces_each_layer() {
    let target = gradient(5, 4);
    let config = small_config(200, 1000);
    let mut rng = StdRng::seed_from_u64(7);
    let run = run_layers(&target, black_canvas(5, 4), 3, &config, &mut rng).unwrap();
    assert_eq!(run.history.len(), 4);
    assert_eq!(run.records.len(), 3);
    for (k, rec) in run.records.iter().enumerate() {
        for _ in 0..3 {
            let mut replay = run.history[k].copy();
            apply(&mut replay, &rec.candidate, &rec.mask);
            assert_eq!(replay.pixels, run.history[k + 1].pixels);
        }
    }
    assert_eq!(run.canvas.pixels, run.history[3].pixels);
}

#[test]
fn scenario_opaque_single_layer_covers_non_black() {
    let c = Rgb::new(90, 30, 200);
    let k = Rgb::black();
    let target = raster(3, 2, vec![c, k, c, c, k, c]);
    let config = Config::new(1000, 1000).unwrap();
    let mut rng = StdRng::seed_from_u64(11);
    let run = run_layers(&target, black_canvas(3, 2), 1, &config, &mut rng).unwrap();
    let rec = &run.records[0];
    assert_eq!(rec.candidate.alpha, 1000);
    let expected: Vec<bool> = target.pixels.iter().map(|p| *p != k).collect();
    assert_eq!(rec.mask.cells, expected);
}

#[test]
fn apply_through_own_mask_never_worsens() {
    let target = gradient(6, 5);
    let before = raster(6, 5, (0..30).map(|i| Rgb::new((i * 7) as u8, 100, (255 - i * 3) as u8)).collect());
    for (color, alpha) in [(Rgb::new(10, 200, 30), 300u16), (Rgb::new(250, 0, 120), 1000), (Rgb::new(128, 128, 128), 550)] {
        let cand = Candidate { color, alpha };
        let mask = build_mask(&cand, &target, &before);
        let mut after = before.copy();
        apply(&mut after, &cand, &mask);
        for i in 0..30 {
            assert!(distance(after.pixels[i], target.pixels[i]) <= distance(before.pixels[i], target.pixels[i]));
            assert!(sq_distance(after.pixels[i], target.pixels[i]) <= sq_distance(before.pixels[i], target.pixels[i]));
        }
    }
}

#[test]
fn fitness_is_repeatable() {
    let target = gradient(7, 3);
    let canvas = black_canvas(7, 3);
    let cand = Candidate { color: Rgb::new(40, 80, 120), alpha: 640 };
    let first = fitness(&cand, &target, &canvas);
    for _ in 0..5 {
        assert_eq!(fitness(&cand, &target, &canvas), first);
    }
}

#[test]
fn mutation_stays_in_bounds() {
    let config = small_config(300, 420);
    let mut rng = StdRng::seed_from_u64(3);
    let mut cand = Candidate { color: Rgb::new(2, 253, 128), alpha: 300 };
    for _ in 0..2000 {
        let before = cand;
        cand.mutate(&config, &mut rng);
        assert!(cand.alpha >= 300 && cand.alpha <= 420);
        let moved = |a: u8, b: u8| (a as i32 - b as i32).abs() <= 5;
        assert!(moved(cand.color.r, before.color.r) && moved(cand.color.g, before.color.g) && moved(cand.color.b, before.color.b));
        assert!((cand.alpha as i32 - before.alpha as i32).abs() <= 50);
        assert!(cand.color == before.color || cand.alpha == before.alpha);
    }
}

#[test]
fn mutated_clamps_channels_and_alpha() {
    let config = small_config(300, 420);
    let cand = Candidate { color: Rgb::new(2, 253, 128), alpha: 400 };
    let recolored = cand.mutated(&config, true, -5, 5, -3, 40);
    assert_eq!(recolored, Candidate { color: Rgb::new(0, 255, 125), alpha: 400 });
    let faded = cand.mutated(&config, false, -5, 5, -3, 40);
    assert_eq!(faded, Candidate { color: Rgb::new(2, 253, 128), alpha: 420 });
    let low = Candidate { color: cand.color, alpha: 310 }.mutated(&config, false, 0, 0, 0, -50);
    assert_eq!(low.alpha, 300);
}

#[test]
fn generations_keep_size_and_never_lose_the_best() {
    let target = gradient(6, 6);
    let canvas = black_canvas(6, 6);
    let config = Config::new(200, 1000).unwrap();
    let mut rng = StdRng::seed_from_u64(5);
    let mut pop = initial_population(&target, &canvas, &config, &mut rng);
    assert_eq!(pop.len(), 100);
    for _ in 0..5 {
        let next = next_generation(&pop, &target, &canvas, &config, &mut rng);
        assert_eq!(next.len(), 100);
        assert!(next[0].fitness <= pop[0].fitness);
        for w in next.windows(2) {
            assert!(w[0].fitness <= w[1].fitness);
        }
        for s in next.iter() {
            assert_eq!(s.fitness, fitness(&s.candidate, &target, &canvas));
        }
        for e in pop[0..20].iter() {
            assert!(next.contains(e));
        }
        pop = next;
    }
}

#[test]
fn mask_and_fitness_agree() {
    let target = gradient(5, 5);
    let canvas = raster(5, 5, (0..25).map(|i| Rgb::new(60, (i * 9) as u8, 10)).collect());
    for (color, alpha) in [(Rgb::new(0, 0, 0), 0u16), (Rgb::new(120, 40, 220), 700), (Rgb::new(255, 255, 255), 150)] {
        let cand = Candidate { color, alpha };
        let mask = build_mask(&cand, &target, &canvas);
        let mut after = canvas.copy();
        apply(&mut after, &cand, &mask);
        assert_eq!(total_distance(&after, &target), fitness(&cand, &target, &canvas));
    }
}

#[test]
fn blend_rounds_to_nearest() {
    let white = Rgb::new(255, 255, 255);
    assert_eq!(blend(500, Rgb::black(), white), Rgb::new(128, 128, 128));
    assert_eq!(blend(250, Rgb::new(100, 0, 40), Rgb::new(200, 0, 40)), Rgb::new(125, 0, 40));
    assert_eq!(blend(0, Rgb::new(1, 2, 3), white), Rgb::new(1, 2, 3));
    assert_eq!(blend(1000, Rgb::new(1, 2, 3), white), white);
    assert_eq!(blend(4000, Rgb::new(1, 2, 3), white), white);
}

#[test]
fn distance_in_fixed_point_units() {
    assert_eq!(sq_distance(Rgb::black(), Rgb::new(3, 4, 0)), 25);
    assert_eq!(distance(Rgb::black(), Rgb::new(3, 4, 0)), 1280);
    assert_eq!(distance(Rgb::black(), Rgb::new(1, 1, 0)), 362);
    assert_eq!(distance(Rgb::new(9, 9, 9), Rgb::new(9, 9, 9)), 0);
    assert_eq!(distance(Rgb::black(), Rgb::new(255, 255, 255)), 113068);
}

#[test]
fn ties_leave_pixel_alone() {
    let cand = Candidate { color: Rgb::new(50, 50, 50), alpha: 1000 };
    assert!(!should_apply(&cand, Rgb::new(40, 40, 40), Rgb::new(45, 45, 45)));
    assert!(should_apply(&cand, Rgb::new(40, 40, 40), Rgb::new(46, 46, 46)));
}

#[test]
fn config_rejects_bad_bounds() {
    assert_eq!(Config::new(0, 1001), Err(ConfigError::AlphaOutOfRange));
    assert_eq!(Config::new(700, 300), Err(ConfigError::AlphaBoundsReversed));
    assert_eq!(Config::with_budget(0, 1000, 100, 20, 60, 21, 20), Err(ConfigError::BadBudget));
    assert_eq!(Config::with_budget(0, 1000, 10, 0, 5, 5, 20), Err(ConfigError::BadBudget));
    let c = Config::new(200, 1000).unwrap();
    assert_eq!((c.population, c.elite, c.exploit, c.explore, c.generations), (100, 20, 60, 20, 20));
}

#[test]
fn run_rejects_bad_inputs() {
    let config = small_config(0, 1000);
    let mut rng = StdRng::seed_from_u64(1);
    let empty = raster(0, 0, vec![]);
    assert_eq!(run_layers(&empty, black_canvas(0, 0), 1, &config, &mut rng).err(), Some(RunError::EmptyTarget));
    assert_eq!(run_layers(&gradient(2, 2), black_canvas(3, 2), 1, &config, &mut rng).err(), Some(RunError::ShapeMismatch));
    let mut bad = config;
    bad.min_alpha = 900;
    bad.max_alpha = 100;
    assert_eq!(run_layers(&gradient(2, 2), black_canvas(2, 2), 1, &bad, &mut rng).err(), Some(RunError::BadConfig));
}

#[test]
fn run_with_no_layers_keeps_base() {
    let config = small_config(0, 1000);
    let mut rng = StdRng::seed_from_u64(2);
    let run = run_layers(&gradient(3, 3), black_canvas(3, 3), 0, &config, &mut rng).unwrap();
    assert_eq!(run.history.len(), 1);
    assert!(run.records.is_empty());
    assert_eq!(run.canvas.pixels, black_canvas(3, 3).pixels);
}

#[test]
fn progress_guards_zero_baseline() {
    assert_eq!(progress_percent(0, 0), 100);
    assert_eq!(progress_percent(200, 50), 75);
    assert_eq!(progress_percent(300, 0), 100);
    assert_eq!(progress_percent(100, 150), -50);
}

#[test]
fn run_reports_progress_per_layer() {
    let target = gradient(4, 4);
    let config = small_config(500, 1000);
    let mut rng = StdRng::seed_from_u64(9);
    let run = run_layers(&target, black_canvas(4, 4), 2, &config, &mut rng).unwrap();
    let baseline = fitness(&Candidate::empty(), &target, &run.history[0]);
    for k in 0..2 {
        let current = fitness(&run.records[k].candidate, &target, &run.history[k]);
        assert_eq!(run.progress[k], progress_percent(baseline, current));
        assert!(run.progress[k] >= 0 && run.progress[k] <= 100);
    }
}

#[test]
fn sample_uses_image_colors_and_alpha_bounds() {
    let mut rng = StdRng::seed_from_u64(4);
    let config = small_config(300, 300);
    let one = vec![Rgb::new(5, 6, 7)];
    let c = Candidate::sample_from_image(&one, &config, &mut rng);
    assert_eq!(c, Candidate { color: Rgb::new(5, 6, 7), alpha: 300 });
    let pixels = gradient(4, 4).pixels;
    let wide = small_config(100, 900);
    for _ in 0..200 {
        let c = Candidate::sample_from_image(&pixels, &wide, &mut rng);
        assert!(pixels.contains(&c.color));
        assert!(c.alpha >= 100 && c.alpha <= 900);
    }
}

#[test]
fn from_draws_picks_pixel_and_offset() {
    let pixels = vec![Rgb::new(1, 1, 1), Rgb::new(2, 2, 2)];
    let config = small_config(100, 900);
    assert_eq!(Candidate::from_draws(&pixels, &config, 1, 50), Candidate { color: Rgb::new(2, 2, 2), alpha: 150 });
}

#[test]
fn sort_is_stable_and_ascending() {
    let mk = |f: u128, a: u16| Scored { fitness: f, candidate: Candidate { color: Rgb::black(), alpha: a } };
    let sorted = sort_by_fitness(vec![mk(5, 1), mk(2, 2), mk(5, 3), mk(0, 4), mk(2, 5)]);
    let alphas: Vec<u16> = sorted.iter().map(|s| s.candidate.alpha).collect();
    assert_eq!(alphas, vec![4, 2, 5, 1, 3]);
}

#[test]
fn raster_constructors_check_size() {
    assert!(Raster::from_pixels(2, 2, vec![Rgb::black(); 3]).is_none());
    let r = Raster::filled(3, 2, Rgb::new(1, 2, 3)).unwrap();
    assert_eq!(r.pixels.len(), 6);
    assert!(Raster::filled(usize::MAX, 2, Rgb::black()).is_none());
}

#[test]
fn generation_from_draws_is_exact() {
    let target = gradient(3, 3);
    let canvas = black_canvas(3, 3);
    let config = Config::with_budget(200, 800, 4, 2, 1, 1, 1).unwrap();
    let scored = |c: Candidate| Scored { fitness: fitness(&c, &target, &canvas), candidate: c };
    let pop = sort_by_fitness(vec![
        scored(Candidate { color: Rgb::new(10, 20, 30), alpha: 500 }),
        scored(Candidate { color: Rgb::new(200, 20, 30), alpha: 300 }),
        scored(Candidate { color: Rgb::new(0, 250, 100), alpha: 800 }),
        scored(Candidate { color: Rgb::new(90, 90, 90), alpha: 210 }),
    ]);
    let draws = vec![
        ChildDraw { pick: 1, recolor: true, dr: 5, dg: -5, db: 0, da: 0 },
        ChildDraw { pick: 3, recolor: false, dr: 0, dg: 0, db: 0, da: -50 },
    ];
    let next = next_generation_from_draws(&pop, &draws, &target, &canvas, &config);
    let c1 = pop[1].candidate.mutated(&config, true, 5, -5, 0, 0);
    let c2 = pop[3].candidate.mutated(&config, false, 0, 0, 0, -50);
    assert_eq!(c2.alpha, pop[3].candidate.alpha.saturating_sub(50).max(200));
    let expected = sort_by_fitness(vec![pop[0], pop[1], scored(c1), scored(c2)]);
    assert_eq!(next, expected);
}

#[test]
fn evolve_returns_best_of_search_near_target() {
    let target = gradient(4, 4);
    let canvas = black_canvas(4, 4);
    let config = small_config(200, 1000);
    let mut rng = StdRng::seed_from_u64(21);
    let best = evolve(&target, &canvas, &config, &mut rng);
    assert!(best.alpha >= 200 && best.alpha <= 1000);
    let reach = 5 * config.generations as i32;
    assert!(target.pixels.iter().any(|p| {
        (best.color.r as i32 - p.r as i32).abs() <= reach
            && (best.color.g as i32 - p.g as i32).abs() <= reach
            && (best.color.b as i32 - p.b as i32).abs() <= reach
    }));
    assert!(fitness(&best, &target, &canvas) <= fitness(&Candidate::empty(), &target, &canvas));
}
