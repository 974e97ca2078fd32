use bandit_rs::fx::{Frac, FX_ONE};
use bandit_rs::estimators::EstimatorInit;
use bandit_rs::experiments::{Experiment, Step};
use bandit_rs::policies::{create_policy, PolicyInit};
use bandit_rs::problems::{create_bandit, BanditInit};
use bandit_rs::rng::Randomness;
use bandit_rs::{needed_normals, optimal_percentage, run_experiments, run_parameter_study,
    run_reprod_experiments};
use rand::rngs::StdRng;
use rand::SeedableRng;
use rand_distr::{Distribution, Normal};

/// A real number on the fixed-point grid.
fn fx(x: f64) -> i64 {
    (x * (FX_ONE as f64)) as i64
}

/// Standard-normal deviates on the fixed-point grid, from a fixed seed.
fn draw_normals(seed: u64, n: usize) -> Vec<i64> {
    let mut rng = StdRng::seed_from_u64(seed);
    let normal = Normal::new(0.0f64, 1.0).unwrap();
    (0..n).map(|_| fx(normal.sample(&mut rng))).collect()
}

fn frac_value(f: &Frac) -> f64 {
    f.num as f64 / f.den as f64
}

#[test]
fn trial_returns_exactly_n_records() {
    let est = EstimatorInit::SampleAverageInit { nb_levers: 4 };
    let pol = create_policy(&PolicyInit::EGreedyInit { nb_levers: 4, expl_proba: fx(0.1) as u64, est })
        .unwrap();
    let mut rand = Randomness::new(11, draw_normals(11, 4 + 50));
    let ban = create_bandit(
        &BanditInit::StationaryInit { nb_levers: 4, init_vals: (fx(0.0), fx(1.0)) },
        &mut rand,
    )
    .unwrap();
    let exp = Experiment::new(pol, ban);
    let records = exp.steps(50, &mut rand);
    assert_eq!(records.len(), 50);
    for r in records.iter() {
        assert!(r.lever < 4);
    }
}

#[test]
fn reproducible_runs_are_bit_identical() {
    let est = EstimatorInit::SampleAverageInit { nb_levers: 5 };
    let policies = vec![
        PolicyInit::EGreedyInit { nb_levers: 5, expl_proba: fx(0.1) as u64, est },
        PolicyInit::UCBInit { nb_levers: 5, step: fx(2.0), est },
    ];
    let problem = BanditInit::StationaryInit { nb_levers: 5, init_vals: (fx(0.0), fx(1.0)) };
    let n = needed_normals(&policies, &problem, 3, 40);
    let run = |seed: u64| {
        let mut rand = Randomness::new(seed, draw_normals(seed.wrapping_add(1), n));
        run_reprod_experiments(&policies, &problem, &mut rand, 3, 40).unwrap()
    };
    let a = run(99);
    let b = run(99);
    assert_eq!(a, b);
    // and the shape is as configured
    assert_eq!(a.len(), 2);
    for row in a.iter() {
        assert_eq!(row.len(), 3);
        for trial in row.iter() {
            assert_eq!(trial.len(), 40);
        }
    }
}

#[test]
fn single_lever_zero_std_is_always_optimal() {
    // one lever, standard deviation 0, mean 5: every decision is lever 0,
    // every reward exactly 5, every step optimal, and the aggregated
    // optimal-action ratio is constantly one
    let est = EstimatorInit::SampleAverageInit { nb_levers: 1 };
    let policies = vec![PolicyInit::EGreedyInit { nb_levers: 1, expl_proba: fx(0.1) as u64, est }];
    let problem = BanditInit::StationaryInit { nb_levers: 1, init_vals: (fx(5.0), 0) };
    let n = needed_normals(&policies, &problem, 4, 20);
    let mut rand = Randomness::new(3, draw_normals(3, n));
    let results = run_reprod_experiments(&policies, &problem, &mut rand, 4, 20).unwrap();
    for trial in results[0].iter() {
        for step in trial.iter() {
            assert_eq!(step.lever, 0);
            assert!(step.optimal);
            assert_eq!(step.reward, fx(5.0));
        }
    }
    let ratios = optimal_percentage(results, 4, 20);
    assert_eq!(ratios[0].len(), 20);
    for f in ratios[0].iter() {
        assert_eq!(f.num, 4);
        assert_eq!(f.den, 4);
    }
}

#[test]
fn optimal_percentage_counts_exactly() {
    // two trials, three steps: optimal flags (t, f, t) and (t, t, f)
    // give ratios 2/2, 1/2, 1/2
    let mk = |flags: [bool; 3]| -> Vec<Step> {
        flags
            .iter()
            .map(|o| Step { lever: 0, optimal: *o, reward: 0 })
            .collect()
    };
    let results = vec![vec![mk([true, false, true]), mk([true, true, false])]];
    let ratios = optimal_percentage(results, 2, 3);
    assert_eq!(ratios.len(), 1);
    let row = &ratios[0];
    assert_eq!((row[0].num, row[0].den), (2, 2));
    assert_eq!((row[1].num, row[1].den), (1, 2));
    assert_eq!((row[2].num, row[2].den), (1, 2));
}

#[test]
fn parallel_run_has_the_configured_shape() {
    let est = EstimatorInit::SampleAverageInit { nb_levers: 3 };
    let policies = vec![
        PolicyInit::EGreedyInit { nb_levers: 3, expl_proba: fx(0.2) as u64, est },
        PolicyInit::UCBInit { nb_levers: 3, step: fx(1.0), est },
    ];
    let problem = BanditInit::StationaryInit { nb_levers: 3, init_vals: (fx(0.0), fx(1.0)) };
    let nb_tries: usize = 3;
    let len_exp: usize = 15;
    let mut rand = Randomness::new(21, draw_normals(21, 2 * nb_tries * 3));
    let rands: Vec<Randomness> = (0..2 * nb_tries)
        .map(|k| Randomness::new(100 + k as u64, draw_normals(200 + k as u64, len_exp)))
        .collect();
    let results = run_experiments(&policies, &problem, &mut rand, rands, nb_tries, len_exp)
        .unwrap();
    assert_eq!(results.len(), 2);
    for row in results.iter() {
        assert_eq!(row.len(), nb_tries);
        for trial in row.iter() {
            assert_eq!(trial.len(), len_exp);
            for step in trial.iter() {
                assert!(step.lever < 3);
            }
        }
    }
}

#[test]
fn epsilon_greedy_learns_the_best_lever() {
    // ten levers, rewards Normal(mean_i, 1), epsilon = 0.1, sample
    // averages: the optimal-action ratio near the end clearly beats the
    // opening steps and never exceeds one
    let nb_levers: usize = 10;
    let nb_tries: usize = 300;
    let len_exp: usize = 400;
    let est = EstimatorInit::SampleAverageInit { nb_levers };
    let policies = vec![PolicyInit::EGreedyInit {
        nb_levers,
        expl_proba: fx(0.1) as u64,
        est,
    }];
    let problem = BanditInit::StationaryInit { nb_levers, init_vals: (fx(0.0), fx(1.0)) };
    let n = needed_normals(&policies, &problem, nb_tries, len_exp);
    let mut rand = Randomness::new(77, draw_normals(78, n));
    let results = run_reprod_experiments(&policies, &problem, &mut rand, nb_tries, len_exp)
        .unwrap();
    let ratios = optimal_percentage(results, nb_tries, len_exp);
    let row = &ratios[0];
    assert_eq!(row.len(), len_exp);
    for f in row.iter() {
        assert!(0 <= f.num && f.num <= f.den);
    }
    let early: f64 = row[..5].iter().map(frac_value).sum::<f64>() / 5.0;
    let late: f64 = row[len_exp - 50..].iter().map(frac_value).sum::<f64>() / 50.0;
    assert!(
        late > early + 0.15,
        "no learning visible: early {early}, late {late}"
    );
    assert!(late > 0.5, "late optimal ratio too low: {late}");
}

#[test]
fn non_stationary_bandit_runs_and_aggregates() {
    let nb_levers: usize = 4;
    let est = EstimatorInit::ConstantStepInit { nb_levers, step: fx(0.1) as u64 };
    let policies = vec![PolicyInit::EGreedyInit {
        nb_levers,
        expl_proba: fx(0.1) as u64,
        est,
    }];
    let problem = BanditInit::NonStationaryInit {
        nb_levers,
        init_vals: (fx(0.0), fx(1.0)),
        walk: (fx(0.0), fx(0.1)),
    };
    let nb_tries: usize = 10;
    let len_exp: usize = 30;
    let n = needed_normals(&policies, &problem, nb_tries, len_exp);
    assert_eq!(n, 10 * 30 * (1 + nb_levers));
    let mut rand = Randomness::new(55, draw_normals(56, n));
    let results = run_reprod_experiments(&policies, &problem, &mut rand, nb_tries, len_exp)
        .unwrap();
    let ratios = optimal_percentage(results, nb_tries, len_exp);
    assert_eq!(ratios[0].len(), len_exp);
    for f in ratios[0].iter() {
        assert!(0 <= f.num && f.num <= f.den);
    }
}

#[test]
fn parameter_study_doubles_and_reports_means() {
    // a deterministic bandit: every trial's mean reward is exactly 5
    let est = EstimatorInit::SampleAverageInit { nb_levers: 1 };
    let policy = PolicyInit::EGreedyInit {
        nb_levers: 1,
        expl_proba: (FX_ONE >> 7) as u64,
        est,
    };
    let problem = BanditInit::StationaryInit { nb_levers: 1, init_vals: (fx(5.0), 0) };
    let len_exp: usize = 100;
    let mut rand = Randomness::new(13, Vec::new());
    let out = run_parameter_study(&policy, &problem, &mut rand, len_exp, 0, 6).unwrap();
    assert_eq!(out.len(), 6);
    for (k, (param, mean)) in out.iter().enumerate() {
        assert_eq!(*param, (FX_ONE >> 7) << k);
        assert_eq!(mean.num, (len_exp as i64) * fx(5.0));
        assert_eq!(mean.den, (len_exp as i64) * FX_ONE);
    }
    // the probability saturates at one instead of overflowing
    let out2 = run_parameter_study(&policy, &problem, &mut rand, len_exp, 6, 9).unwrap();
    assert_eq!(out2[0].0, (FX_ONE >> 7) << 6);
    assert_eq!(out2[2].0, FX_ONE);
}

#[test]
fn config_check_covers_the_whole_run() {
    let est = EstimatorInit::SampleAverageInit { nb_levers: 2 };
    let policies = vec![PolicyInit::EGreedyInit { nb_levers: 3, expl_proba: 0, est }];
    let problem = BanditInit::StationaryInit { nb_levers: 3, init_vals: (fx(0.0), fx(1.0)) };
    let mut rand = Randomness::new(1, Vec::new());
    let r = run_reprod_experiments(&policies, &problem, &mut rand, 2, 5);
    assert_eq!(r.err(), Some(bandit_rs::ConfigError::MismatchedLevers));
    let policies2 = vec![PolicyInit::EGreedyInit { nb_levers: 2, expl_proba: 0, est }];
    let r2 = run_reprod_experiments(&policies2, &problem, &mut rand, 2, 5);
    assert_eq!(r2.err(), Some(bandit_rs::ConfigError::MismatchedLevers));
}

#[test]
fn exhausted_deviate_stream_yields_zero_deviates() {
    // with an empty stream a stationary bandit's means all equal the
    // configured mean, so every lever is optimal
    let mut rand = Randomness::new(2, Vec::new());
    let init = BanditInit::StationaryInit { nb_levers: 3, init_vals: (fx(1.0), fx(2.0)) };
    let mut bandit = create_bandit(&init, &mut rand).unwrap();
    for lever in 0..3 {
        assert!(bandit.is_optimal(lever));
        assert_eq!(bandit.use_lever(lever, &mut rand), fx(1.0));
    }
}
