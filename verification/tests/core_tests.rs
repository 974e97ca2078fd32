use bandit_rs::fx::{frac_eq_exec, frac_le_exec, frac_lt_exec, frac_to_fx, fx_mul, Frac, FX_ONE};
use bandit_rs::helper::indices_max;
use bandit_rs::estimators::{create_estimator, Estimator, EstimatorInit};
use bandit_rs::policies::{EGreedy, PolicyInit, UCB};
use bandit_rs::problems::{create_bandit, BanditInit};
use bandit_rs::rng::Randomness;
use bandit_rs::ConfigError;

/// A real number on the fixed-point grid.
fn fx(x: f64) -> i64 {
    (x * (FX_ONE as f64)) as i64
}

fn frac_of(x: f64) -> Frac {
    Frac { num: fx(x), den: FX_ONE }
}

#[test]
fn test_indices_max() {
    let vals = vec![frac_of(0.0), frac_of(1.0)];
    assert_eq!(indices_max(&vals), vec![1]);
}

#[test]
fn indices_max_all_equal_returns_all() {
    let vals = vec![frac_of(2.5); 4];
    assert_eq!(indices_max(&vals), vec![0, 1, 2, 3]);
}

#[test]
fn indices_max_strictly_increasing_returns_last() {
    let vals = vec![frac_of(-1.0), frac_of(0.0), frac_of(0.5), frac_of(3.0)];
    assert_eq!(indices_max(&vals), vec![3]);
}

#[test]
fn indices_max_keeps_ties_only() {
    // equal values at 1 and 3, a larger between them elsewhere? no: max at 1 and 3
    let vals = vec![frac_of(0.25), frac_of(7.0), frac_of(-2.0), frac_of(7.0)];
    assert_eq!(indices_max(&vals), vec![1, 3]);
    // fractions equal in value but written differently still tie exactly
    let vals2 = vec![Frac { num: 1, den: 2 }, Frac { num: 2, den: 4 }];
    assert_eq!(indices_max(&vals2), vec![0, 1]);
}

#[test]
fn indices_max_empty_is_empty() {
    let vals: Vec<Frac> = Vec::new();
    assert_eq!(indices_max(&vals), Vec::<usize>::new());
}

#[test]
fn sample_average_is_exact_mean() {
    let mut est = create_estimator(&EstimatorInit::SampleAverageInit { nb_levers: 2 }).unwrap();
    est.update(0, fx(1.0));
    est.update(0, fx(2.0));
    est.update(0, fx(6.0));
    let e = est.estimate(0);
    // the estimate is exactly (1 + 2 + 6) / 3 = 3
    assert!(frac_eq_exec(&e, &frac_of(3.0)));
    // the untouched lever still estimates 0
    assert!(frac_eq_exec(&est.estimate(1), &frac_of(0.0)));
}

#[test]
fn sample_average_order_does_not_matter() {
    let init = EstimatorInit::SampleAverageInit { nb_levers: 1 };
    let rewards = [fx(0.5), fx(-3.25), fx(7.0), fx(2.125)];
    let mut a = create_estimator(&init).unwrap();
    for r in rewards.iter() {
        a.update(0, *r);
    }
    let mut b = create_estimator(&init).unwrap();
    for r in rewards.iter().rev() {
        b.update(0, *r);
    }
    assert!(frac_eq_exec(&a.estimate(0), &b.estimate(0)));
}

#[test]
fn constant_step_full_step_tracks_last_reward() {
    let mut est = create_estimator(
        &EstimatorInit::ConstantStepInit { nb_levers: 1, step: FX_ONE as u64 },
    )
    .unwrap();
    est.update(0, fx(4.0));
    assert!(frac_eq_exec(&est.estimate(0), &frac_of(4.0)));
    est.update(0, fx(-1.5));
    assert!(frac_eq_exec(&est.estimate(0), &frac_of(-1.5)));
}

#[test]
fn constant_step_half_step_recency_weighting() {
    // a = 1/2: after rewards 1, 1 the estimate is a(1-a)*1 + a*1 = 3/4,
    // the closed-form recency weighting, exact on dyadic values
    let mut est = create_estimator(
        &EstimatorInit::ConstantStepInit { nb_levers: 1, step: (FX_ONE / 2) as u64 },
    )
    .unwrap();
    est.update(0, fx(1.0));
    assert!(frac_eq_exec(&est.estimate(0), &frac_of(0.5)));
    est.update(0, fx(1.0));
    assert!(frac_eq_exec(&est.estimate(0), &frac_of(0.75)));
}

#[test]
fn estimator_optimal_sets() {
    let mut est = create_estimator(&EstimatorInit::SampleAverageInit { nb_levers: 3 }).unwrap();
    // all equal at the start: every lever is optimal
    assert_eq!(est.optimal(3), vec![0, 1, 2]);
    est.update(2, fx(1.0));
    assert_eq!(est.optimal(3), vec![2]);
    est.update(0, fx(1.0));
    assert_eq!(est.optimal(3), vec![0, 2]);
}

#[test]
fn config_errors_are_reported() {
    assert_eq!(
        create_estimator(&EstimatorInit::SampleAverageInit { nb_levers: 0 }).err(),
        Some(ConfigError::ZeroLevers)
    );
    assert_eq!(
        create_estimator(&EstimatorInit::ConstantStepInit { nb_levers: 2, step: 0 }).err(),
        Some(ConfigError::StepOutOfRange)
    );
    assert_eq!(
        create_estimator(
            &EstimatorInit::ConstantStepInit { nb_levers: 2, step: (FX_ONE as u64) + 1 }
        )
        .err(),
        Some(ConfigError::StepOutOfRange)
    );
    assert_eq!(
        create_estimator(&EstimatorInit::SampleAverageInit { nb_levers: 0x2_0000 }).err(),
        Some(ConfigError::TooManyLevers)
    );
    let est2 = EstimatorInit::SampleAverageInit { nb_levers: 2 };
    assert_eq!(
        EGreedy::new(2, (FX_ONE as u64) + 1, &est2).err(),
        Some(ConfigError::ProbOutOfRange)
    );
    assert_eq!(EGreedy::new(3, 0, &est2).err(), Some(ConfigError::MismatchedLevers));
    assert_eq!(UCB::new(2, i64::MAX, &est2).err(), Some(ConfigError::ScaleOutOfRange));
    let mut rand = Randomness::new(7, Vec::new());
    assert_eq!(
        create_bandit(
            &BanditInit::StationaryInit { nb_levers: 2, init_vals: (fx(0.0), fx(-1.0)) },
            &mut rand,
        )
        .err(),
        Some(ConfigError::NegativeStd)
    );
    assert_eq!(
        create_bandit(
            &BanditInit::NonStationaryInit {
                nb_levers: 2,
                init_vals: (fx(0.0), fx(1.0)),
                walk: (fx(0.0), fx(-0.1)),
            },
            &mut rand,
        )
        .err(),
        Some(ConfigError::NegativeStd)
    );
    assert_eq!(
        create_bandit(
            &BanditInit::StationaryInit { nb_levers: 2, init_vals: (i64::MAX, fx(1.0)) },
            &mut rand,
        )
        .err(),
        Some(ConfigError::ScaleOutOfRange)
    );
}

#[test]
fn egreedy_never_explores_at_zero() {
    // with exploration probability 0 every choice lies in the optimal set
    let est = EstimatorInit::SampleAverageInit { nb_levers: 3 };
    let mut policy = EGreedy::new(3, 0, &est).unwrap();
    policy.update(1, fx(5.0));
    let mut rand = Randomness::new(42, Vec::new());
    for _ in 0..200 {
        assert_eq!(policy.decide(&mut rand), 1);
    }
}

#[test]
fn egreedy_always_explores_at_one() {
    // with exploration probability 1 the choice is uniform over all
    // levers: a chi-square statistic over 20000 draws stays far below
    // the 0.1% quantile for 9 degrees of freedom
    let est = EstimatorInit::SampleAverageInit { nb_levers: 10 };
    let mut policy = EGreedy::new(10, FX_ONE as u64, &est).unwrap();
    // make one lever look best: a uniform explorer must ignore that
    policy.update(4, fx(100.0));
    let mut rand = Randomness::new(1234, Vec::new());
    let draws: usize = 20000;
    let mut counts = [0usize; 10];
    for _ in 0..draws {
        counts[policy.decide(&mut rand)] += 1;
    }
    let expected = draws as f64 / 10.0;
    let chi2: f64 = counts
        .iter()
        .map(|c| {
            let d = *c as f64 - expected;
            d * d / expected
        })
        .sum();
    assert!(chi2 < 27.88, "chi-square too large: {chi2}");
}

#[test]
fn ucb_tries_every_lever_once_first() {
    let est = EstimatorInit::SampleAverageInit { nb_levers: 3 };
    let mut policy = UCB::new(3, fx(2.0), &est).unwrap();
    let mut rand = Randomness::new(5, Vec::new());
    let mut seen = [false; 3];
    for _ in 0..3 {
        let lever = policy.decide(&mut rand);
        assert!(!seen[lever], "lever {lever} chosen twice before all were tried");
        seen[lever] = true;
        policy.update(lever, fx(0.0));
    }
    assert!(seen.iter().all(|s| *s));
}

#[test]
fn ucb_counters_advance_on_update() {
    // pinning the first few steps: after each lever was tried once with
    // reward 0, and lever 0 was rewarded highly, lever 0 is chosen
    let est = EstimatorInit::SampleAverageInit { nb_levers: 2 };
    let mut policy = UCB::new(2, fx(1.0), &est).unwrap();
    let mut rand = Randomness::new(5, Vec::new());
    for _ in 0..2 {
        let lever = policy.decide(&mut rand);
        policy.update(lever, fx(0.0));
    }
    policy.update(0, fx(10.0));
    for _ in 0..5 {
        assert_eq!(policy.decide(&mut rand), 0);
        policy.update(0, fx(10.0));
    }
}

#[test]
fn frac_helpers_are_exact() {
    assert_eq!(fx_mul(fx(2.0), fx(3.5)), fx(7.0));
    assert_eq!(fx_mul(fx(-2.0), fx(3.5)), fx(-7.0));
    assert_eq!(fx_mul(0, fx(123.0)), 0);
    assert_eq!(frac_to_fx(&Frac { num: 3, den: 2 }), fx(1.5));
    assert_eq!(frac_to_fx(&Frac { num: -3, den: 2 }), fx(-1.5));
}

#[test]
fn stationary_bandit_with_zero_std_is_deterministic() {
    let mut rand = Randomness::new(9, Vec::new());
    let init = BanditInit::StationaryInit { nb_levers: 1, init_vals: (fx(5.0), 0) };
    let mut bandit = create_bandit(&init, &mut rand).unwrap();
    assert!(bandit.is_optimal(0));
    for _ in 0..10 {
        assert_eq!(bandit.use_lever(0, &mut rand), fx(5.0));
    }
    assert!(bandit.is_optimal(0));
}

#[test]
fn estimator_matches_init_kind() {
    let sa = create_estimator(&EstimatorInit::SampleAverageInit { nb_levers: 2 }).unwrap();
    assert!(matches!(sa, Estimator::SampleAverage(_)));
    let cs = create_estimator(
        &EstimatorInit::ConstantStepInit { nb_levers: 2, step: FX_ONE as u64 },
    )
    .unwrap();
    assert!(matches!(cs, Estimator::ConstantStep(_)));
    let pol = PolicyInit::EGreedyInit {
        nb_levers: 2,
        expl_proba: 0,
        est: EstimatorInit::SampleAverageInit { nb_levers: 2 },
    };
    assert!(matches!(bandit_rs::policies::create_policy(&pol), Ok(_)));
}

#[test]
fn frac_comparisons_are_exact() {
    let third = Frac { num: 1, den: 3 };
    let two_fifths = Frac { num: 2, den: 5 };
    assert!(frac_lt_exec(&third, &two_fifths));
    assert!(frac_le_exec(&third, &two_fifths));
    assert!(!frac_le_exec(&two_fifths, &third));
    assert!(frac_le_exec(&third, &Frac { num: 2, den: 6 }));
}

#[test]
fn ucb_bonus_rewards_underexplored_levers() {
    // equal estimates, unequal visit counts: the confidence bonus
    // sqrt(log2(time) / count) is larger for the rarer lever, so it wins
    let est = EstimatorInit::SampleAverageInit { nb_levers: 2 };
    let mut policy = UCB::new(2, fx(1.0), &est).unwrap();
    policy.update(0, fx(0.0));
    policy.update(1, fx(0.0));
    policy.update(1, fx(0.0));
    policy.update(1, fx(0.0));
    let mut rand = Randomness::new(8, Vec::new());
    for _ in 0..10 {
        assert_eq!(policy.decide(&mut rand), 0);
    }
}

#[test]
fn boundary_configurations_are_accepted() {
    // the largest supported lever count, the smallest positive step and
    // an exploration probability of exactly one are all valid
    assert!(create_estimator(&EstimatorInit::SampleAverageInit { nb_levers: 0x1_0000 }).is_ok());
    assert!(create_estimator(&EstimatorInit::ConstantStepInit { nb_levers: 2, step: 1 }).is_ok());
    let est = EstimatorInit::SampleAverageInit { nb_levers: 2 };
    assert!(EGreedy::new(2, FX_ONE as u64, &est).is_ok());
}
