use block_randomizer::engine::{App, decide_bias};
use block_randomizer::history::{AssignmentRecord, BalanceCounts, StratumCounts};
use block_randomizer::strata::{derive_key, AgeBand, AllocError, Gender, Group, StrataKey};

fn record(id: &str, gender: Gender, age: i64, group: Group) -> AssignmentRecord {
    AssignmentRecord { subject_id: id.to_string(), name: None, age, gender, group }
}

#[test]
fn derive_key_age_bands() {
    assert_eq!(
        derive_key(Gender::Male, 54),
        Ok(StrataKey { gender: Gender::Male, age_band: AgeBand::Under55 })
    );
    assert_eq!(
        derive_key(Gender::Male, 55),
        Ok(StrataKey { gender: Gender::Male, age_band: AgeBand::AtLeast55 })
    );
    assert_eq!(
        derive_key(Gender::Female, 0),
        Ok(StrataKey { gender: Gender::Female, age_band: AgeBand::Under55 })
    );
    assert_eq!(derive_key(Gender::Female, -1), Err(AllocError::InvalidInput));
}

#[test]
fn global_bias_example() {
    // blockSize 4 gives halfBlock 2; totals 6 against 2 differ by 4, so the
    // next bias favors the under-represented arm B.
    assert_eq!(decide_bias(6, 2, 0, 0, 4), Some(Group::B));
}

#[test]
fn stratum_bias_when_global_is_level() {
    assert_eq!(decide_bias(0, 0, 0, 2, 4), Some(Group::A));
    assert_eq!(decide_bias(1, 1, 3, 1, 4), Some(Group::B));
}

#[test]
fn global_bias_takes_precedence() {
    // Globally A is short by 2; within the stratum B is short. The global
    // imbalance wins.
    assert_eq!(decide_bias(2, 4, 2, 0, 4), Some(Group::A));
}

#[test]
fn no_bias_below_threshold() {
    assert_eq!(decide_bias(1, 0, 1, 0, 4), None);
    assert_eq!(decide_bias(3, 2, 1, 1, 4), None);
}

#[test]
fn new_rejects_small_block_size() {
    assert!(matches!(App::new(0), Err(AllocError::ConfigurationError)));
    assert!(matches!(App::new(1), Err(AllocError::ConfigurationError)));
    assert!(App::new(2).is_ok());
}

#[test]
fn assign_next_rejects_negative_age() {
    let mut app = App::new(4).unwrap();
    assert_eq!(app.assign_next(Gender::Male, -1), Err(AllocError::InvalidInput));
}

#[test]
fn assign_next_rejects_broken_configuration() {
    let mut app = App::new(4).unwrap();
    app.block_size = 0;
    assert_eq!(app.assign_next(Gender::Male, 30), Err(AllocError::ConfigurationError));
}

#[test]
fn set_block_size_validates() {
    let mut app = App::new(4).unwrap();
    assert_eq!(app.set_block_size(1), Err(AllocError::ConfigurationError));
    assert_eq!(app.set_block_size(6), Ok(()));
    assert_eq!(app.block_size, 6);
    for r in app.randomizers.iter() {
        assert_eq!(r.block_size, 6);
        // Labels already queued are unaffected by the change.
        assert_eq!(r.queue.len(), 4);
    }
}

#[test]
fn end_to_end_first_block() {
    // Empty history, block size 4: four consecutive requests on one stratum
    // consume exactly the one unbiased block, so the four labels are
    // A, A, B, B in some order.
    let mut app = App::new(4).unwrap();
    let mut a = 0;
    let mut b = 0;
    for _ in 0..4 {
        match app.assign_next(Gender::Male, 40).unwrap() {
            Group::A => a += 1,
            Group::B => b += 1,
        }
    }
    assert_eq!(a, 2);
    assert_eq!(b, 2);
}

#[test]
fn counts_are_idempotent() {
    let mut app = App::new(4).unwrap();
    app.add_record(record("s1", Gender::Male, 40, Group::A));
    app.add_record(record("s2", Gender::Female, 60, Group::B));
    app.add_record(record("s3", Gender::Male, 70, Group::A));
    let first = app.get_counts();
    let second = app.get_counts();
    assert_eq!(first, second);
    assert_eq!(app.total_counts(), app.total_counts());
}

#[test]
fn counts_tally_by_stratum() {
    let mut app = App::new(4).unwrap();
    app.add_record(record("s1", Gender::Male, 40, Group::A));
    app.add_record(record("s2", Gender::Male, 54, Group::B));
    app.add_record(record("s3", Gender::Male, 55, Group::A));
    app.add_record(record("s4", Gender::Female, 20, Group::B));
    app.add_record(record("s5", Gender::Female, 80, Group::B));
    let c = app.get_counts();
    let expected = BalanceCounts {
        male_under: StratumCounts { count_a: 1, count_b: 1 },
        male_at_least: StratumCounts { count_a: 1, count_b: 0 },
        female_under: StratumCounts { count_a: 0, count_b: 1 },
        female_at_least: StratumCounts { count_a: 0, count_b: 1 },
    };
    assert_eq!(c, expected);
    assert_eq!(app.total_counts(), (2, 3));
}

#[test]
fn reload_consistency() {
    // Counts over R reloaded records plus one new allocation are the same
    // whether the R + 1 records are rescanned or the new record is added to
    // the counts of the first R.
    let reloaded = vec![
        record("s1", Gender::Male, 30, Group::A),
        record("s2", Gender::Male, 61, Group::B),
        record("s3", Gender::Female, 45, Group::B),
    ];
    let mut app = App::new(4).unwrap();
    for r in reloaded.iter().cloned() {
        app.add_record(r);
    }
    let before = app.get_counts();
    let (ta, tb) = app.total_counts();

    let group = app.assign_next(Gender::Female, 45).unwrap();
    app.add_record(record("s4", Gender::Female, 45, group));

    // Incrementally updated expectation.
    let mut expected = before;
    match group {
        Group::A => expected.female_under.count_a += 1,
        Group::B => expected.female_under.count_b += 1,
    }
    let expected_totals = match group {
        Group::A => (ta + 1, tb),
        Group::B => (ta, tb + 1),
    };

    // Full rescan of the R + 1 records.
    assert_eq!(app.get_counts(), expected);
    assert_eq!(app.total_counts(), expected_totals);
}

#[test]
fn recalc_refreshes_caches() {
    let mut app = App::new(4).unwrap();
    app.add_record(record("s1", Gender::Male, 40, Group::B));
    app.recalc_counts();
    assert_eq!(app.counts_cache, app.get_counts());
    assert_eq!(app.total_cache, (0, 1));
}

#[test]
fn default_engine_matches_configuration() {
    let app = App::default();
    assert_eq!(app.block_size, 4);
    assert_eq!(app.randomizers.len(), 4);
    assert!(app.log.is_empty());
}

#[test]
fn biased_request_regenerates_immediately() {
    // A forced regeneration appends a whole new block even though labels are
    // still pending, then one label is drawn.
    let mut app = App::new(4).unwrap();
    for i in 0..6 {
        app.add_record(record(&format!("a{i}"), Gender::Male, 30, Group::A));
    }
    app.add_record(record("b1", Gender::Male, 30, Group::B));
    app.add_record(record("b2", Gender::Male, 30, Group::B));
    // Totals 6 against 2 force a global bias.
    let pending = app.randomizers[0].queue.len();
    let r = app.assign_next(Gender::Male, 30);
    assert!(r.is_ok());
    assert_eq!(app.randomizers[0].queue.len(), pending + 4 - 1);
}

#[test]
fn stratum_bias_regenerates() {
    let mut app = App::new(4).unwrap();
    // Globally level (2 against 2), but the Male / <55 stratum is 2 against 0,
    // which reaches half the block size and forces a biased regeneration.
    app.add_record(record("m1", Gender::Male, 30, Group::A));
    app.add_record(record("m2", Gender::Male, 30, Group::A));
    app.add_record(record("f1", Gender::Female, 30, Group::B));
    app.add_record(record("f2", Gender::Female, 30, Group::B));
    let pending = app.randomizers[0].queue.len();
    app.assign_next(Gender::Male, 30).unwrap();
    assert_eq!(app.randomizers[0].queue.len(), pending + 4 - 1);
}

#[test]
fn disabled_bias_never_regenerates() {
    // With the rebalancing heuristic switched off, even a gross imbalance
    // leaves the pending block untouched: plain block randomization remains.
    let mut app = App::new(4).unwrap();
    app.bias_enabled = false;
    for i in 0..6 {
        app.add_record(record(&format!("a{i}"), Gender::Male, 30, Group::A));
    }
    let pending = app.randomizers[0].queue.len();
    app.assign_next(Gender::Male, 30).unwrap();
    assert_eq!(app.randomizers[0].queue.len(), pending - 1);
}

#[test]
fn unbiased_request_pops_pending() {
    // With no imbalance the request is served from the pending labels alone.
    let mut app = App::new(4).unwrap();
    let pending = app.randomizers[3].queue.len();
    app.assign_next(Gender::Female, 80).unwrap();
    assert_eq!(app.randomizers[3].queue.len(), pending - 1);
}
