use berbalang::evolution::{run, Config, ConfigError, Epoch, Genome};
use berbalang::observer::Window;

fn genome(bytes: &[u8]) -> Genome {
    Genome { genes: bytes.to_vec(), fitness: None }
}

fn config_for(target: &[u8]) -> Config {
    Config::new(100_000, 5, 20, 5, 2, target.to_vec(), 10).unwrap()
}

#[test]
fn crossover_conserves_total_length() {
    let m = genome(b"ABCDEF");
    let f = genome(b"xyz");
    for (s1, s2) in [(0usize, 0usize), (1, 2), (5, 1), (3, 2)] {
        let (c1, c2) = m.crossover_at(&f, s1, s2);
        assert_eq!(c1.genes.len() + c2.genes.len(), m.genes.len() + f.genes.len());
        assert!(c1.fitness.is_none() && c2.fitness.is_none());
    }
    // Concrete recombination at fixed split points.
    let (c1, c2) = m.crossover_at(&f, 2, 1);
    assert_eq!(c1.genes, b"AByz".to_vec());
    assert_eq!(c2.genes, b"CDEFx".to_vec());
}

#[test]
fn random_crossover_conserves_total_length() {
    let m = genome(b"HELLO");
    let f = genome(b"WORLD!");
    for _ in 0..50 {
        let (c1, c2) = m.crossover(&f);
        assert_eq!(c1.genes.len() + c2.genes.len(), 11);
    }
}

#[test]
fn mutation_keeps_genomes_printable() {
    let mut g = genome(b"HELLO");
    for _ in 0..200 {
        g.mutate();
        assert_eq!(g.genes.len(), 5);
        assert!(g.genes.iter().all(|&b| (0x20..=0x7e).contains(&b)));
    }
}

#[test]
fn new_genomes_are_alphanumeric() {
    let g = Genome::new(64);
    assert_eq!(g.genes.len(), 64);
    assert!(g.genes.iter().all(|&b| b.is_ascii_alphanumeric()));
    assert!(g.fitness.is_none());
}

#[test]
fn undersized_tournament_is_rejected_at_configuration_time() {
    let r = Config::new(100_000, 5, 20, 3, 2, b"HELLO".to_vec(), 10);
    assert_eq!(r.unwrap_err(), ConfigError::TournamentTooSmall);
}

#[test]
fn config_rejects_each_bad_parameter() {
    assert_eq!(
        Config::new(1_000_001, 5, 20, 5, 2, b"HELLO".to_vec(), 10).unwrap_err(),
        ConfigError::MutRateOverUnity
    );
    assert_eq!(
        Config::new(0, 0, 20, 5, 2, b"HELLO".to_vec(), 10).unwrap_err(),
        ConfigError::ZeroInitLen
    );
    assert_eq!(
        Config::new(0, 5, 0, 5, 2, b"HELLO".to_vec(), 10).unwrap_err(),
        ConfigError::ZeroPopSize
    );
    assert_eq!(
        Config::new(0, 5, 20, 5, 2, b"HELLO".to_vec(), 0).unwrap_err(),
        ConfigError::ZeroWindowSize
    );
    assert_eq!(
        Config::new(0, 5, 20, 5, 2, Vec::new(), 10).unwrap_err(),
        ConfigError::BadTarget
    );
    assert_eq!(
        Config::new(0, 5, 20, 5, 2, vec![0x07], 10).unwrap_err(),
        ConfigError::BadTarget
    );
}

#[test]
fn evolve_conserves_population_size() {
    // tournament_size 5, num_offspring 2: one bystander is requeued and
    // 2 parents + 2 children re-enter, so the population count is kept.
    let config = config_for(b"HELLO");
    let mut observer = Window::new(config.window_size);
    let mut world = Epoch::new(config);
    assert_eq!(world.population.len(), 20);
    for _ in 0..10 {
        world = world.evolve(&mut observer);
        assert_eq!(world.population.len(), 20);
    }
    assert_eq!(world.iteration, 10);
    let best = world.best.as_ref().expect("a best candidate after a generation");
    assert!(best.fitness.is_some());
}

#[test]
fn best_candidate_only_improves() {
    let config = config_for(b"HELLO");
    let mut observer = Window::new(config.window_size);
    let mut world = Epoch::new(config);
    let mut last: Option<usize> = None;
    for _ in 0..50 {
        world = world.evolve(&mut observer);
        let f = world.best.as_ref().unwrap().fitness.unwrap();
        if let Some(prev) = last {
            assert!(f <= prev);
        }
        last = Some(f);
    }
}

#[test]
fn memoized_score_is_the_edit_distance() {
    let target = b"sitting".to_vec();
    let mut g = genome(b"kitten");
    assert_eq!(g.score_mut(&target), 3);
    // Cached on the second call, with the same value.
    assert_eq!(g.score_mut(&target), 3);
    let mut same = genome(b"sitting");
    assert_eq!(same.score_mut(&target), 0);
    let mut other = genome(b"abc");
    assert!(other.score_mut(&target) != 0);
}

#[test]
fn hello_world_scenario_reaches_the_target() {
    // The search is randomized: a run can drift into a population whose
    // genomes crossover can no longer lengthen (every split of two
    // one-byte parents yields one-byte children), so one capped run may
    // stall.  Restarting with a fresh random population escapes that;
    // every returned winner is, by run's contract, exactly the target.
    let config = config_for(b"HELLO");
    for _ in 0..12 {
        if let Some(winner) = run(&config, 300_000) {
            assert_eq!(winner.genes, b"HELLO".to_vec());
            assert_eq!(winner.fitness, Some(0));
            return;
        }
    }
    panic!("evolution did not reach the target in any attempt");
}

#[test]
fn duplicate_copies_genes_and_fitness() {
    let mut g = genome(b"HELLO");
    g.fitness = Some(7);
    let d = g.duplicate();
    assert_eq!(d.genes, g.genes);
    assert_eq!(d.fitness, Some(7));
}

#[test]
fn fitter_than_compares_scored_genomes_only() {
    let mut a = genome(b"x");
    let mut b = genome(b"y");
    assert!(!a.fitter_than(&b));
    a.fitness = Some(1);
    b.fitness = Some(2);
    assert!(a.fitter_than(&b));
    assert!(!b.fitter_than(&a));
}
