use berbalang::evaluation::{
    code_coverage_ff, register_conjunction_ff, register_pattern_ff, Creature, EvalConfig,
    EvalConfigError, Evaluator, FitnessStrategy, RegisterPattern,
};
use berbalang::fitness::{Objective, Weighted};
use berbalang::profiler::{Block, CpuError, MemLogEntry, Profiler};
use berbalang::sketch::CountMinSketch;

fn sample_profiler() -> Profiler {
    let mut p = Profiler::new(vec![0], Vec::new());
    p.record_block(Block { entry: 0x10, size: 4 });
    p.record_gadget(0x10);
    p.record_gadget(0x12);
    p.record_write(MemLogEntry { program_counter: 0x10, address: 0x200, num_bytes_written: 4, value: 0xff });
    p
}

fn config() -> EvalConfig {
    EvalConfig::new(100, 100, 16, None).unwrap()
}

#[test]
fn coverage_fitness_scores_exactly() {
    let mut p = sample_profiler();
    p.read_registers(&vec![0xf0]);
    let creature = Creature { payload: b"A".to_vec(), tag: 0, profile: Some(p.freeze()), fitness: None };
    let sketch = CountMinSketch::new(16);
    let scored = code_coverage_ff(creature, &sketch, &config());
    let w = scored.fitness.expect("a fitness");
    // 4 of 100 code bytes visited.
    assert_eq!(w.get(Objective::CodeCoverage), Some(960_000));
    // Nothing in the sketch yet: mean estimate 0.
    assert_eq!(w.get(Objective::CodeFrequency), Some(0));
    assert_eq!(w.get(Objective::GadgetsExecuted), Some(2));
    // 4 of 100 writable bytes written.
    assert_eq!(w.get(Objective::MemRatioWritten), Some(960_000));
}

#[test]
fn pattern_fitness_scores_exactly() {
    let mut p = sample_profiler();
    p.read_registers(&vec![0xf0]);
    p.set_error(CpuError::WriteUnmapped);
    let profile = p.freeze();
    let pattern = RegisterPattern { entries: vec![(0, 0xff), (7, 0)] };
    let cfg = EvalConfig::new(100, 100, 16, Some(pattern)).unwrap();
    let creature = Creature { payload: b"A".to_vec(), tag: 0, profile: Some(profile), fitness: None };
    let sketch = CountMinSketch::new(16);
    let scored = register_pattern_ff(creature, &sketch, &cfg);
    let w = scored.fitness.expect("a fitness");
    // Register 0 read back 0xf0 against wanted 0xff: four bits differ;
    // register 7 was never read: the full word width.
    assert_eq!(w.get(Objective::RegisterError), Some(4 + 64));
    assert_eq!(w.get(Objective::CrashCount), Some(1));
    assert_eq!(w.get(Objective::GadgetsExecuted), Some(2));
    assert_eq!(w.get(Objective::MemRatioWritten), Some(960_000));
}

#[test]
fn conjunction_fitness_counts_stuck_bits() {
    let mut p = Profiler::new(vec![0, 1], Vec::new());
    p.read_registers(&vec![0xffff_ffff_ffff_ff0f, 0xffff_ffff_ffff_f00f]);
    let creature = Creature { payload: b"A".to_vec(), tag: 0, profile: Some(p.freeze()), fitness: None };
    let sketch = CountMinSketch::new(16);
    let scored = register_conjunction_ff(creature, &sketch, &config());
    let w = scored.fitness.expect("a fitness");
    // AND of the two register values zeroes bits 4..12: eight stuck bits.
    assert_eq!(w.get(Objective::Zeroes), Some(8));
    assert_eq!(w.get(Objective::GadgetsExecuted), Some(0));
    assert_eq!(w.get(Objective::MemRatioWritten), Some(0));
}

#[test]
fn unprofiled_creature_is_left_unscored() {
    let creature = Creature::new(b"A".to_vec());
    let sketch = CountMinSketch::new(16);
    let scored = code_coverage_ff(creature, &sketch, &config());
    assert!(scored.fitness.is_none());
}

#[test]
fn partition_splits_by_cached_profile() {
    let profiled = Creature {
        payload: b"P".to_vec(),
        tag: 1,
        profile: Some(Profiler::new(Vec::new(), Vec::new()).freeze()),
        fitness: None,
    };
    let fresh = Creature::new(b"F".to_vec());
    let (old_meat, fresh_meat) = Evaluator::partition_by_profile(vec![profiled, fresh]);
    assert_eq!(old_meat.len(), 1);
    assert_eq!(fresh_meat.len(), 1);
    assert_eq!(old_meat[0].payload, b"P".to_vec());
    assert!(old_meat[0].profile.is_some());
    assert_eq!(fresh_meat[0].payload, b"F".to_vec());
    assert!(fresh_meat[0].profile.is_none());
}

#[test]
fn batch_preserves_cached_fitness_and_profile() {
    // A candidate already carrying a profile and fitness passes through
    // the batch untouched; only freshly hatched candidates get scored.
    let mut cached_fitness = Weighted::new();
    cached_fitness.insert(Objective::GadgetsExecuted, 123);
    let old = Creature {
        payload: b"OLD".to_vec(),
        tag: 5,
        profile: Some(sample_profiler().freeze()),
        fitness: Some(cached_fitness),
    };
    let hatched = Creature {
        payload: b"NEW".to_vec(),
        tag: 6,
        profile: Some(sample_profiler().freeze()),
        fitness: None,
    };
    let cfg = config();
    let mut evaluator = Evaluator::new(cfg, FitnessStrategy::CodeCoverage);
    let out = evaluator.eval_pipeline(vec![hatched], vec![old]);
    assert_eq!(out.len(), 2);
    assert_eq!(out[0].payload, b"NEW".to_vec());
    assert!(out[0].fitness.is_some());
    assert_eq!(out[1].payload, b"OLD".to_vec());
    assert!(out[1].profile.is_some());
    let kept = out[1].fitness.as_ref().expect("cached fitness kept");
    assert_eq!(kept.get(Objective::GadgetsExecuted), Some(123));
    assert_eq!(kept.scores.len(), 1);
}

#[test]
fn evaluate_attaches_profile_and_updates_sketch() {
    let cfg = config();
    let mut evaluator = Evaluator::new(cfg, FitnessStrategy::CodeCoverage);
    let creature = Creature::new(b"A".to_vec());
    let scored = evaluator.evaluate(creature, sample_profiler().freeze());
    assert!(scored.profile.is_some());
    let w = scored.fitness.expect("a fitness");
    assert_eq!(w.get(Objective::CodeCoverage), Some(960_000));
    // The run visited 0x10..0x14; the sketch saw each address once.
    assert!(evaluator.sketch.query(0x10) >= 1);
    assert!(evaluator.sketch.query(0x13) >= 1);
    // A second identical run is scored against the updated sketch, so the
    // frequency-pressure term now reflects the earlier visits.
    let again = evaluator.evaluate(Creature::new(b"B".to_vec()), sample_profiler().freeze());
    let w2 = again.fitness.expect("a fitness");
    assert!(w2.get(Objective::CodeFrequency).unwrap() >= 1);
}

#[test]
fn eval_config_rejects_each_bad_parameter() {
    assert_eq!(EvalConfig::new(0, 1, 1, None).unwrap_err(), EvalConfigError::ZeroCodeSize);
    assert_eq!(EvalConfig::new(1, 0, 1, None).unwrap_err(), EvalConfigError::ZeroWriteableSize);
    assert_eq!(EvalConfig::new(1, 1, 0, None).unwrap_err(), EvalConfigError::ZeroSketchWidth);
}

#[test]
fn weighted_insert_replaces_and_get_reads_back() {
    let mut w = Weighted::new();
    assert_eq!(w.get(Objective::Zeroes), None);
    w.insert(Objective::Zeroes, 3);
    w.insert(Objective::CrashCount, 9);
    assert_eq!(w.get(Objective::Zeroes), Some(3));
    assert_eq!(w.get(Objective::CrashCount), Some(9));
    w.insert(Objective::Zeroes, 4);
    assert_eq!(w.get(Objective::Zeroes), Some(4));
    assert_eq!(w.scores.len(), 2);
}
