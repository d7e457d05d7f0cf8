use berbalang::profile::Profile;
use berbalang::profiler::{Block, CpuError, MemLogEntry, Profiler};

fn profiler_with_blocks(blocks: &[(u64, usize)]) -> Profiler {
    let mut p = Profiler::new(Vec::new(), Vec::new());
    for &(entry, size) in blocks {
        p.record_block(Block { entry, size });
    }
    p
}

#[test]
fn test_collate() {
    let profilers: Vec<Profiler> = vec![
        profiler_with_blocks(&[(1, 2), (3, 4)]),
        profiler_with_blocks(&[(1, 2), (6, 6)]),
    ];

    let profile = Profile::collate(profilers);

    println!("size of profile in mem: {}", std::mem::size_of_val(&profile.paths));
    assert_eq!(profile.paths.len(), 2);
    assert_eq!(profile.paths[0], vec![Block { entry: 1, size: 2 }, Block { entry: 3, size: 4 }]);
    assert_eq!(profile.paths[1], vec![Block { entry: 1, size: 2 }, Block { entry: 6, size: 6 }]);
    assert!(profile.executable);
}

#[test]
fn freeze_drains_in_fifo_order() {
    let mut p = Profiler::new(Vec::new(), Vec::new());
    p.record_block(Block { entry: 0x10, size: 4 });
    p.record_block(Block { entry: 0x20, size: 2 });
    p.record_block(Block { entry: 0x30, size: 1 });
    p.record_gadget(0x20);
    p.record_write(MemLogEntry { program_counter: 0x10, address: 0x1000, num_bytes_written: 2, value: 7 });
    p.record_write(MemLogEntry { program_counter: 0x12, address: 0x1002, num_bytes_written: 2, value: 9 });
    p.set_emulation_micros(42);

    let profile = p.freeze();

    assert_eq!(profile.paths.len(), 1);
    assert_eq!(
        profile.paths[0],
        vec![
            Block { entry: 0x10, size: 4 },
            Block { entry: 0x20, size: 2 },
            Block { entry: 0x30, size: 1 },
        ]
    );
    assert_eq!(profile.write_logs[0].len(), 2);
    assert_eq!(profile.write_logs[0][0].value, 7);
    assert_eq!(profile.write_logs[0][1].value, 9);
    assert_eq!(profile.emulation_times, vec![42]);
    assert!(profile.gadgets_executed[0].contains(0x20));
    assert!(!profile.gadgets_executed[0].contains(0x21));
    assert_eq!(profile.cpu_errors, vec![None]);
}

#[test]
fn absorb_is_associative_over_collate_splits() {
    // Collating xs ++ ys matches absorbing collate(xs) and then collate(ys).
    let xs = || vec![profiler_with_blocks(&[(1, 2)]), profiler_with_blocks(&[(3, 4)])];
    let ys = || vec![profiler_with_blocks(&[(5, 6)])];

    let mut both: Vec<Profiler> = xs();
    both.extend(ys());
    let mut left = Profile::new();
    left.absorb(Profile::collate(both));

    let mut right = Profile::new();
    right.absorb(Profile::collate(xs()));
    right.absorb(Profile::collate(ys()));

    assert_eq!(left.paths, right.paths);
    assert_eq!(left.cpu_errors, right.cpu_errors);
    assert_eq!(left.emulation_times, right.emulation_times);
    assert_eq!(left.registers, right.registers);
    assert_eq!(left.write_logs, right.write_logs);
    assert_eq!(left.executable, right.executable);
    assert_eq!(left.gadgets_executed.len(), right.gadgets_executed.len());
}

#[test]
fn absorb_keeps_run_order_and_ands_executable() {
    let mut a = Profiler::new(Vec::new(), Vec::new()).freeze();
    let b = profiler_with_blocks(&[(9, 1)]).freeze();
    a.executable = false;
    a.absorb(b);
    assert_eq!(a.paths.len(), 2);
    assert_eq!(a.paths[1], vec![Block { entry: 9, size: 1 }]);
    assert!(!a.executable);
}

#[test]
fn was_this_executed_reports_any_run() {
    let mut p1 = Profiler::new(Vec::new(), Vec::new());
    p1.record_gadget(0xdead);
    let mut p2 = Profiler::new(Vec::new(), Vec::new());
    p2.record_gadget(0xbeef);
    let profile = Profile::collate(vec![p1, p2]);

    assert!(profile.was_this_executed(0xdead));
    assert!(profile.was_this_executed(0xbeef));
    assert!(!profile.was_this_executed(0xcafe));
}

#[test]
fn addresses_written_to_unions_write_ranges() {
    let mut p = Profiler::new(Vec::new(), Vec::new());
    p.record_write(MemLogEntry { program_counter: 0, address: 0x100, num_bytes_written: 4, value: 1 });
    // Overlapping write: only distinct addresses count.
    p.record_write(MemLogEntry { program_counter: 4, address: 0x102, num_bytes_written: 4, value: 2 });
    let profile = p.freeze();

    let written = profile.addresses_written_to();
    assert_eq!(written.len(), 6);
    assert!(written.contains(0x100));
    assert!(written.contains(0x105));
    assert!(!written.contains(0x106));
}

#[test]
fn mem_write_ratio_is_exact_and_clamped() {
    let mut p = Profiler::new(Vec::new(), Vec::new());
    p.record_write(MemLogEntry { program_counter: 0, address: 0x100, num_bytes_written: 4, value: 1 });
    let profile = p.freeze();

    // 4 of 16 writable bytes: exactly a quarter of the scale.
    assert_eq!(profile.mem_write_ratio(16), 250_000);
    // More written than the supplied total: clamped to the full scale.
    assert_eq!(profile.mem_write_ratio(2), 1_000_000);
    assert!(profile.mem_write_ratio(5) <= 1_000_000);
}

#[test]
fn was_this_written_flattens_and_filters() {
    let mut p1 = Profiler::new(Vec::new(), Vec::new());
    p1.record_write(MemLogEntry { program_counter: 0, address: 0x10, num_bytes_written: 8, value: 7 });
    p1.record_write(MemLogEntry { program_counter: 1, address: 0x20, num_bytes_written: 8, value: 8 });
    let mut p2 = Profiler::new(Vec::new(), Vec::new());
    p2.record_write(MemLogEntry { program_counter: 2, address: 0x30, num_bytes_written: 8, value: 7 });
    let profile = Profile::collate(vec![p1, p2]);

    let hits = profile.was_this_written(7);
    assert_eq!(hits.len(), 2);
    assert_eq!(hits[0].address, 0x10);
    assert_eq!(hits[1].address, 0x30);
    assert!(profile.was_this_written(99).is_empty());
}

#[test]
fn avg_emulation_micros_is_the_floor_mean() {
    let mut p1 = Profiler::new(Vec::new(), Vec::new());
    p1.set_emulation_micros(10);
    let mut p2 = Profiler::new(Vec::new(), Vec::new());
    p2.set_emulation_micros(21);
    let profile = Profile::collate(vec![p1, p2]);
    assert_eq!(profile.avg_emulation_micros(), 15);
}

#[test]
fn profiler_registers_and_errors() {
    let mut p = Profiler::new(vec![3, 4], Vec::new());
    p.read_registers(&vec![0xaa, 0xbb]);
    assert_eq!(p.register(3), Some(0xaa));
    assert_eq!(p.register(4), Some(0xbb));
    assert_eq!(p.register(5), None);
    p.set_error(CpuError::FetchUnmapped);
    let profile = p.freeze();
    assert_eq!(profile.cpu_errors, vec![Some(CpuError::FetchUnmapped)]);
    assert_eq!(profile.registers[0], vec![(3, 0xaa), (4, 0xbb)]);
}
