use memtest_gpu_ecc::exercise::canonical_patterns;
use memtest_gpu_ecc::exercise::compare_readback;
use memtest_gpu_ecc::exercise::exercise_target;
use memtest_gpu_ecc::exercise::inconclusive_result;
use memtest_gpu_ecc::exercise::run;
use memtest_gpu_ecc::exercise::TestOutcome;
use memtest_gpu_ecc::exercise::TestRun;
use memtest_gpu_ecc::exercise::TestTarget;
use memtest_gpu_ecc::exercise::PATTERN_ONES;
use memtest_gpu_ecc::exercise::PATTERN_ZEROS;
use memtest_gpu_ecc::mock::MockDevice;
use memtest_gpu_ecc::report::summarize;
use memtest_gpu_ecc::tiers::plan_sizes;
use memtest_gpu_ecc::tiers::tier_sizes;
use memtest_gpu_ecc::tiers::SizeTier;
use memtest_gpu_ecc::tiers::GIGABYTE;
use memtest_gpu_ecc::tiers::KILOBYTE;
use memtest_gpu_ecc::tiers::MEGABYTE;

fn target(buffer: usize, base: usize, len: usize) -> TestTarget {
    TestTarget { buffer, tier: SizeTier::Kilobyte, base, len }
}

#[test]
fn canonical_patterns_are_zeros_then_ones() {
    assert_eq!(canonical_patterns(), vec![0x0000_0000, 0xFFFF_FFFF]);
    assert_eq!(PATTERN_ZEROS, 0x0000_0000);
    assert_eq!(PATTERN_ONES, 0xFFFF_FFFF);
}

#[test]
fn tier_sizes_are_ten_geometric_steps() {
    let kb = tier_sizes(SizeTier::Kilobyte);
    assert_eq!(kb, vec![1024, 2048, 4096, 8192, 16384, 32768, 65536, 131072, 262144, 524288]);
    let mb = tier_sizes(SizeTier::Megabyte);
    assert_eq!(mb[0], MEGABYTE);
    assert_eq!(mb[9], 512 * MEGABYTE);
    let gb = tier_sizes(SizeTier::Gigabyte);
    assert_eq!(gb[0], GIGABYTE);
    assert_eq!(gb[9], 512 * GIGABYTE);
    assert_eq!(KILOBYTE, 1024);
    assert_eq!(MEGABYTE, 1024 * 1024);
    assert_eq!(GIGABYTE, 1024 * 1024 * 1024);
}

#[test]
fn plan_covers_thirty_sizes_across_three_tiers() {
    let plan = plan_sizes();
    assert_eq!(plan.len(), 30);
    assert_eq!(plan[0], (SizeTier::Kilobyte, 1024));
    assert_eq!(plan[9], (SizeTier::Kilobyte, 512 * 1024));
    assert_eq!(plan[10], (SizeTier::Megabyte, MEGABYTE));
    assert_eq!(plan[29], (SizeTier::Gigabyte, 512 * GIGABYTE));
}

#[test]
fn known_good_memory_yields_zero_discrepancies() {
    // Fill-then-readback on a fault-free backing store: every buffer and
    // both canonical patterns pass with nothing recorded.
    let mut dev = MockDevice::new(16384);
    let targets = vec![target(0, 0, 8192), target(1, 8192, 8192)];
    let patterns = canonical_patterns();
    let tr = run(&mut dev, &targets, &patterns);
    assert_eq!(tr.results.len(), 4);
    for r in &tr.results {
        assert_eq!(r.outcome, TestOutcome::Pass);
        assert_eq!(r.discrepancies.len(), 0);
    }
}

#[test]
fn single_cycle_reports_exact_observed_word() {
    let mut dev = MockDevice::new(4096);
    dev.inject_fault(128, 0);
    let r = exercise_target(&mut dev, target(0, 0, 4096), PATTERN_ZEROS);
    assert_eq!(r.outcome, TestOutcome::Mismatch);
    assert_eq!(r.discrepancies.len(), 1);
    assert_eq!(r.discrepancies[0].offset, 128);
    assert_eq!(r.discrepancies[0].expected, 0x0000_0000);
    assert_eq!(r.discrepancies[0].observed, 0x0000_0001);
}

#[test]
fn flipped_bit_is_reported_once_per_pattern_pass() {
    // One buffer's backing store silently flips bit 3 of its byte offset
    // 4096: the full two-pattern run reports exactly one discrepancy for
    // the all-zero pass and one for the all-one pass, both at that offset,
    // and every other buffer reports none.
    let buffer_len = 8192;
    let faulty_buffer = 1;
    let faulty_base = faulty_buffer * buffer_len;
    let mut dev = MockDevice::new(3 * buffer_len);
    dev.inject_fault(faulty_base + 4096, 3);

    let targets = vec![
        target(0, 0, buffer_len),
        target(1, buffer_len, buffer_len),
        target(2, 2 * buffer_len, buffer_len),
    ];
    let patterns = canonical_patterns();
    let tr = run(&mut dev, &targets, &patterns);
    assert_eq!(tr.results.len(), 6);

    // Pattern passes are ordered: all buffers under zeros, then under ones.
    let zeros_faulty = &tr.results[faulty_buffer];
    assert_eq!(zeros_faulty.buffer, faulty_buffer);
    assert_eq!(zeros_faulty.pattern, PATTERN_ZEROS);
    assert_eq!(zeros_faulty.outcome, TestOutcome::Mismatch);
    assert_eq!(zeros_faulty.discrepancies.len(), 1);
    assert_eq!(zeros_faulty.discrepancies[0].offset, 4096);
    assert_eq!(zeros_faulty.discrepancies[0].expected, 0x0000_0000);
    // Zero expected, bit 3 observed set.
    assert_eq!(zeros_faulty.discrepancies[0].observed, 0x0000_0008);

    let ones_faulty = &tr.results[3 + faulty_buffer];
    assert_eq!(ones_faulty.buffer, faulty_buffer);
    assert_eq!(ones_faulty.pattern, PATTERN_ONES);
    assert_eq!(ones_faulty.outcome, TestOutcome::Mismatch);
    assert_eq!(ones_faulty.discrepancies.len(), 1);
    assert_eq!(ones_faulty.discrepancies[0].offset, 4096);
    assert_eq!(ones_faulty.discrepancies[0].expected, 0xFFFF_FFFF);
    // All-ones expected, bit 3 observed cleared.
    assert_eq!(ones_faulty.discrepancies[0].observed, 0xFFFF_FFF7);

    for (i, r) in tr.results.iter().enumerate() {
        if i % 3 != faulty_buffer {
            assert_eq!(r.outcome, TestOutcome::Pass);
            assert_eq!(r.discrepancies.len(), 0);
        }
    }
}

#[test]
fn compare_readback_flags_each_mismatched_word() {
    let observed = vec![7, 7, 9, 7, 0];
    let r = compare_readback(4, SizeTier::Megabyte, 7, &observed);
    assert_eq!(r.buffer, 4);
    assert_eq!(r.tier, SizeTier::Megabyte);
    assert_eq!(r.outcome, TestOutcome::Mismatch);
    assert_eq!(r.discrepancies.len(), 2);
    assert_eq!(r.discrepancies[0].offset, 8);
    assert_eq!(r.discrepancies[0].observed, 9);
    assert_eq!(r.discrepancies[0].expected, 7);
    assert_eq!(r.discrepancies[1].offset, 16);
    assert_eq!(r.discrepancies[1].observed, 0);
}

#[test]
fn compare_readback_passes_when_every_word_matches() {
    let observed = vec![0xABCD_EF01; 64];
    let r = compare_readback(0, SizeTier::Kilobyte, 0xABCD_EF01, &observed);
    assert_eq!(r.outcome, TestOutcome::Pass);
    assert_eq!(r.discrepancies.len(), 0);
}

#[test]
fn inconclusive_is_distinct_from_mismatch() {
    let r = inconclusive_result(2, SizeTier::Gigabyte, PATTERN_ONES);
    assert_eq!(r.outcome, TestOutcome::Inconclusive);
    assert_ne!(r.outcome, TestOutcome::Mismatch);
    assert_eq!(r.discrepancies.len(), 0);
    assert_eq!(r.buffer, 2);
    assert_eq!(r.pattern, PATTERN_ONES);
}

#[test]
fn summary_counts_by_tier_and_outcome() {
    let mut dev = MockDevice::new(8192);
    dev.inject_fault(2048, 5);
    let targets = vec![
        TestTarget { buffer: 0, tier: SizeTier::Kilobyte, base: 0, len: 4096 },
        TestTarget { buffer: 1, tier: SizeTier::Megabyte, base: 4096, len: 4096 },
    ];
    let patterns = canonical_patterns();
    let mut tr = run(&mut dev, &targets, &patterns);
    // A cycle that could not be submitted is recorded as inconclusive.
    tr.results.push(inconclusive_result(2, SizeTier::Gigabyte, PATTERN_ZEROS));

    let report = summarize(&vec![tr]);
    // Buffer 0 (kilobyte tier) holds the fault: failed under both patterns.
    assert_eq!(report.kilobyte.passed, 0);
    assert_eq!(report.kilobyte.failed, 2);
    assert_eq!(report.kilobyte.inconclusive, 0);
    // Buffer 1 (megabyte tier) is clean.
    assert_eq!(report.megabyte.passed, 2);
    assert_eq!(report.megabyte.failed, 0);
    // The unsubmittable cycle is counted as inconclusive, not failed.
    assert_eq!(report.gigabyte.passed, 0);
    assert_eq!(report.gigabyte.failed, 0);
    assert_eq!(report.gigabyte.inconclusive, 1);

    // The full discrepancy list is kept, in order.
    assert_eq!(report.discrepancies.len(), 2);
    assert_eq!(report.discrepancies[0].offset, 2048);
    assert_eq!(report.discrepancies[0].expected, PATTERN_ZEROS);
    assert_eq!(report.discrepancies[0].observed, 1 << 5);
    assert_eq!(report.discrepancies[1].expected, PATTERN_ONES);
    assert_eq!(report.discrepancies[1].observed, 0xFFFF_FFFF ^ (1 << 5));
}

#[test]
fn summary_of_no_runs_is_empty() {
    let runs: Vec<TestRun> = Vec::new();
    let report = summarize(&runs);
    assert_eq!(report.kilobyte.passed, 0);
    assert_eq!(report.megabyte.failed, 0);
    assert_eq!(report.gigabyte.inconclusive, 0);
    assert_eq!(report.discrepancies.len(), 0);
}

#[test]
fn fill_leaves_bytes_outside_the_range_untouched() {
    let mut dev = MockDevice::new(16);
    dev.fill(4, 8, 0xFFFF_FFFF);
    // Words before and after the filled range still read all-zero.
    assert_eq!(dev.read_word(0), 0x0000_0000);
    assert_eq!(dev.read_word(4), 0xFFFF_FFFF);
    assert_eq!(dev.read_word(8), 0xFFFF_FFFF);
    assert_eq!(dev.read_word(12), 0x0000_0000);
}

#[test]
fn faulty_cell_flips_exactly_its_bit_on_write() {
    let mut dev = MockDevice::new(8);
    dev.inject_fault(5, 7);
    dev.fill(0, 8, 0x0000_0000);
    assert_eq!(dev.read_word(0), 0x0000_0000);
    // Byte 5 is byte 1 of the second word: bit 7 of that byte is bit 15 of
    // the word.
    assert_eq!(dev.read_word(4), 0x0000_8000);
}
