use unico::bencher::TestResult;
use unico::jobs::{file_size, fs_size, plan_job, JobPlan};

#[test]
fn job_sizes_shrink_with_the_id() {
    assert_eq!(fs_size(0, 24), (60 + 72) * 1024 * 1024);
    assert_eq!(fs_size(23, 24), 63 * 1024 * 1024);
    assert_eq!(fs_size(24, 24), 60 * 1024 * 1024);
    assert_eq!(file_size(0, 24), (55 + 72) * 1024 * 1024);
    assert_eq!(file_size(23, 24), 58 * 1024 * 1024);
}

#[test]
fn plan_rounds_up_to_sectors_and_blocks() {
    assert_eq!(
        plan_job(1000, 1),
        Some(JobPlan { fs_size: 1024, total_sectors: 2, file_size: 1048576, blocks: 1 })
    );
    assert_eq!(
        plan_job(1024, 2 * 1048576),
        Some(JobPlan { fs_size: 1024, total_sectors: 2, file_size: 2 * 1048576, blocks: 2 })
    );
    assert_eq!(plan_job(0, 0), Some(JobPlan { fs_size: 0, total_sectors: 0, file_size: 0, blocks: 0 }));
}

#[test]
fn plan_refuses_sizes_that_round_past_u64() {
    assert_eq!(plan_job(u64::MAX, 0), None);
    assert_eq!(plan_job(0, u64::MAX - 5), None);
}

#[test]
fn sum_adds_durations_and_baselines() {
    let rs = vec![
        TestResult { duration: 10, baseline: 3 },
        TestResult { duration: -4, baseline: 7 },
        TestResult { duration: 1_000_000_000, baseline: 0 },
    ];
    assert_eq!(TestResult::sum(&rs), Some(TestResult { duration: 1_000_000_006, baseline: 10 }));
    assert_eq!(TestResult::sum(&Vec::new()), Some(TestResult { duration: 0, baseline: 0 }));
}

#[test]
fn sum_refuses_overflowing_durations() {
    let max = unico::bencher::MAX_NANOS;
    let rs = vec![TestResult { duration: max, baseline: 0 }, TestResult { duration: 1, baseline: 0 }];
    assert_eq!(TestResult::sum(&rs), None);
}

#[test]
fn sum_reaches_the_most_negative_duration() {
    let min = unico::bencher::MIN_NANOS;
    let rs = vec![TestResult { duration: min + 1, baseline: 0 }, TestResult { duration: -1, baseline: 0 }];
    assert_eq!(TestResult::sum(&rs), Some(TestResult { duration: min, baseline: 0 }));
    let past = vec![TestResult { duration: min, baseline: 0 }, TestResult { duration: -1, baseline: 0 }];
    assert_eq!(TestResult::sum(&past), None);
}
