use watt::collect::disk::{disk_totals, DiskIoCollector};
use watt::collect::gpu::memory_per_pid;
use watt::collect::network::total_traffic;
use watt::config::Cli;
use watt::ui::cpu_view::visible_cores;
use watt::ui::profile_view::clamp_scroll;
use std::time::Duration;

#[test]
fn disk_deltas_since_last_reading() {
    let mut c = DiskIoCollector::new(Some((1000, 500)));
    assert_eq!(c.advance(Some((1500, 700))), Some((500, 200)));
    assert_eq!(c.advance(Some((1500, 700))), Some((0, 0)));
    // a reading that fails changes nothing
    assert_eq!(c.advance(None), None);
    assert_eq!(c.advance(Some((1600, 800))), Some((100, 100)));
    // counters that go backwards report zero and become the new reference
    assert_eq!(c.advance(Some((10, 20))), Some((0, 0)));
    assert_eq!(c.advance(Some((15, 20))), Some((5, 0)));
}

#[test]
fn disk_collector_without_counters_starts_at_zero() {
    let mut c = DiskIoCollector::new(None);
    assert_eq!(c.advance(Some((4096, 8192))), Some((4096, 8192)));
}

#[test]
fn gpu_memory_is_summed_per_pid() {
    let entries = vec![(7u32, Some(100u64)), (9, None), (7, Some(20)), (3, Some(5)), (9, Some(1))];
    let mut per_pid = memory_per_pid(&entries);
    per_pid.sort();
    assert_eq!(per_pid, vec![(3, 5), (7, 120), (9, 1)]);
    assert!(memory_per_pid(&[]).is_empty());
}

#[test]
fn network_traffic_is_summed() {
    assert_eq!(total_traffic(&[(10, 1), (20, 2), (30, 3)]), (60, 6));
    assert_eq!(total_traffic(&[]), (0, 0));
}

#[test]
fn interval_in_milliseconds() {
    let cli = Cli { interval: 100, profile: false };
    assert_eq!(cli.interval_duration(), Duration::from_millis(100));
    let cli = Cli { interval: 2500, profile: true };
    assert_eq!(cli.interval_duration(), Duration::from_millis(2500));
}

#[test]
fn visible_core_rows() {
    assert_eq!(visible_cores(12, 30), 12);
    assert_eq!(visible_cores(12, 9), 4);
    assert_eq!(visible_cores(12, 1), 0);
    assert_eq!(visible_cores(0, 40), 0);
}

#[test]
fn profile_scroll_is_clamped() {
    // 10 lines in an area of height 6 (4 inner rows): at most 6
    assert_eq!(clamp_scroll(3, 10, 6), 3);
    assert_eq!(clamp_scroll(9, 10, 6), 6);
    assert_eq!(clamp_scroll(9, 3, 6), 0);
    assert_eq!(clamp_scroll(5, 10, 1), 5);
    assert_eq!(clamp_scroll(50, 10, 0), 10);
}

#[test]
fn disk_deltas_add_up_over_readings() {
    let readings = [(100i64, 50i64), (250, 50), (250, 90), (1000, 400)];
    let mut c = DiskIoCollector::new(Some((40, 10)));
    let (mut read, mut written) = (0u64, 0u64);
    for r in readings {
        let (dr, dw) = c.advance(Some(r)).unwrap();
        read += dr;
        written += dw;
    }
    assert_eq!((read, written), (1000 - 40, 400 - 10));
}

#[test]
fn disk_totals_sum_the_drives() {
    let drives = [(Some(100i64), Some(7i64)), (None, Some(3)), (Some(-20), None), (Some(5), Some(0))];
    assert_eq!(disk_totals(&drives), (85, 10));
    assert_eq!(disk_totals(&[]), (0, 0));
}
