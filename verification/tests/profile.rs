use e_tui::profile::{FrameMetrics, FrameSample};

const MS: u64 = 1_000_000;

#[test]
fn disabled_metrics_store_nothing() {
    let mut metrics = FrameMetrics::new(false, 2, 1);
    assert!(metrics.record(FrameSample::default()).is_none());
    assert_eq!(metrics.len(), 0);
}

#[test]
fn metrics_are_bounded_and_report_required_fields() {
    let mut metrics = FrameMetrics::new(true, 2, 3);
    for n in 1..=3u64 {
        let report = metrics.record(FrameSample {
            total_ns: n * MS,
            render_ns: n * 100_000,
            changed_cells: n,
            emitted_bytes: n * 10,
            cache_patches: 1,
            materialized_rows: 20,
            ..FrameSample::default()
        });
        if n == 3 {
            let report = report.expect("third sample reports");
            for field in ["p50=", "p95=", "p99=", "cells_p95=", "bytes_p95="] {
                assert!(report.contains(field), "missing {field}: {report}");
            }
        } else {
            assert!(report.is_none());
        }
    }
    assert_eq!(metrics.len(), 2, "oldest sample evicted");
}

#[test]
fn distribution_uses_nearest_rank_ceiling() {
    let mut metrics = FrameMetrics::new(true, 8, 4);
    let mut last = None;
    for n in [3u64, 1, 4, 2] {
        last = metrics.record(FrameSample { total_ns: n * MS, ..FrameSample::default() });
    }
    let report = last.expect("fourth sample reports");
    assert!(report.starts_with("[e frames] n=4 total_ms p50=2.00 p95=4.00 p99=4.00 max=4.00;"), "{report}");
}

#[test]
fn report_sums_counters_and_rounds_milliseconds() {
    let mut metrics = FrameMetrics::new(true, 4, 1);
    metrics.record(FrameSample { total_ns: 1_234_567, cache_rebuilds: 2, changed_cells: 7, ..FrameSample::default() });
    let report = metrics
        .record(FrameSample { total_ns: 5_000, cache_rebuilds: 3, changed_cells: 9, ..FrameSample::default() })
        .unwrap();
    assert_eq!(
        report,
        "[e frames] n=2 total_ms p50=0.01 p95=1.23 p99=1.23 max=1.23; scheduler_p95=0.00; render_p95=0.00; draw_p95=0.00; cells_p95=9; bytes_p95=0; rebuilds=5; patches=0; visible_rows=0; preview_rebuilds=0; preview_patches=0; preview_rows=0"
    );
    assert!(!metrics.is_empty());
    assert!(metrics.enabled());
}
