use bench_report::distribution::error_distribution;
use bench_report::distribution::status_distribution;
use bench_report::histogram::build_counts;
use bench_report::percentile::pct_value_exec;
use bench_report::render::render_report;
use bench_report::sortseq::sort_durations;
use bench_report::stats::bytes_per_sec_exec;
use bench_report::stats::Outcome;
use bench_report::textfmt::dec_string;
use bench_report::textfmt::fixed4_string;
use bench_report::textfmt::secs3_string;
use bench_report::textfmt::secs4_string;

fn uniform_successes() -> Vec<Outcome> {
    let mut v = Vec::new();
    for k in 1..=10u64 {
        v.push(Outcome::Success {
            duration_ns: k * 100_000_000,
            byte_length: 100,
            status: 200,
        });
    }
    v
}

#[test]
fn scenario_uniform_successes() {
    let r = render_report(&uniform_successes(), 1_000_000_000);
    assert!(r.contains("Summary:\n"));
    assert!(r.contains("  Success rate:\t1.0000\n"));
    assert!(r.contains("  Total:\t1.0000 secs\n"));
    assert!(r.contains("  Slowest:\t1.0000 secs\n"));
    assert!(r.contains("  Fastest:\t0.1000 secs\n"));
    assert!(r.contains("  Average:\t0.5500 secs\n"));
    assert!(r.contains("  Requests/sec:\t10.0000\n"));
    let td = format!(
        "  Total data:\t{}\n",
        byte_unit::Byte::from_bytes(1000).get_appropriate_unit(true)
    );
    assert!(r.contains(&td));
    let sr = format!(
        "  Size/request:\t{}\n",
        byte_unit::Byte::from_bytes(100).get_appropriate_unit(true)
    );
    assert!(r.contains(&sr));
    let ss = format!(
        "  Size/sec:\t{}\n",
        byte_unit::Byte::from_bytes(1000).get_appropriate_unit(true)
    );
    assert!(r.contains(&ss));
    // nearest-rank median of ten samples: element at index 5 of the sorted
    // array, the sixth smallest value
    assert!(r.contains("  50% in 0.6000 secs\n"));
    assert!(r.contains("  10% in 0.2000 secs\n"));
    assert!(r.contains("  99% in 1.0000 secs\n"));
    assert!(r.contains("Status code distribution:\n"));
    assert!(r.contains("  [200] 10 responses\n"));
    assert!(!r.contains("Error distribution:"));
    // the fullest bin renders all 32 bar cells
    assert!(r.contains("  0.100 [1]\t|■■■■■■■■■■■■■■■■■■■■■■■■■■■■■■■■\n"));
}

#[test]
fn whole_report_exact_text() {
    let v = vec![
        Outcome::Success {
            duration_ns: 100_000_000,
            byte_length: 1000,
            status: 200,
        },
        Outcome::Failure {
            error: "boom".to_string(),
        },
    ];
    let r = render_report(&v, 2_000_000_000);
    let bu = |n: u128| {
        byte_unit::Byte::from_bytes(n)
            .get_appropriate_unit(true)
            .to_string()
    };
    // one distinct sample: the visible range collapses, everything lands in
    // the first bin, and all percentiles are the single value
    let mut hist = format!("  0.100 [1]\t|{}\n", "■".repeat(32));
    for _ in 0..10 {
        hist.push_str("  0.100 [0]\t|\n");
    }
    let mut lat = String::new();
    for p in [10, 25, 50, 75, 90, 95, 99] {
        lat.push_str(&format!("  {}% in 0.1000 secs\n", p));
    }
    let expected = format!(
        "Summary:\n  Success rate:\t0.5000\n  Total:\t2.0000 secs\n  Slowest:\t0.1000 secs\n  Fastest:\t0.1000 secs\n  Average:\t0.1000 secs\n  Requests/sec:\t1.0000\n\n  Total data:\t{}\n  Size/request:\t{}\n  Size/sec:\t{}\n\nResponse time histogram:\n{}\nLatency distribution:\n{}\nStatus code distribution:\n  [200] 1 responses\n\nError distribution:\n  [1] boom\n",
        bu(1000),
        bu(1000),
        bu(500),
        hist,
        lat
    );
    assert_eq!(r, expected);
}

#[test]
fn renderer_is_deterministic() {
    let v = uniform_successes();
    let r1 = render_report(&v, 1_000_000_000);
    let r2 = render_report(&v, 1_000_000_000);
    assert_eq!(r1.as_bytes(), r2.as_bytes());
}

#[test]
fn scenario_empty_result_set() {
    let v: Vec<Outcome> = Vec::new();
    let r = render_report(&v, 1_000_000_000);
    assert!(r.contains("  Success rate:\tNaN\n"));
    assert!(r.contains("  Slowest:\tNaN secs\n"));
    assert!(r.contains("  Fastest:\tNaN secs\n"));
    assert!(r.contains("  Average:\tNaN secs\n"));
    assert!(r.contains("  Size/request:\tNaN\n"));
    // the histogram emits no bin lines at all
    assert!(r.contains("Response time histogram:\n\nLatency distribution:\n"));
    // every percentile row falls back to the sentinel
    assert!(r.contains("  10% in NaN secs\n"));
    assert!(r.contains("  99% in NaN secs\n"));
    assert!(!r.contains("Error distribution:"));
}

#[test]
fn scenario_all_failures() {
    let mut v = Vec::new();
    for _ in 0..5 {
        v.push(Outcome::Failure {
            error: "timeout".to_string(),
        });
    }
    let r = render_report(&v, 1_000_000_000);
    assert!(r.contains("  Success rate:\t0.0000\n"));
    // the status section is present but holds no rows
    assert!(r.contains("Status code distribution:\n"));
    assert!(!r.contains(" responses\n"));
    assert!(r.contains("Error distribution:\n  [5] timeout\n"));
}

#[test]
fn scenario_status_tie_broken_by_key() {
    let mut v = Vec::new();
    for status in [200u16, 404, 404, 200] {
        v.push(Outcome::Success {
            duration_ns: 1_000_000,
            byte_length: 1,
            status,
        });
    }
    let r = render_report(&v, 1_000_000_000);
    let i200 = r.find("  [200] 2 responses\n").unwrap();
    let i404 = r.find("  [404] 2 responses\n").unwrap();
    assert!(i200 < i404);
}

#[test]
fn histogram_clips_long_tail() {
    // nine quick samples and one extreme outlier: the visible range is
    // capped at three times the mean, and the outlier falls into the last
    // bin instead of flattening the rest
    let mut v = Vec::new();
    for _ in 0..9 {
        v.push(Outcome::Success {
            duration_ns: 100_000_000,
            byte_length: 1,
            status: 200,
        });
    }
    v.push(Outcome::Success {
        duration_ns: 10_000_000_000,
        byte_length: 1,
        status: 200,
    });
    let r = render_report(&v, 1_000_000_000);
    let first = format!("  0.100 [9]\t|{}\n", "■".repeat(32));
    assert!(r.contains(&first));
    assert!(r.contains("  2.982 [1]\t|■■■\n"));
}

#[test]
fn histogram_counts_sum_to_sample_count() {
    let values: Vec<u64> = vec![
        100, 250, 250, 300, 999, 1000, 1, 1, 57, 400, 770,
    ];
    let counts = build_counts(&values, 1, 999);
    assert_eq!(counts.len(), 11);
    let total: usize = counts.iter().sum();
    assert_eq!(total, values.len());
}

#[test]
fn status_counts_sum_and_order() {
    let keys: Vec<u16> = vec![200, 404, 200, 500, 404, 200];
    let t = status_distribution(&keys);
    let total: u64 = t.iter().map(|e| e.1).sum();
    assert_eq!(total, 6);
    assert_eq!(t, vec![(200u16, 3u64), (404, 2), (500, 1)]);
}

#[test]
fn error_counts_sum_and_order() {
    let keys: Vec<String> = vec![
        "b".to_string(),
        "a".to_string(),
        "a".to_string(),
        "c".to_string(),
    ];
    let t = error_distribution(&keys);
    let total: u64 = t.iter().map(|e| e.1).sum();
    assert_eq!(total, 4);
    assert_eq!(t[0], ("a".to_string(), 2));
    // equal counts fall back to ascending text order
    assert_eq!(t[1], ("b".to_string(), 1));
    assert_eq!(t[2], ("c".to_string(), 1));
}

#[test]
fn percentiles_non_decreasing() {
    let raw: Vec<u64> = vec![900, 100, 500, 300, 700, 200, 400];
    let sorted = sort_durations(&raw);
    let mut last = 0u64;
    for p in [10u64, 25, 50, 75, 90, 95, 99] {
        let v = pct_value_exec(&sorted, p).unwrap();
        assert!(v >= last);
        last = v;
    }
}

#[test]
fn percentile_out_of_range_is_none() {
    let empty: Vec<u64> = Vec::new();
    assert_eq!(pct_value_exec(&empty, 50), None);
}

#[test]
fn bytes_per_sec_times_duration_recovers_bytes() {
    let bps = bytes_per_sec_exec(1000, 3);
    assert_eq!(bps, 333_333_333_333);
    let scaled: u128 = 1000 * 1_000_000_000;
    assert!(bps * 3 <= scaled);
    assert!(scaled < bps * 3 + 3);
}

#[test]
fn decimal_rendering_exact() {
    assert_eq!(dec_string(0), "0");
    assert_eq!(dec_string(90210), "90210");
    assert_eq!(
        dec_string(u128::MAX),
        "340282366920938463463374607431768211455"
    );
    assert_eq!(fixed4_string(10001), "1.0001");
    assert_eq!(fixed4_string(0), "0.0000");
    assert_eq!(secs4_string(55_000_000), "0.0550");
    // rounding to the nearest at the cut digit, halves up
    assert_eq!(secs4_string(123_456_789), "0.1235");
    assert_eq!(secs3_string(123_456_789), "0.123");
    assert_eq!(secs3_string(999_500_000), "1.000");
}
