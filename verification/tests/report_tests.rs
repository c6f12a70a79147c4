use ossido_bench::mem_report::{levels, mermaid_sweep_bar};

#[test]
fn parallelism_levels() {
    assert_eq!(levels(10), vec![1, 2, 4, 8, 10]);
    assert_eq!(levels(8), vec![1, 2, 4, 8]);
    assert_eq!(levels(3), vec![1, 2, 3]);
    assert_eq!(levels(2), vec![1, 2]);
    assert_eq!(levels(1), vec![1]);
    assert_eq!(levels(0), vec![0, 1]);
    assert_eq!(levels(33), vec![1, 2, 4, 8, 16, 32, 33]);
}

#[test]
fn sweep_bar_chart() {
    let chart = mermaid_sweep_bar(
        "Throughput — req/s",
        "req/s",
        &vec![1, 2],
        &vec!["100.5".to_string(), "180".to_string()],
        &vec!["90".to_string(), "120.25".to_string()],
    );
    let want = "```mermaid\nxychart-beta\n    title \"Throughput — req/s\"\n    x-axis [\"Oss x1\", \"Oss x2\", \"Next x1\", \"Next x2\"]\n    y-axis \"req/s\"\n    bar [100.5, 180, 90, 120.25]\n```\n";
    assert_eq!(chart, want);
}

use ossido_bench::config::FrameworkKey;
use ossido_bench::mem_report::{largest_fit, memory_table_rows, RecordIndex};

#[test]
fn record_lookup_keeps_the_last() {
    let keys = vec![(FrameworkKey::Ossido, 1), (FrameworkKey::Next, 1), (FrameworkKey::Ossido, 1), (FrameworkKey::Next, 4)];
    let index = RecordIndex::new(&keys);
    assert_eq!(index.get(FrameworkKey::Ossido, 1), Some(2));
    assert_eq!(index.get(FrameworkKey::Next, 1), Some(1));
    assert_eq!(index.get(FrameworkKey::Next, 4), Some(3));
    assert_eq!(index.get(FrameworkKey::Next, 2), None);
    assert_eq!(index.get(FrameworkKey::Ossido, 4), None);
}

#[test]
fn memory_table_order() {
    let keys = vec![(FrameworkKey::Next, 1), (FrameworkKey::Ossido, 2), (FrameworkKey::Ossido, 1), (FrameworkKey::Next, 2)];
    assert_eq!(memory_table_rows(&keys, &vec![1, 2, 4]), vec![2, 1, 0, 3]);
    assert_eq!(memory_table_rows(&Vec::new(), &vec![1, 2]), Vec::<usize>::new());
}

#[test]
fn largest_level_that_fits() {
    assert_eq!(largest_fit(&vec![1, 2, 4, 8], &vec![true, true, false, false]), Some(2));
    assert_eq!(largest_fit(&vec![1, 2, 4, 8], &vec![false, false, false, false]), None);
    assert_eq!(largest_fit(&vec![1, 2, 4], &vec![true, false, true]), Some(4));
}
