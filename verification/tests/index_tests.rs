use ossido_bench::index::{build_table, read_meta, splice_table, RunDir, TableUpdate, END, START};

fn run(dir: &str, results: Option<&str>, memory: Option<&str>, tp: bool, mem: bool) -> RunDir {
    RunDir {
        dir: dir.to_string(),
        results_json: results.map(|s| s.to_string()),
        memory_json: memory.map(|s| s.to_string()),
        has_throughput: tp,
        has_memory: mem,
    }
}

#[test]
fn metadata_prefers_results_json() {
    let r = r#"{"generatedAt":"2026-01-02T00:00:00Z","versions":{"ossido":"0.1.8","next":"16.3.2"}}"#;
    let m = r#"{"generatedAt":"2025-01-01T00:00:00Z","versions":{"ossido":"0.1.7","next":"16.0.0"}}"#;
    assert_eq!(
        read_meta(Some(r), Some(m)),
        (Some("0.1.8".to_string()), Some("16.3.2".to_string()), Some("2026-01-02T00:00:00Z".to_string()))
    );
    assert_eq!(
        read_meta(Some("{broken"), Some(m)),
        (Some("0.1.7".to_string()), Some("16.0.0".to_string()), Some("2025-01-01T00:00:00Z".to_string()))
    );
    assert_eq!(read_meta(None, None), (None, None, None));
    assert_eq!(read_meta(Some("{}"), Some(m)), (None, None, None));
}

#[test]
fn empty_results_table() {
    assert_eq!(build_table(&Vec::new()), "_No results yet — run `bun run bench` and `bun run bench:memory`._");
}

#[test]
fn table_lists_newest_first() {
    let old = r#"{"generatedAt":"2025-08-01T00:00:00Z","versions":{"ossido":"0.1.7","next":"16.0.0"}}"#;
    let new = r#"{"generatedAt":"2025-08-22T00:00:00Z","versions":{"ossido":"0.1.8","next":"16.3.2"}}"#;
    let dirs = vec![
        run("0.1.7", Some(old), None, true, false),
        run("0.1.8", None, Some(new), false, true),
        run("mystery", None, None, false, false),
    ];
    let want = "| Ossido version | Next version | Throughput result | Memory result |\n| --- | --- | --- | --- |\n\
| `0.1.8` | `16.3.2` | — | [MEMORY.md](./results/0.1.8/MEMORY.md) · [json](./results/0.1.8/memory.json) |\n\
| `0.1.7` | `16.0.0` | [RESULTS.md](./results/0.1.7/RESULTS.md) · [json](./results/0.1.7/results.json) | — |\n\
| `mystery` | `—` | — | — |";
    assert_eq!(build_table(&dirs), want);
}

#[test]
fn equal_timestamps_order_by_version_then_scan_order() {
    let a = r#"{"generatedAt":"T","versions":{"ossido":"1.0","next":"x"}}"#;
    let b = r#"{"generatedAt":"T","versions":{"ossido":"2.0","next":"y"}}"#;
    let dirs = vec![run("d1", Some(a), None, false, false), run("d2", Some(b), None, false, false), run("d3", Some(a), None, false, false)];
    let t = build_table(&dirs);
    let lines: Vec<&str> = t.lines().skip(2).collect();
    assert_eq!(lines, vec!["| `2.0` | `y` | — | — |", "| `1.0` | `x` | — | — |", "| `1.0` | `x` | — | — |"]);
}

#[test]
fn splice_replaces_the_marked_block() {
    let md = format!("# T\n{START}\nold\n{END}\ntail\n");
    match splice_table(&md, "NEW") {
        TableUpdate::Updated(s) => {
            assert_eq!(s, format!("# T\n{START}\nNEW\n{END}\ntail\n"));
            match splice_table(&s, "NEW") {
                TableUpdate::Updated(again) => assert_eq!(again, s),
                _ => panic!("second update failed"),
            }
        }
        _ => panic!("update failed"),
    }
}

#[test]
fn splice_refuses_missing_or_reversed_markers() {
    assert!(matches!(splice_table("no markers", "t"), TableUpdate::MissingMarkers));
    assert!(matches!(splice_table(&format!("{START} only"), "t"), TableUpdate::MissingMarkers));
    assert!(matches!(splice_table(&format!("{END} x {START}"), "t"), TableUpdate::OutOfOrder));
}
