use ossido_bench::config::{
    dep_version, frameworks, load_scenarios, next_dir, ossido_binary, ossido_dir, ossido_version,
    outputs_enabled, overridden_env_vars, parse_u64, parse_usize, read_versions, results_dir,
    results_root, root, safe_dir_name, stream_scenario, thread_modes, tuning_env_vars, Config,
    FrameworkKey, ThreadMode, Versions, MEM_PATH, NEXT_PORT, OSSIDO_PORT,
};

#[test]
fn paths_under_the_repository_root() {
    assert_eq!(root("/work/repo/bench"), Some("/work/repo".to_string()));
    assert_eq!(root("/"), None);
    assert_eq!(root(""), None);
    assert_eq!(ossido_dir("/work/repo"), "/work/repo/examples/ossido");
    assert_eq!(next_dir("/work/repo"), "/work/repo/examples/next");
    assert_eq!(ossido_binary("/work/repo"), "/work/repo/target/release/ossido");
    assert_eq!(results_root("/work/repo"), "/work/repo/results");
}

#[test]
fn join_adds_a_separator_only_where_needed() {
    assert_eq!(results_root("/work/repo/"), "/work/repo/results");
    assert_eq!(results_root("/"), "/results");
    assert_eq!(results_root(""), "results");
    assert_eq!(results_root("a//"), "a//results");
    for base in ["/work/repo/", "/", "", "a//", "x"] {
        assert_eq!(results_root(base), std::path::Path::new(base).join("results").to_string_lossy());
    }
}

#[test]
fn unsigned_parsing_follows_str_parse() {
    for s in ["0", "42", "+7", "", "+", "-0", " 1", "1 ", "12a", "18446744073709551615", "18446744073709551616", "00012"] {
        assert_eq!(parse_u64(s), s.parse::<u64>().ok(), "u64 {:?}", s);
        assert_eq!(parse_usize(s), s.parse::<usize>().ok(), "usize {:?}", s);
    }
}

#[test]
fn config_defaults_and_overrides() {
    let c = Config::from_env(None, None, None, None, None);
    assert_eq!((c.duration, c.warmup, c.connections, c.pipelining, c.ttfb_samples), (10, 3, 50, 1, 30));
    let c = Config::from_env(Some("20"), Some("abc"), Some("+8"), Some("x"), Some(""));
    assert_eq!((c.duration, c.warmup, c.connections, c.pipelining, c.ttfb_samples), (20, 3, 8, 1, 30));
}

#[test]
fn pipelining_sets_requests_in_flight() {
    let c = Config::from_env(None, None, None, Some("4"), None);
    assert_eq!((c.duration, c.warmup, c.connections, c.pipelining, c.ttfb_samples), (10, 3, 50, 4, 30));
    assert_eq!(c.requests_in_flight(), 4);
    assert_eq!(Config::from_env(None, None, None, None, None).requests_in_flight(), 1);
    assert_eq!(Config::from_env(None, None, None, Some("0"), None).requests_in_flight(), 1);
}

#[test]
fn overrides_make_the_run_print_only() {
    assert_eq!(tuning_env_vars(), ["BENCH_DURATION", "BENCH_WARMUP", "BENCH_CONNECTIONS", "BENCH_PIPELINING", "BENCH_TTFB_SAMPLES"]);
    assert_eq!(overridden_env_vars(&[false; 5]), Vec::<&str>::new());
    assert!(outputs_enabled(&[false; 5]));
    assert_eq!(overridden_env_vars(&[false, true, false, true, false]), vec!["BENCH_WARMUP", "BENCH_PIPELINING"]);
    assert!(!outputs_enabled(&[false, false, false, false, true]));
}

#[test]
fn dependency_versions_from_package_json() {
    let pkg = r#"{"dependencies":{"react":"19"},"devDependencies":{"@ossido-labs/ossido":"^0.1.8"}}"#;
    assert_eq!(dep_version(Some(pkg), "@ossido-labs/ossido"), Some("^0.1.8".to_string()));
    assert_eq!(dep_version(Some(pkg), "react"), Some("19".to_string()));
    assert_eq!(dep_version(Some(pkg), "vue"), None);
    assert_eq!(dep_version(Some("not json"), "react"), None);
    assert_eq!(dep_version(None, "react"), None);
    let both = r#"{"dependencies":{"next":"16.3.2"},"devDependencies":{"next":"15"}}"#;
    assert_eq!(dep_version(Some(both), "next"), Some("16.3.2".to_string()));
    let not_string = r#"{"dependencies":{"next":16}}"#;
    assert_eq!(dep_version(Some(not_string), "next"), None);
}

#[test]
fn versions_and_results_dir() {
    let v = read_versions(Some(r#"{"dependencies":{"@ossido-labs/ossido":"~0.1.8-beta.1"}}"#), None);
    assert_eq!(v.ossido, "~0.1.8-beta.1");
    assert_eq!(v.next, "unknown");
    assert_eq!(ossido_version(&v), "0.1.8-beta.1");
    let odd = Versions { ossido: ">= 1.2/3 x".to_string(), next: "16".to_string() };
    assert_eq!(ossido_version(&odd), "1.2/3 x");
    assert_eq!(results_dir("/r", &odd), "/r/results/1.2-3-x");
    assert_eq!(results_dir("/r", &v), "/r/results/0.1.8-beta.1");
    assert_eq!(safe_dir_name("a+b_c.d-e!é"), "a+b_c.d-e--");
}

#[test]
fn results_dir_lies_in_the_results_root() {
    for ossido in ["^0.1.8", ">= 1.2/3 x", "..", "0.2.0-rc.1+build"] {
        let v = Versions { ossido: ossido.to_string(), next: "16".to_string() };
        let dir = results_dir("/repo", &v);
        assert_eq!(std::path::Path::new(&dir).parent(), Some(std::path::Path::new("/repo/results")), "{ossido}");
        let dir = results_dir("repo/", &v);
        assert_eq!(std::path::Path::new(&dir).parent(), Some(std::path::Path::new("repo/results")), "{ossido}");
    }
}

#[test]
fn frameworks_modes_and_scenarios() {
    let fws = frameworks();
    assert_eq!(fws[0].key, FrameworkKey::Ossido);
    assert_eq!(fws[0].label, "Ossido");
    assert_eq!(fws[0].port, OSSIDO_PORT);
    assert_eq!(fws[1].key, FrameworkKey::Next);
    assert_eq!(fws[1].label, "Next.js");
    assert_eq!(fws[1].port, NEXT_PORT);
    assert_eq!(FrameworkKey::Ossido.as_str(), "ossido");
    assert_eq!(FrameworkKey::Next.as_str(), "next");
    assert_eq!(thread_modes(), [ThreadMode::Single, ThreadMode::Multi]);
    assert_eq!(ThreadMode::Single.as_str(), "single");
    assert_eq!(ThreadMode::Multi.as_str(), "multi");
    assert_eq!(ThreadMode::Single.threads(16), 1);
    assert_eq!(ThreadMode::Multi.threads(16), 16);
    let s = load_scenarios(10);
    assert_eq!(s.len(), 3);
    assert_eq!((s[0].key, s[0].path, s[0].connections), ("ssr", "/ssr", None));
    assert_eq!(s[0].title, "SSR — catalogue");
    assert_eq!((s[1].key, s[1].path, s[1].connections), ("heavy", "/heavy", Some(20)));
    assert_eq!(s[1].note, "5000-row table, CPU-bound render");
    assert_eq!((s[2].key, s[2].path, s[2].connections), ("api", "/api/bench", None));
    let st = stream_scenario();
    assert_eq!((st.key, st.title, st.path), ("stream", "Streaming SSR", "/stream"));
    assert_eq!(MEM_PATH, "/ssr");
}

#[test]
fn version_cleanup_is_stable() {
    for raw in ["^^ ~0.1.8", "0.1.8", "", "  >=<1", "a/b c"] {
        let v = Versions { ossido: raw.to_string(), next: String::new() };
        let once = ossido_version(&v);
        assert_eq!(ossido_version(&Versions { ossido: once.clone(), next: String::new() }), once);
        assert!(!once.starts_with(['^', '~', '>', '=', '<', ' ']));
        let safe = safe_dir_name(&once);
        assert_eq!(safe_dir_name(&safe), safe);
        assert_eq!(safe.chars().count(), once.chars().count());
    }
}
