use ossido_bench::benchmarks::{
    memory_plan, mode_label, run_banner, server_steps, skip_output_notice, sweep_label, throughput_plan, Memory,
    ServerStep, Throughput,
};
use ossido_bench::build_cmd::ensure_built;
use ossido_bench::cli::Command;
use ossido_bench::config::{Config, FrameworkKey, ThreadMode};
use ossido_bench::load::{
    clamp_latency, probe_done, probe_iterations, probe_next, probe_start, ProbeEvent, ProbeState, ProbeStep,
    RequestOutcome, WorkerAction, WorkerStats, HIST_MAX_US,
};
use ossido_bench::server::{local_url, server_launch};
use ossido_bench::sys::{cpu_model, group_rss_bytes, host_string};

#[test]
fn latency_clamped_to_histogram_range() {
    assert_eq!(clamp_latency(0), 1);
    assert_eq!(clamp_latency(500), 500);
    assert_eq!(clamp_latency(u64::MAX), HIST_MAX_US);
}

#[test]
fn worker_counts_responses_and_errors() {
    let mut w = WorkerStats::new();
    let ok = RequestOutcome::Body { success: true, body_len: 100, elapsed_us: 0 };
    assert!(w.outcome_fits(ok));
    assert_eq!(w.record(ok), WorkerAction { record_us: Some(1), backoff: false });
    let bad = RequestOutcome::Body { success: false, body_len: 5, elapsed_us: 70_000_000 };
    assert_eq!(w.record(bad), WorkerAction { record_us: Some(HIST_MAX_US), backoff: false });
    assert_eq!(w.record(RequestOutcome::SendFailed), WorkerAction { record_us: None, backoff: true });
    assert_eq!(w.record(RequestOutcome::ReadFailed), WorkerAction { record_us: None, backoff: true });
    assert_eq!(w, WorkerStats { count: 2, bytes: 105, errors: 3 });
    let full = WorkerStats { count: u64::MAX, bytes: 0, errors: 0 };
    assert!(!full.outcome_fits(ok));
    assert!(full.outcome_fits(RequestOutcome::SendFailed));
}

#[test]
fn worker_counters_merge_by_sum() {
    let mut a = WorkerStats { count: 1, bytes: 2, errors: 3 };
    let b = WorkerStats { count: 10, bytes: 20, errors: 30 };
    assert!(a.can_merge(&b));
    a.merge(&b);
    assert_eq!(a, WorkerStats { count: 11, bytes: 22, errors: 33 });
    assert!(!a.can_merge(&WorkerStats { count: 0, bytes: u64::MAX, errors: 0 }));
}

#[test]
fn stream_probe_discards_warmup_and_gives_up() {
    let total = probe_iterations(2);
    assert_eq!(total, 5);
    let mut s = probe_start();
    let mut steps = Vec::new();
    while !probe_done(s, total) {
        let (n, step) = probe_next(s, ProbeEvent::Succeeded);
        steps.push(step);
        s = n;
    }
    assert_eq!(steps, vec![ProbeStep::Discard, ProbeStep::Discard, ProbeStep::Discard, ProbeStep::Keep, ProbeStep::Keep]);
    let mut s = ProbeState { iteration: 4, attempt: 0 };
    for _ in 0..59 {
        let (n, step) = probe_next(s, ProbeEvent::Failed);
        assert_eq!(step, ProbeStep::Retry);
        s = n;
    }
    assert_eq!(probe_next(s, ProbeEvent::Failed), (ProbeState { iteration: 4, attempt: 60 }, ProbeStep::GiveUp));
    assert_eq!(probe_next(ProbeState { iteration: 4, attempt: 7 }, ProbeEvent::Succeeded).0, ProbeState { iteration: 5, attempt: 0 });
}

#[test]
fn server_launch_commands() {
    let o = server_launch("/repo", FrameworkKey::Ossido, 8);
    assert_eq!(o.program, "/repo/target/release/ossido");
    assert!(o.args.is_empty());
    assert_eq!(o.cwd, "/repo/examples/ossido");
    assert_eq!(o.env, vec![("OSSIDO_SSR_THREADS".to_string(), "8".to_string())]);
    assert_eq!(o.health_url, "http://127.0.0.1:4000/ssr");
    let n = server_launch("/repo", FrameworkKey::Next, 3);
    assert_eq!(n.program, "node");
    assert_eq!(n.args, vec!["server.mjs".to_string()]);
    assert_eq!(n.cwd, "/repo/examples/next");
    assert_eq!(
        n.env,
        vec![
            ("NODE_ENV".to_string(), "production".to_string()),
            ("PORT".to_string(), "4100".to_string()),
            ("WEB_CONCURRENCY".to_string(), "3".to_string()),
        ]
    );
    assert_eq!(n.health_url, "http://127.0.0.1:4100/ssr");
    assert_eq!(local_url(4000, "/api/bench"), "http://127.0.0.1:4000/api/bench");
}

#[test]
fn environment_summary() {
    assert_eq!(host_string(Some("Ubuntu"), Some("6.8.0"), "x86_64"), "Ubuntu 6.8.0 · x86_64");
    assert_eq!(host_string(None, None, "aarch64"), "unknown  · aarch64");
    assert_eq!(cpu_model(Some("  AMD EPYC  ")), "AMD EPYC");
    assert_eq!(cpu_model(Some("   ")), "unknown");
    assert_eq!(cpu_model(None), "unknown");
}

#[test]
fn process_group_memory() {
    let procs = vec![(Some(7), 100u64), (Some(8), 1000), (None, 5), (Some(7), 23)];
    assert_eq!(group_rss_bytes(&procs, 7), Some(123));
    assert_eq!(group_rss_bytes(&procs, 9), Some(0));
    assert_eq!(group_rss_bytes(&vec![(Some(1), u64::MAX), (Some(1), 1)], 1), None);
}

#[test]
fn build_guard() {
    assert_eq!(ensure_built(true, true, "/b", "/n"), Ok(()));
    let both = ensure_built(false, false, "/b", "/n").unwrap_err();
    assert_eq!(both, "Apps are not built:\n  - missing Ossido binary: /b\n  - missing Next build: /n\n\nRun `bun run bench:build` first (or `bench build` / `bench throughput --build`).");
    let one = ensure_built(true, false, "/b", "/n").unwrap_err();
    assert_eq!(one, "Apps are not built:\n  - missing Next build: /n\n\nRun `bun run bench:build` first (or `bench build` / `bench throughput --build`).");
}

#[test]
fn labels_and_notices() {
    assert_eq!(Throughput.name(), "Throughput");
    assert_eq!(Memory.name(), "Memory efficiency");
    assert_eq!(mode_label("Ossido", ThreadMode::Multi, 10), "Ossido · multi (10 threads)");
    assert_eq!(mode_label("Next.js", ThreadMode::Single, 1), "Next.js · single (1 thread)");
    assert_eq!(sweep_label("Ossido", 4), "Ossido ×4");
    assert_eq!(
        skip_output_notice(&vec!["BENCH_DURATION".to_string(), "BENCH_WARMUP".to_string()]),
        "\n⚠ Non-default load (BENCH_DURATION, BENCH_WARMUP set) — skipping output. Run with defaults to update results/<version>/ and the README table."
    );
    let cfg = Config::from_env(None, None, None, None, None);
    assert_eq!(run_banner(12, &cfg), "Ossido vs Next.js · 12 cores · 50 connections · 10s (+3s warm-up)\n");
}

#[test]
fn command_plans() {
    assert_eq!(Command::Run { build: true }.benchmark_plan(), (true, true, true));
    assert_eq!(Command::Throughput { build: false }.benchmark_plan(), (true, false, false));
    assert_eq!(Command::Memory.benchmark_plan(), (false, true, false));
    assert_eq!(Command::Index.benchmark_plan(), (false, false, false));
    assert_eq!(Command::Version { version: "0.1.8".to_string() }.benchmark_plan(), (false, false, false));
}

#[test]
fn merging_ignores_worker_order() {
    let a = WorkerStats { count: 3, bytes: 300, errors: 1 };
    let b = WorkerStats { count: 5, bytes: 20, errors: 0 };
    let mut ab = a;
    ab.merge(&b);
    let mut ba = b;
    ba.merge(&a);
    assert_eq!(ab, ba);
}

#[test]
fn memory_sweep_order() {
    let plan: Vec<(FrameworkKey, &str, u16, usize)> =
        memory_plan(&vec![1, 2, 4]).iter().map(|(f, n)| (f.key, f.label, f.port, *n)).collect();
    assert_eq!(
        plan,
        vec![
            (FrameworkKey::Ossido, "Ossido", 4000, 1),
            (FrameworkKey::Ossido, "Ossido", 4000, 2),
            (FrameworkKey::Ossido, "Ossido", 4000, 4),
            (FrameworkKey::Next, "Next.js", 4100, 1),
            (FrameworkKey::Next, "Next.js", 4100, 2),
            (FrameworkKey::Next, "Next.js", 4100, 4),
        ]
    );
    assert!(memory_plan(&Vec::new()).is_empty());
}

#[test]
fn throughput_run_order() {
    let plan: Vec<(FrameworkKey, u16, ThreadMode)> =
        throughput_plan().iter().map(|(f, m)| (f.key, f.port, *m)).collect();
    assert_eq!(
        plan,
        vec![
            (FrameworkKey::Ossido, 4000, ThreadMode::Single),
            (FrameworkKey::Ossido, 4000, ThreadMode::Multi),
            (FrameworkKey::Next, 4100, ThreadMode::Single),
            (FrameworkKey::Next, 4100, ThreadMode::Multi),
        ]
    );
    assert_eq!(server_steps(3), vec![ServerStep::Load(0), ServerStep::Load(1), ServerStep::Load(2), ServerStep::Stream]);
    assert_eq!(server_steps(0), vec![ServerStep::Stream]);
}
