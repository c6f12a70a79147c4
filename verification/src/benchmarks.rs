//! The two benchmarks and the labels and notices that their runs print.
use vstd::prelude::*;

use crate::config::{
    mode_name, next_framework, ossido_framework, Config, Framework, FrameworkKey, ThreadMode,
    NEXT_PORT, OSSIDO_PORT,
};
use crate::text::{decimal, decimal_seq, join, join_seq, push_str, views};

verus! {

/// Throughput, latency and streaming benchmark.
pub struct Throughput;

/// Memory-efficiency sweep across parallelism levels.
pub struct Memory;

impl Throughput {
    /// The benchmark's name.
    pub fn name(&self) -> (res: &'static str)
        ensures
            res@ == "Throughput"@,
    {
        "Throughput"
    }
}

impl Memory {
    /// The benchmark's name.
    pub fn name(&self) -> (res: &'static str)
        ensures
            res@ == "Memory efficiency"@,
    {
        "Memory efficiency"
    }
}

/// The label of one framework and thread mode, e.g. `Ossido · multi (10 threads)`.
pub open spec fn mode_label_text(label: Seq<char>, mode: Seq<char>, threads: usize) -> Seq<char> {
    label + " \u{b7} "@ + mode + " ("@ + decimal_seq(threads as nat) + " thread"@ + if threads == 1 {
        Seq::empty()
    } else {
        "s"@
    } + ")"@
}

/// The label of one framework and thread mode in the throughput benchmark.
pub fn mode_label(label: &str, mode: ThreadMode, threads: usize) -> (res: String)
    ensures
        res@ == mode_label_text(label@, mode_name(mode), threads),
{
    let mut s = String::from_str(label);
    push_str(&mut s, " \u{b7} ");
    push_str(&mut s, mode.as_str());
    push_str(&mut s, " (");
    let d = decimal(threads as u64);
    push_str(&mut s, d.as_str());
    push_str(&mut s, " thread");
    if threads != 1 {
        push_str(&mut s, "s");
    }
    push_str(&mut s, ")");
    s
}

/// The label of one sweep step of the memory benchmark, e.g. `Ossido ×4`.
pub fn sweep_label(label: &str, parallelism: usize) -> (res: String)
    ensures
        res@ == label@ + " \u{d7}"@ + decimal_seq(parallelism as nat),
{
    let mut s = String::from_str(label);
    push_str(&mut s, " \u{d7}");
    let d = decimal(parallelism as u64);
    push_str(&mut s, d.as_str());
    s
}

/// The notice printed instead of writing reports when tuning variables are set.
pub open spec fn skip_notice_text(vars: Seq<Seq<char>>) -> Seq<char> {
    "\n\u{26a0} Non-default load ("@ + join_seq(vars, ", "@)
        + " set) \u{2014} skipping output. Run with defaults to update results/<version>/ and the README table."@
}

/// The notice printed instead of writing reports, naming the variables set.
pub fn skip_output_notice(vars: &Vec<String>) -> (res: String)
    ensures
        res@ == skip_notice_text(views(vars@)),
{
    let mut s = String::from_str("\n\u{26a0} Non-default load (");
    let j = join(vars, ", ");
    push_str(&mut s, j.as_str());
    push_str(
        &mut s,
        " set) \u{2014} skipping output. Run with defaults to update results/<version>/ and the README table.",
    );
    s
}

/// The line printed when a run starts.
pub open spec fn run_banner_text(cores: usize, cfg: Config) -> Seq<char> {
    "Ossido vs Next.js \u{b7} "@ + decimal_seq(cores as nat) + " cores \u{b7} "@ + decimal_seq(
        cfg.connections as nat,
    ) + " connections \u{b7} "@ + decimal_seq(cfg.duration as nat) + "s (+"@ + decimal_seq(
        cfg.warmup as nat,
    ) + "s warm-up)\n"@
}

/// The line printed when a run starts: cores, connections and durations.
pub fn run_banner(cores: usize, cfg: &Config) -> (res: String)
    ensures
        res@ == run_banner_text(cores, *cfg),
{
    let mut s = String::from_str("Ossido vs Next.js \u{b7} ");
    let c = decimal(cores as u64);
    push_str(&mut s, c.as_str());
    push_str(&mut s, " cores \u{b7} ");
    let k = decimal(cfg.connections as u64);
    push_str(&mut s, k.as_str());
    push_str(&mut s, " connections \u{b7} ");
    let d = decimal(cfg.duration);
    push_str(&mut s, d.as_str());
    push_str(&mut s, "s (+");
    let w = decimal(cfg.warmup);
    push_str(&mut s, w.as_str());
    push_str(&mut s, "s warm-up)\n");
    s
}

// ── run order ──────────────────────────────────────────────────────────────

/// A framework carries the label and port of its key.
pub open spec fn is_framework(f: Framework) -> bool {
    match f.key {
        FrameworkKey::Ossido => f.label@ == "Ossido"@ && f.port == OSSIDO_PORT,
        FrameworkKey::Next => f.label@ == "Next.js"@ && f.port == NEXT_PORT,
    }
}

/// The runs of the memory sweep, in order: Ossido at each level, then
/// Next.js at each level.
pub open spec fn memory_runs(xs: Seq<usize>) -> Seq<(FrameworkKey, usize)> {
    xs.map_values(|n: usize| (FrameworkKey::Ossido, n)) + xs.map_values(
        |n: usize| (FrameworkKey::Next, n),
    )
}

/// The servers the memory sweep starts, in order: one per framework and
/// parallelism level, Ossido's levels first.
pub fn memory_plan(xs: &Vec<usize>) -> (res: Vec<(Framework, usize)>)
    ensures
        res@.map_values(|r: (Framework, usize)| (r.0.key, r.1)) == memory_runs(xs@),
        forall|i: int| 0 <= i < res@.len() ==> is_framework(#[trigger] res@[i].0),
{
    let mut out: Vec<(Framework, usize)> = Vec::new();
    let n = xs.len();
    let mut half: usize = 0;
    while half < 2
        invariant
            n == xs@.len(),
            half <= 2,
            out@.len() == half * n,
            half == 0 ==> out@.map_values(|r: (Framework, usize)| (r.0.key, r.1)) =~= Seq::empty(),
            half == 1 ==> out@.map_values(|r: (Framework, usize)| (r.0.key, r.1)) =~= xs@.map_values(
                |n: usize| (FrameworkKey::Ossido, n),
            ),
            half == 2 ==> out@.map_values(|r: (Framework, usize)| (r.0.key, r.1)) =~= memory_runs(xs@),
            forall|i: int| 0 <= i < out@.len() ==> is_framework(#[trigger] out@[i].0),
        decreases 2 - half,
    {
        let fw = if half == 0 {
            ossido_framework()
        } else {
            next_framework()
        };
        let ghost start = out@;
        let mut k: usize = 0;
        while k < n
            invariant
                n == xs@.len(),
                k <= n,
                is_framework(fw),
                fw.key == if half == 0 {
                    FrameworkKey::Ossido
                } else {
                    FrameworkKey::Next
                },
                out@.len() == start.len() + k,
                out@.take(start.len() as int) == start,
                forall|j: int| 0 <= j < k ==> #[trigger] out@[start.len() + j] == (fw, xs@[j]),
                forall|i: int| 0 <= i < out@.len() ==> is_framework(#[trigger] out@[i].0),
            decreases n - k,
        {
            let ghost before = out@;
            out.push((fw, xs[k]));
            proof {
                assert(out@.take(start.len() as int) =~= before.take(start.len() as int));
            }
            k = k + 1;
        }
        proof {
            let f = |r: (Framework, usize)| (r.0.key, r.1);
            let added = xs@.map_values(|n: usize| (fw.key, n));
            assert(out@ =~= start + out@.skip(start.len() as int));
            assert forall|j: int| 0 <= j < n implies #[trigger] out@.skip(start.len() as int).map_values(f)[j]
                == added[j] by {
                assert(out@[start.len() + j] == (fw, xs@[j]));
                assert(out@.skip(start.len() as int)[j] == out@[start.len() + j]);
            }
            assert(out@.skip(start.len() as int).map_values(f) =~= added);
            assert(out@.map_values(f) =~= start.map_values(f) + added);
        }
        half = half + 1;
    }
    out
}

/// The servers the throughput benchmark starts, in order: each framework,
/// Ossido first, in the single-threaded and then the multi-threaded mode.
pub fn throughput_plan() -> (res: Vec<(Framework, ThreadMode)>)
    ensures
        res@.map_values(|r: (Framework, ThreadMode)| (r.0.key, r.1)) == seq![
            (FrameworkKey::Ossido, ThreadMode::Single),
            (FrameworkKey::Ossido, ThreadMode::Multi),
            (FrameworkKey::Next, ThreadMode::Single),
            (FrameworkKey::Next, ThreadMode::Multi),
        ],
        forall|i: int| 0 <= i < res@.len() ==> is_framework(#[trigger] res@[i].0),
{
    let res = vec![
        (ossido_framework(), ThreadMode::Single),
        (ossido_framework(), ThreadMode::Multi),
        (next_framework(), ThreadMode::Single),
        (next_framework(), ThreadMode::Multi),
    ];
    proof {
        assert(res@.map_values(|r: (Framework, ThreadMode)| (r.0.key, r.1)) =~= seq![
            (FrameworkKey::Ossido, ThreadMode::Single),
            (FrameworkKey::Ossido, ThreadMode::Multi),
            (FrameworkKey::Next, ThreadMode::Single),
            (FrameworkKey::Next, ThreadMode::Multi),
        ]);
    }
    res
}

/// One measurement against a running server of the throughput benchmark.
#[derive(Clone, Copy, PartialEq, Eq, Debug, Structural)]
pub enum ServerStep {
    /// The load test of the scenario at this position.
    Load(usize),
    /// The streaming probe.
    Stream,
}

/// What the throughput benchmark measures on each server, in order: the
/// load test of each of `scenarios` scenarios, then the streaming probe.
pub fn server_steps(scenarios: usize) -> (res: Vec<ServerStep>)
    ensures
        res@ == Seq::new(scenarios as nat, |i: int| ServerStep::Load(i as usize)).push(
            ServerStep::Stream,
        ),
{
    let mut out: Vec<ServerStep> = Vec::new();
    let mut i: usize = 0;
    while i < scenarios
        invariant
            i <= scenarios,
            out@ =~= Seq::new(i as nat, |j: int| ServerStep::Load(j as usize)),
        decreases scenarios - i,
    {
        out.push(ServerStep::Load(i));
        i = i + 1;
    }
    out.push(ServerStep::Stream);
    out
}

} // verus!
