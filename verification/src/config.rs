//! Paths, load parameters, framework and scenario definitions, version
//! detection and output gating of the benchmark.
use vstd::prelude::*;

use crate::index::opt_seq;
use crate::json::{get2_of, parse_json, parsed_json, str_at, str_of};
use crate::paths::{is_component, is_plain_dir, joined_path, parent_path, path_join, path_parent};
use crate::text::{chars_of, push_char};

verus! {

// ── paths ──────────────────────────────────────────────────────────────────

/// The repository root: the parent of the bench crate's manifest directory.
pub fn root(manifest_dir: &str) -> (res: Option<String>)
    ensures
        opt_seq(res) == parent_path(manifest_dir@),
{
    path_parent(manifest_dir)
}

/// The Ossido example app.
pub fn ossido_dir(root: &str) -> (res: String)
    ensures
        res@ == joined_path(root@, "examples/ossido"@),
{
    path_join(root, "examples/ossido")
}

/// The Next.js example app.
pub fn next_dir(root: &str) -> (res: String)
    ensures
        res@ == joined_path(root@, "examples/next"@),
{
    path_join(root, "examples/next")
}

/// The Ossido release binary, in the workspace-root target directory.
pub fn ossido_binary(root: &str) -> (res: String)
    ensures
        res@ == joined_path(root@, "target/release/ossido"@),
{
    path_join(root, "target/release/ossido")
}

/// The directory that holds one results folder per Ossido version.
pub fn results_root(root: &str) -> (res: String)
    ensures
        res@ == joined_path(root@, "results"@),
{
    path_join(root, "results")
}

// ── ports ──────────────────────────────────────────────────────────────────

/// Port of the Ossido server.
pub const OSSIDO_PORT: u16 = 4000;

/// Port of the Next.js server.
pub const NEXT_PORT: u16 = 4100;

/// Route used for the memory sweep.
pub const MEM_PATH: &'static str = "/ssr";

// ── unsigned decimal parsing ───────────────────────────────────────────────

/// An ASCII decimal digit.
pub open spec fn is_digit(c: char) -> bool {
    '0' <= c && c <= '9'
}

/// The value of a decimal digit.
pub open spec fn digit_value(c: char) -> nat {
    (c as int - '0' as int) as nat
}

/// The value of a string of decimal digits.
pub open spec fn digits_value(d: Seq<char>) -> nat
    decreases d.len(),
{
    if d.len() == 0 {
        0
    } else {
        digits_value(d.drop_last()) * 10 + digit_value(d.last())
    }
}

/// The text after an optional leading `+`.
pub open spec fn unsigned_digits(s: Seq<char>) -> Seq<char> {
    if s.len() > 0 && s[0] == '+' {
        s.drop_first()
    } else {
        s
    }
}

/// Every character is a decimal digit.
pub open spec fn all_digits(d: Seq<char>) -> bool {
    forall|i: int| 0 <= i < d.len() ==> is_digit(#[trigger] d[i])
}

/// What `str::parse` gives for an unsigned integer type whose largest value
/// is `max`: an optional `+` followed by at least one digit, with a value of
/// at most `max`; anything else is an error.
pub open spec fn parse_unsigned_of(s: Seq<char>, max: nat) -> Option<nat> {
    let d = unsigned_digits(s);
    if d.len() > 0 && all_digits(d) && digits_value(d) <= max {
        Some(digits_value(d))
    } else {
        None
    }
}

proof fn lemma_digits_value_grows(d: Seq<char>, k: int)
    requires
        0 <= k <= d.len(),
    ensures
        digits_value(d.take(k)) <= digits_value(d),
    decreases d.len(),
{
    if k < d.len() {
        lemma_digits_value_grows(d.drop_last(), k);
        assert(d.drop_last().take(k) =~= d.take(k));
    } else {
        assert(d.take(k) =~= d);
    }
}

/// Parses an unsigned decimal as `str::parse::<u64>` does.
pub fn parse_u64(s: &str) -> (res: Option<u64>)
    ensures
        match res {
            Some(v) => parse_unsigned_of(s@, u64::MAX as nat) == Some(v as nat),
            None => parse_unsigned_of(s@, u64::MAX as nat) is None,
        },
{
    let cs = chars_of(s);
    let start: usize = if cs.len() > 0 && cs[0] == '+' {
        1
    } else {
        0
    };
    let ghost d = unsigned_digits(s@);
    assert(d =~= cs@.skip(start as int));
    let n = cs.len();
    if start == n {
        return None;
    }
    let mut v: u64 = 0;
    let mut i: usize = start;
    while i < n
        invariant
            n == cs@.len(),
            cs@ == s@,
            d == unsigned_digits(s@),
            d == cs@.skip(start as int),
            start <= i <= n,
            forall|k: int| start <= k < i ==> is_digit(#[trigger] cs@[k]),
            v as nat == digits_value(d.take(i - start)),
        decreases n - i,
    {
        let c = cs[i];
        if !('0' <= c && c <= '9') {
            proof {
                assert(d[i - start] == c);
                assert(!is_digit(d[i - start]));
            }
            return None;
        }
        let dv: u64 = if c == '0' {
            0
        } else if c == '1' {
            1
        } else if c == '2' {
            2
        } else if c == '3' {
            3
        } else if c == '4' {
            4
        } else if c == '5' {
            5
        } else if c == '6' {
            6
        } else if c == '7' {
            7
        } else if c == '8' {
            8
        } else {
            9
        };
        proof {
            assert(d.take(i + 1 - start).drop_last() =~= d.take(i - start));
            assert(d.take(i + 1 - start).last() == c);
            assert(dv as nat == digit_value(c));
        }
        let next = match v.checked_mul(10) {
            Some(t) => t.checked_add(dv),
            None => None,
        };
        match next {
            Some(t) => {
                v = t;
            },
            None => {
                proof {
                    assert(digits_value(d.take(i + 1 - start)) == v * 10 + dv);
                    assert(v * 10 + dv > u64::MAX);
                    lemma_digits_value_grows(d, i + 1 - start);
                }
                return None;
            },
        }
        i = i + 1;
    }
    proof {
        assert(d.take(n - start) =~= d);
        assert forall|k: int| 0 <= k < d.len() implies is_digit(#[trigger] d[k]) by {
            assert(d[k] == cs@[k + start]);
        }
    }
    Some(v)
}

/// Parses an unsigned decimal as `str::parse::<usize>` does.
pub fn parse_usize(s: &str) -> (res: Option<usize>)
    ensures
        match res {
            Some(v) => parse_unsigned_of(s@, usize::MAX as nat) == Some(v as nat),
            None => parse_unsigned_of(s@, usize::MAX as nat) is None,
        },
{
    match parse_u64(s) {
        Some(v) => {
            if v <= usize::MAX as u64 {
                Some(v as usize)
            } else {
                None
            }
        },
        None => None,
    }
}

// ── load parameters ────────────────────────────────────────────────────────

/// The value that a tuning variable gives: its parsed value when it is set
/// and parses, and the default otherwise.
pub open spec fn env_value(raw: Option<Seq<char>>, max: nat, default: nat) -> nat {
    match raw {
        Some(s) => match parse_unsigned_of(s, max) {
            Some(v) => v,
            None => default,
        },
        None => default,
    }
}

/// The optional text of an optional string slice.
pub open spec fn opt_chars(o: Option<&str>) -> Option<Seq<char>> {
    match o {
        Some(s) => Some(s@),
        None => None,
    }
}

/// The load parameters of a run.
#[derive(Clone, Copy)]
pub struct Config {
    /// Seconds measured.
    pub duration: u64,
    /// Seconds of warm-up, discarded.
    pub warmup: u64,
    /// Concurrent connections.
    pub connections: usize,
    /// Requests pipelined per connection.
    pub pipelining: usize,
    /// Samples of the streaming probe.
    pub ttfb_samples: usize,
}

fn env_u64(raw: Option<&str>, default: u64) -> (res: u64)
    ensures
        res as nat == env_value(opt_chars(raw), u64::MAX as nat, default as nat),
{
    match raw {
        Some(s) => match parse_u64(s) {
            Some(v) => v,
            None => default,
        },
        None => default,
    }
}

fn env_usize(raw: Option<&str>, default: usize) -> (res: usize)
    ensures
        res as nat == env_value(opt_chars(raw), usize::MAX as nat, default as nat),
{
    match raw {
        Some(s) => match parse_usize(s) {
            Some(v) => v,
            None => default,
        },
        None => default,
    }
}

impl Config {
    /// The load parameters from the values of BENCH_DURATION, BENCH_WARMUP,
    /// BENCH_CONNECTIONS, BENCH_PIPELINING and BENCH_TTFB_SAMPLES (`None`
    /// where unset): each one that is set and parses overrides its default of
    /// 10 s, 3 s, 50, 1 and 30.
    pub fn from_env(
        duration: Option<&str>,
        warmup: Option<&str>,
        connections: Option<&str>,
        pipelining: Option<&str>,
        ttfb_samples: Option<&str>,
    ) -> (res: Config)
        ensures
            res.duration as nat == env_value(opt_chars(duration), u64::MAX as nat, 10),
            res.warmup as nat == env_value(opt_chars(warmup), u64::MAX as nat, 3),
            res.connections as nat == env_value(opt_chars(connections), usize::MAX as nat, 50),
            res.pipelining as nat == env_value(opt_chars(pipelining), usize::MAX as nat, 1),
            res.ttfb_samples as nat == env_value(opt_chars(ttfb_samples), usize::MAX as nat, 30),
    {
        Config {
            duration: env_u64(duration, 10),
            warmup: env_u64(warmup, 3),
            connections: env_usize(connections, 50),
            pipelining: env_usize(pipelining, 1),
            ttfb_samples: env_usize(ttfb_samples, 30),
        }
    }

    /// How many requests each connection keeps in flight: the pipelining
    /// depth, and one where it is set to 0, so that every connection loads
    /// the server.
    pub fn requests_in_flight(&self) -> (res: usize)
        ensures
            res == if self.pipelining == 0 {
                1
            } else {
                self.pipelining
            },
            res >= 1,
    {
        if self.pipelining == 0 {
            1
        } else {
            self.pipelining
        }
    }
}

/// The names of the variables that override the default load.
pub open spec fn tuning_names() -> Seq<Seq<char>> {
    seq![
        "BENCH_DURATION"@,
        "BENCH_WARMUP"@,
        "BENCH_CONNECTIONS"@,
        "BENCH_PIPELINING"@,
        "BENCH_TTFB_SAMPLES"@,
    ]
}

/// The variables that override the default load.
pub fn tuning_env_vars() -> (res: [&'static str; 5])
    ensures
        forall|i: int| 0 <= i < 5 ==> #[trigger] res[i]@ == tuning_names()[i],
{
    ["BENCH_DURATION", "BENCH_WARMUP", "BENCH_CONNECTIONS", "BENCH_PIPELINING", "BENCH_TTFB_SAMPLES"]
}

/// The names, in order, whose flag is set.
pub open spec fn selected(names: Seq<Seq<char>>, set: Seq<bool>) -> Seq<Seq<char>>
    decreases set.len(),
{
    if set.len() == 0 {
        Seq::empty()
    } else if set.last() {
        selected(names, set.drop_last()).push(names[set.len() - 1])
    } else {
        selected(names, set.drop_last())
    }
}

/// The tuning variables that are set, in the order of [`tuning_env_vars`];
/// `is_set[i]` tells whether the `i`-th of them is set.
pub fn overridden_env_vars(is_set: &[bool; 5]) -> (res: Vec<&'static str>)
    ensures
        res@.map_values(|s: &str| s@) == selected(tuning_names(), is_set@),
{
    let names = tuning_env_vars();
    let mut res: Vec<&'static str> = Vec::new();
    let mut i: usize = 0;
    while i < 5
        invariant
            i <= 5,
            is_set@.len() == 5,
            forall|k: int| 0 <= k < 5 ==> #[trigger] names[k]@ == tuning_names()[k],
            res@.map_values(|s: &str| s@) == selected(tuning_names(), is_set@.take(i as int)),
        decreases 5 - i,
    {
        proof {
            assert(is_set@.take(i + 1).drop_last() =~= is_set@.take(i as int));
        }
        if is_set[i] {
            res.push(names[i]);
        }
        proof {
            assert(res@.map_values(|s: &str| s@) =~= selected(tuning_names(), is_set@.take(i + 1)));
        }
        i = i + 1;
    }
    proof {
        assert(is_set@.take(5) =~= is_set@);
    }
    res
}

/// Whether this run may write its reports: only when no tuning variable is set.
pub fn outputs_enabled(is_set: &[bool; 5]) -> (res: bool)
    ensures
        res == (selected(tuning_names(), is_set@).len() == 0),
{
    overridden_env_vars(is_set).len() == 0
}

/// A run writes its reports exactly when none of the tuning variables is set.
pub proof fn lemma_outputs_enabled(names: Seq<Seq<char>>, set: Seq<bool>)
    ensures
        (selected(names, set).len() == 0) <==> (forall|i: int| 0 <= i < set.len() ==> !set[i]),
    decreases set.len(),
{
    if set.len() > 0 {
        lemma_outputs_enabled(names, set.drop_last());
        if !set.last() {
            assert forall|i: int| 0 <= i < set.len() - 1 implies set.drop_last()[i] == set[i] by {}
            if forall|i: int| 0 <= i < set.len() - 1 ==> !set[i] {
                assert forall|i: int| 0 <= i < set.len() implies !set[i] by {
                    if i < set.len() - 1 {
                        assert(set.drop_last()[i] == set[i]);
                    }
                }
            }
        }
    }
}

// ── versions ───────────────────────────────────────────────────────────────

/// The dependency versions each example app is pinned to.
pub struct Versions {
    pub ossido: String,
    pub next: String,
}

/// The version of dependency `name` in a package.json text: the string under
/// "dependencies", else the one under "devDependencies"; nothing when the
/// text is missing or does not parse.
pub open spec fn dep_version_of(package_json: Option<Seq<char>>, name: Seq<char>) -> Option<
    Seq<char>,
> {
    match package_json {
        Some(raw) => match parsed_json(raw) {
            Some(j) => match str_of(get2_of(j, "dependencies"@, name)) {
                Some(v) => Some(v),
                None => str_of(get2_of(j, "devDependencies"@, name)),
            },
            None => None,
        },
        None => None,
    }
}

/// The version of dependency `name` in the text of a package.json (`None`
/// where the file could not be read).
pub fn dep_version(package_json: Option<&str>, name: &str) -> (res: Option<String>)
    ensures
        opt_seq(res) == dep_version_of(opt_chars(package_json), name@),
{
    let raw = match package_json {
        Some(r) => r,
        None => return None,
    };
    let pkg = match parse_json(raw) {
        Some(j) => j,
        None => return None,
    };
    match str_at(&pkg, "dependencies", name) {
        Some(v) => Some(v),
        None => str_at(&pkg, "devDependencies", name),
    }
}

/// The version text, or "unknown" when there is none.
pub open spec fn or_unknown(v: Option<Seq<char>>) -> Seq<char> {
    match v {
        Some(s) => s,
        None => "unknown"@,
    }
}

/// The versions of `@ossido-labs/ossido` in the Ossido app's package.json and
/// of `next` in the Next.js app's package.json, from the two files' texts.
pub fn read_versions(ossido_package_json: Option<&str>, next_package_json: Option<&str>) -> (res:
    Versions)
    ensures
        res.ossido@ == or_unknown(
            dep_version_of(opt_chars(ossido_package_json), "@ossido-labs/ossido"@),
        ),
        res.next@ == or_unknown(dep_version_of(opt_chars(next_package_json), "next"@)),
{
    let ossido = match dep_version(ossido_package_json, "@ossido-labs/ossido") {
        Some(v) => v,
        None => String::from_str("unknown"),
    };
    let next = match dep_version(next_package_json, "next") {
        Some(v) => v,
        None => String::from_str("unknown"),
    };
    Versions { ossido, next }
}

/// A character of a version range prefix (`^`, `~`, `>`, `=`, `<`, space).
pub open spec fn is_range_char(c: char) -> bool {
    c == '^' || c == '~' || c == '>' || c == '=' || c == '<' || c == ' '
}

/// `s` without its leading range-prefix characters.
pub open spec fn strip_range_prefix(s: Seq<char>) -> Seq<char>
    decreases s.len(),
{
    if s.len() > 0 && is_range_char(s[0]) {
        strip_range_prefix(s.drop_first())
    } else {
        s
    }
}

/// The Ossido framework version, stripped of any range prefix.
pub fn ossido_version(versions: &Versions) -> (res: String)
    ensures
        res@ == strip_range_prefix(versions.ossido@),
{
    let cs = chars_of(versions.ossido.as_str());
    let n = cs.len();
    let mut i: usize = 0;
    proof {
        assert(cs@.skip(0) =~= cs@);
    }
    while i < n && (cs[i] == '^' || cs[i] == '~' || cs[i] == '>' || cs[i] == '=' || cs[i] == '<'
        || cs[i] == ' ')
        invariant
            n == cs@.len(),
            i <= n,
            strip_range_prefix(cs@.skip(i as int)) == strip_range_prefix(cs@),
        decreases n - i,
    {
        proof {
            assert(cs@.skip(i as int).drop_first() =~= cs@.skip(i + 1));
        }
        i = i + 1;
    }
    let mut out = String::new();
    let mut k: usize = i;
    while k < n
        invariant
            n == cs@.len(),
            i <= k <= n,
            out@ == cs@.subrange(i as int, k as int),
        decreases n - k,
    {
        push_char(&mut out, cs[k]);
        proof {
            assert(cs@.subrange(i as int, k + 1) =~= cs@.subrange(i as int, k as int).push(cs@[k as int]));
        }
        k = k + 1;
    }
    proof {
        assert(cs@.subrange(i as int, n as int) =~= cs@.skip(i as int));
    }
    out
}

/// A character that may stand in a results folder name.
pub open spec fn is_path_safe(c: char) -> bool {
    ('a' <= c && c <= 'z') || ('A' <= c && c <= 'Z') || ('0' <= c && c <= '9') || c == '.' || c
        == '+' || c == '_' || c == '-'
}

/// `s` with each character that may not stand in a folder name replaced by `-`.
pub open spec fn path_safe(s: Seq<char>) -> Seq<char> {
    s.map_values(|c: char| if is_path_safe(c) { c } else { '-' })
}

/// A version made safe to name a folder.
pub fn safe_dir_name(version: &str) -> (res: String)
    ensures
        res@ == path_safe(version@),
{
    let cs = chars_of(version);
    let n = cs.len();
    let mut out = String::new();
    let mut i: usize = 0;
    while i < n
        invariant
            n == cs@.len(),
            cs@ == version@,
            i <= n,
            out@ == path_safe(cs@.take(i as int)),
        decreases n - i,
    {
        let c = cs[i];
        let safe = ('a' <= c && c <= 'z') || ('A' <= c && c <= 'Z') || ('0' <= c && c <= '9') || c
            == '.' || c == '+' || c == '_' || c == '-';
        if safe {
            push_char(&mut out, c);
        } else {
            push_char(&mut out, '-');
        }
        proof {
            assert(path_safe(cs@.take(i + 1)) =~= path_safe(cs@.take(i as int)).push(
                if is_path_safe(c) {
                    c
                } else {
                    '-'
                },
            ));
        }
        i = i + 1;
    }
    proof {
        assert(cs@.take(n as int) =~= cs@);
    }
    out
}

/// Stripping the range prefix drops exactly the leading run of `^`, `~`,
/// `>`, `=`, `<` and spaces: what is left is the rest of the text, and it
/// does not start with one of them.
pub proof fn lemma_strip_range_prefix_drops_leading_run(s: Seq<char>)
    ensures
        strip_range_prefix(s).len() <= s.len(),
        strip_range_prefix(s) == s.skip(s.len() - strip_range_prefix(s).len()),
        forall|j: int|
            0 <= j < s.len() - strip_range_prefix(s).len() ==> {
                let c = #[trigger] s[j];
                c == '^' || c == '~' || c == '>' || c == '=' || c == '<' || c == ' '
            },
        strip_range_prefix(s).len() > 0 ==> {
            let c = strip_range_prefix(s)[0];
            !(c == '^' || c == '~' || c == '>' || c == '=' || c == '<' || c == ' ')
        },
    decreases s.len(),
{
    if s.len() > 0 && is_range_char(s[0]) {
        let t = s.drop_first();
        lemma_strip_range_prefix_drops_leading_run(t);
        assert(strip_range_prefix(s) == strip_range_prefix(t));
        assert(t.skip(t.len() - strip_range_prefix(t).len()) =~= s.skip(
            s.len() - strip_range_prefix(s).len(),
        ));
        assert forall|j: int| 0 <= j < s.len() - strip_range_prefix(s).len() implies {
            let c = #[trigger] s[j];
            c == '^' || c == '~' || c == '>' || c == '=' || c == '<' || c == ' '
        } by {
            if j > 0 {
                assert(s[j] == t[j - 1]);
            }
        }
    } else {
        assert(s.skip(0) =~= s);
    }
}

/// The results folder name keeps each character of the version that is an
/// ASCII letter of either case, an ASCII digit, `.`, `+`, `_` or `-`, and
/// puts `-` in place of every other character, one for one.
pub proof fn lemma_path_safe_keeps_name_chars(s: Seq<char>)
    ensures
        path_safe(s).len() == s.len(),
        forall|i: int|
            0 <= i < s.len() ==> #[trigger] path_safe(s)[i] == if ('a' <= s[i] && s[i] <= 'z') || (
            'A' <= s[i] && s[i] <= 'Z') || ('0' <= s[i] && s[i] <= '9') || s[i] == '.' || s[i]
                == '+' || s[i] == '_' || s[i] == '-' {
                s[i]
            } else {
                '-'
            },
{
}

/// A folder name made safe is kept as it is when made safe again, and holds
/// only safe characters.
pub proof fn lemma_path_safe(s: Seq<char>)
    ensures
        path_safe(path_safe(s)) == path_safe(s),
        path_safe(s).len() == s.len(),
        forall|i: int| 0 <= i < s.len() ==> is_path_safe(#[trigger] path_safe(s)[i]),
{
    assert(path_safe(path_safe(s)) =~= path_safe(s));
}

/// Stripping a range prefix twice strips nothing more, and what is left does
/// not start with a range-prefix character.
pub proof fn lemma_strip_range_prefix(s: Seq<char>)
    ensures
        strip_range_prefix(strip_range_prefix(s)) == strip_range_prefix(s),
        strip_range_prefix(s).len() > 0 ==> !is_range_char(strip_range_prefix(s)[0]),
    decreases s.len(),
{
    if s.len() > 0 && is_range_char(s[0]) {
        lemma_strip_range_prefix(s.drop_first());
    }
}

/// `results/<ossido-version>/` under the repository root, with path-unsafe
/// characters of the version replaced by `-`. The folder name holds no
/// separator, so the folder lies directly in the results root: its parent
/// is that root whenever the version is neither empty nor `.`.
pub fn results_dir(root: &str, versions: &Versions) -> (res: String)
    ensures
        res@ == joined_path(
            joined_path(root@, "results"@),
            path_safe(strip_range_prefix(versions.ossido@)),
        ),
        strip_range_prefix(versions.ossido@).len() > 0 && strip_range_prefix(versions.ossido@)
            != seq!['.'] ==> parent_path(res@) == Some(joined_path(root@, "results"@)),
{
    let version = ossido_version(versions);
    let safe = safe_dir_name(version.as_str());
    let base = path_join(root, "results");
    proof {
        reveal_strlit("results");
        let v = version@;
        lemma_path_safe(v);
        if v.len() > 0 && v != seq!['.'] {
            assert(!safe@.contains('/')) by {
                if safe@.contains('/') {
                    let i = choose|i: int| 0 <= i < safe@.len() && safe@[i] == '/';
                    assert(is_path_safe(path_safe(v)[i]));
                }
            }
            assert(safe@ != seq!['.']) by {
                if safe@ == seq!['.'] {
                    assert(v.len() == 1);
                    assert(path_safe(v)[0] == '.');
                    assert(v[0] == '.');
                    assert(v =~= seq!['.']);
                }
            }
            assert(is_component(safe@));
        }
        assert(is_component("results"@));
        assert(base@.last() == 's');
        assert(base@[base@.len() - 1] == 's');
        assert(is_plain_dir(base@));
    }
    path_join(base.as_str(), safe.as_str())
}

// ── frameworks and thread modes ────────────────────────────────────────────

/// The two frameworks under test.
#[derive(Clone, Copy, PartialEq, Eq, Hash, Debug, Structural)]
pub enum FrameworkKey {
    Ossido,
    Next,
}

impl FrameworkKey {
    /// Stable machine key used in report maps and JSON.
    pub fn as_str(self) -> (res: &'static str)
        ensures
            res@ == (match self {
                FrameworkKey::Ossido => "ossido"@,
                FrameworkKey::Next => "next"@,
            }),
    {
        match self {
            FrameworkKey::Ossido => "ossido",
            FrameworkKey::Next => "next",
        }
    }
}

/// A framework with its display label and server port.
#[derive(Clone, Copy)]
pub struct Framework {
    pub key: FrameworkKey,
    pub label: &'static str,
    pub port: u16,
}

/// Ossido, served on port 4000.
pub fn ossido_framework() -> (res: Framework)
    ensures
        res.key == FrameworkKey::Ossido,
        res.label@ == "Ossido"@,
        res.port == OSSIDO_PORT,
{
    Framework { key: FrameworkKey::Ossido, label: "Ossido", port: OSSIDO_PORT }
}

/// Next.js, served on port 4100.
pub fn next_framework() -> (res: Framework)
    ensures
        res.key == FrameworkKey::Next,
        res.label@ == "Next.js"@,
        res.port == NEXT_PORT,
{
    Framework { key: FrameworkKey::Next, label: "Next.js", port: NEXT_PORT }
}

/// The frameworks, Ossido first.
pub fn frameworks() -> (res: [Framework; 2])
    ensures
        res[0].key == FrameworkKey::Ossido,
        res[0].label@ == "Ossido"@,
        res[0].port == OSSIDO_PORT,
        res[1].key == FrameworkKey::Next,
        res[1].label@ == "Next.js"@,
        res[1].port == NEXT_PORT,
{
    [ossido_framework(), next_framework()]
}

/// Single-threaded or multi-threaded configuration.
#[derive(Clone, Copy, PartialEq, Eq, Debug, Structural)]
pub enum ThreadMode {
    Single,
    Multi,
}

/// The name of a thread mode.
pub open spec fn mode_name(mode: ThreadMode) -> Seq<char> {
    match mode {
        ThreadMode::Single => "single"@,
        ThreadMode::Multi => "multi"@,
    }
}

impl ThreadMode {
    /// The mode's name.
    pub fn as_str(self) -> (res: &'static str)
        ensures
            res@ == mode_name(self),
    {
        match self {
            ThreadMode::Single => "single",
            ThreadMode::Multi => "multi",
        }
    }

    /// Thread/worker count for this mode on a machine with `cores` logical cores.
    pub fn threads(self, cores: usize) -> (res: usize)
        ensures
            res == (match self {
                ThreadMode::Single => 1,
                ThreadMode::Multi => cores,
            }),
    {
        match self {
            ThreadMode::Single => 1,
            ThreadMode::Multi => cores,
        }
    }
}

/// The thread modes, single first.
pub fn thread_modes() -> (res: [ThreadMode; 2])
    ensures
        res[0] == ThreadMode::Single,
        res[1] == ThreadMode::Multi,
{
    [ThreadMode::Single, ThreadMode::Multi]
}

// ── scenarios ──────────────────────────────────────────────────────────────

/// A load-tested route.
#[derive(Clone, Copy)]
pub struct Scenario {
    pub key: &'static str,
    pub title: &'static str,
    pub path: &'static str,
    pub note: &'static str,
    /// Concurrent connections for this scenario; `None` means the configured default.
    pub connections: Option<usize>,
}

/// The scenario's text fields and connection count.
pub open spec fn scenario_is(
    s: Scenario,
    key: Seq<char>,
    title: Seq<char>,
    path: Seq<char>,
    note: Seq<char>,
    connections: Option<usize>,
) -> bool {
    &&& s.key@ == key
    &&& s.title@ == title
    &&& s.path@ == path
    &&& s.note@ == note
    &&& s.connections == connections
}

/// The load-tested scenarios (throughput and latency) on a machine with
/// `cores` logical cores: the catalogue page, the heavy table with two
/// connections per core, and the JSON API.
pub fn load_scenarios(cores: usize) -> (res: Vec<Scenario>)
    requires
        cores * 2 <= usize::MAX,
    ensures
        res@.len() == 3,
        scenario_is(
            res@[0],
            "ssr"@,
            "SSR \u{2014} catalogue"@,
            "/ssr"@,
            "60 product cards rendered per request"@,
            None,
        ),
        scenario_is(
            res@[1],
            "heavy"@,
            "SSR \u{2014} heavy table"@,
            "/heavy"@,
            "5000-row table, CPU-bound render"@,
            Some((cores * 2) as usize),
        ),
        scenario_is(
            res@[2],
            "api"@,
            "JSON API"@,
            "/api/bench"@,
            "100-item JSON payload (Rust vs Node)"@,
            None,
        ),
{
    let mut v: Vec<Scenario> = Vec::new();
    v.push(
        Scenario {
            key: "ssr",
            title: "SSR \u{2014} catalogue",
            path: "/ssr",
            note: "60 product cards rendered per request",
            connections: None,
        },
    );
    v.push(
        Scenario {
            key: "heavy",
            title: "SSR \u{2014} heavy table",
            path: "/heavy",
            note: "5000-row table, CPU-bound render",
            connections: Some(cores * 2),
        },
    );
    v.push(
        Scenario {
            key: "api",
            title: "JSON API",
            path: "/api/bench",
            note: "100-item JSON payload (Rust vs Node)",
            connections: None,
        },
    );
    v
}

/// The streaming route, measured separately for time to first byte.
pub fn stream_scenario() -> (res: Scenario)
    ensures
        scenario_is(
            res,
            "stream"@,
            "Streaming SSR"@,
            "/stream"@,
            "shell flushed first, 3000-row table streamed after"@,
            None,
        ),
{
    Scenario {
        key: "stream",
        title: "Streaming SSR",
        path: "/stream",
        note: "shell flushed first, 3000-row table streamed after",
        connections: None,
    }
}

} // verus!
