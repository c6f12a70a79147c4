//! Memory-efficiency report: the parallelism levels swept and the Mermaid
//! bar charts of MEMORY.md.
use vstd::prelude::*;

use crate::config::FrameworkKey;
use crate::text::{decimal, decimal_seq, join, join_seq, push_str, views};
use std::collections::HashMap;

verus! {

/// Two to the power `k`.
pub open spec fn pow2(k: nat) -> nat
    decreases k,
{
    if k == 0 {
        1
    } else {
        2 * pow2((k - 1) as nat)
    }
}

/// Powers of two grow strictly.
pub proof fn lemma_pow2_increases(i: nat, j: nat)
    requires
        i < j,
    ensures
        1 <= pow2(i) < pow2(j),
    decreases j,
{
    if j - 1 > i {
        lemma_pow2_increases(i, (j - 1) as nat);
    } else {
        lemma_pow2_positive(i);
    }
}

proof fn lemma_pow2_positive(i: nat)
    ensures
        1 <= pow2(i),
    decreases i,
{
    if i > 0 {
        lemma_pow2_positive((i - 1) as nat);
    }
}

/// `x` is a parallelism level on a machine with `cores` cores: 1, the core
/// count, or a power of two between them.
pub open spec fn is_level(cores: nat, x: nat) -> bool {
    x == 1 || x == cores || (x <= cores && exists|k: nat| 1 <= k && #[trigger] pow2(k) == x)
}

/// Parallelism levels to sweep: powers of two up to the core count,
/// inclusive, in increasing order and each once.
pub fn levels(cores: usize) -> (res: Vec<usize>)
    requires
        cores <= usize::MAX / 2,
    ensures
        forall|i: int, j: int| 0 <= i < j < res@.len() ==> res@[i] < res@[j],
        forall|i: int| 0 <= i < res@.len() ==> is_level(cores as nat, #[trigger] res@[i] as nat),
        forall|x: nat| is_level(cores as nat, x) ==> res@.contains(x as usize),
{
    let mut set: Vec<usize> = Vec::new();
    set.push(1);
    let mut n: usize = 2;
    let ghost mut j: nat = 1;
    proof {
        reveal_with_fuel(pow2, 2);
        assert(pow2(1) == 2);
    }
    while n <= cores
        invariant
            cores <= usize::MAX / 2,
            j >= 1,
            n >= 2,
            n as nat == pow2(j),
            set@.len() == j,
            forall|i: int| 0 <= i < j ==> #[trigger] set@[i] as nat == pow2(i as nat),
            pow2((j - 1) as nat) <= cores || j == 1,
        decreases usize::MAX - n,
    {
        set.push(n);
        n = n * 2;
        proof {
            j = j + 1;
        }
    }
    let ghost pows = set@;
    assert forall|a: int, b: int| 0 <= a < b < pows.len() implies pows[a] < pows[b] by {
        lemma_pow2_increases(a as nat, b as nat);
    }
    assert forall|x: nat| #[trigger] is_level(cores as nat, x) && x != 1 && x != cores
        implies pows.contains(x as usize) by {
        let k = choose|k: nat| 1 <= k && #[trigger] pow2(k) == x;
        if k >= j {
            if k > j {
                lemma_pow2_increases(j, k);
            }
        }
        assert(pows[k as int] as nat == x);
    }
    assert forall|i: int| 0 <= i < pows.len() implies is_level(cores as nat, #[trigger] pows[i] as nat) by {
        if i >= 1 {
            assert(pow2(i as nat) == pows[i] as nat);
            if i < j - 1 {
                lemma_pow2_increases(i as nat, (j - 1) as nat);
            }
        }
    }
    assert(pows[0] == 1);
    let last = set[set.len() - 1];
    if cores < 1 {
        set.insert(0, cores);
        proof {
            assert(set@ == pows.insert(0, cores));
            assert(set@[0] == cores);
            assert forall|x: nat| is_level(cores as nat, x) implies set@.contains(x as usize) by {
                if x == 1 {
                    assert(set@[1] == 1);
                } else if x == cores {
                } else {
                    let k = choose|k: nat| 1 <= k && #[trigger] pow2(k) == x;
                    lemma_pow2_increases(0, k);
                }
            }
            assert forall|a: int, b: int| 0 <= a < b < set@.len() implies set@[a] < set@[b] by {
                if a > 0 {
                    assert(set@[a] == pows[a - 1] && set@[b] == pows[b - 1]);
                } else {
                    assert(set@[b] == pows[b - 1]);
                    if b - 1 > 0 {
                        assert(pows[0] < pows[b - 1]);
                    }
                }
            }
        }
    } else if last != cores {
        set.push(cores);
        proof {
            assert(pows[pows.len() - 1] as nat == pow2((j - 1) as nat));
            assert forall|a: int, b: int| 0 <= a < b < set@.len() implies set@[a] < set@[b] by {
                if b == set@.len() - 1 {
                    if a < pows.len() - 1 {
                        assert(pows[a] < pows[pows.len() - 1]);
                    }
                } else {
                    assert(set@[a] == pows[a] && set@[b] == pows[b]);
                }
            }
            assert forall|x: nat| is_level(cores as nat, x) implies set@.contains(x as usize) by {
                if x == cores {
                    assert(set@[set@.len() - 1] == cores);
                } else if x == 1 {
                    assert(set@[0] == 1);
                } else {
                    assert(pows.contains(x as usize));
                    let p = choose|p: int| 0 <= p < pows.len() && pows[p] == x as usize;
                    assert(set@[p] == pows[p]);
                }
            }
            assert forall|i: int| 0 <= i < set@.len() implies is_level(cores as nat, #[trigger] set@[i] as nat) by {
                if i < pows.len() {
                    assert(set@[i] == pows[i]);
                }
            }
        }
    } else {
        proof {
            assert forall|x: nat| is_level(cores as nat, x) implies set@.contains(x as usize) by {
                if x == cores {
                    assert(set@[set@.len() - 1] == cores);
                } else if x == 1 {
                    assert(set@[0] == 1);
                }
            }
        }
    }
    set
}

// ── charts ─────────────────────────────────────────────────────────────────

/// The bar label for one parallelism level.
pub open spec fn bar_label(prefix: Seq<char>, x: usize) -> Seq<char> {
    "\""@ + prefix + decimal_seq(x as nat) + "\""@
}

/// The labels of the sweep: Ossido's levels, then Next.js's.
pub open spec fn sweep_labels(xs: Seq<usize>) -> Seq<Seq<char>> {
    xs.map_values(|x: usize| bar_label("Oss x"@, x)) + xs.map_values(
        |x: usize| bar_label("Next x"@, x),
    )
}

/// The chart's bars are labelled by parallelism level: with `n` levels, the
/// bar at position `i` is `"Oss x` and the decimal numeral of the `i`-th
/// level, and the bar at position `n + i` is `"Next x` and the same numeral,
/// each in double quotes.
pub proof fn lemma_sweep_labels_name_levels(xs: Seq<usize>)
    ensures
        sweep_labels(xs).len() == 2 * xs.len(),
        forall|i: int|
            0 <= i < xs.len() ==> #[trigger] sweep_labels(xs)[i] == seq!['"'] + "Oss x"@
                + decimal_seq(xs[i] as nat) + seq!['"'],
        forall|i: int|
            0 <= i < xs.len() ==> #[trigger] sweep_labels(xs)[xs.len() + i] == seq!['"']
                + "Next x"@ + decimal_seq(xs[i] as nat) + seq!['"'],
{
    reveal_strlit("\"");
    assert("\""@ =~= seq!['"']);
}

/// A Mermaid bar chart over both frameworks' sweep, Ossido then Next.js.
pub open spec fn sweep_bar_text(
    title: Seq<char>,
    y_label: Seq<char>,
    xs: Seq<usize>,
    values: Seq<Seq<char>>,
) -> Seq<char> {
    join_seq(
        seq![
            "```mermaid"@,
            "xychart-beta"@,
            "    title \""@ + title + "\""@,
            "    x-axis ["@ + join_seq(sweep_labels(xs), ", "@) + "]"@,
            "    y-axis \""@ + y_label + "\""@,
            "    bar ["@ + join_seq(values, ", "@) + "]"@,
            "```"@,
            Seq::empty(),
        ],
        "\n"@,
    )
}

fn push_labels(out: &mut Vec<String>, prefix: &str, xs: &Vec<usize>)
    ensures
        views(final(out)@) == views(old(out)@) + xs@.map_values(|x: usize| bar_label(prefix@, x)),
{
    let n = xs.len();
    let mut i: usize = 0;
    let ghost start = views(out@);
    while i < n
        invariant
            n == xs@.len(),
            i <= n,
            views(out@) == start + xs@.take(i as int).map_values(|x: usize| bar_label(prefix@, x)),
        decreases n - i,
    {
        let mut s = String::from_str("\"");
        push_str(&mut s, prefix);
        let d = decimal(xs[i] as u64);
        push_str(&mut s, d.as_str());
        push_str(&mut s, "\"");
        let ghost before = out@;
        out.push(s);
        proof {
            assert(views(out@) =~= views(before).push(s@));
            assert(xs@.take(i + 1).map_values(|x: usize| bar_label(prefix@, x)) =~= xs@.take(
                i as int,
            ).map_values(|x: usize| bar_label(prefix@, x)).push(bar_label(prefix@, xs@[i as int])));
            assert(views(out@) =~= start + xs@.take(i + 1).map_values(
                |x: usize| bar_label(prefix@, x),
            ));
        }
        i = i + 1;
    }
    proof {
        assert(xs@.take(n as int) =~= xs@);
    }
}

/// One bar chart over both frameworks' parallelism sweep (Ossido then
/// Next.js); `ossido_values` and `next_values` are the printed bar values.
pub fn mermaid_sweep_bar(
    title: &str,
    y_label: &str,
    xs: &Vec<usize>,
    ossido_values: &Vec<String>,
    next_values: &Vec<String>,
) -> (res: String)
    ensures
        res@ == sweep_bar_text(
            title@,
            y_label@,
            xs@,
            views(ossido_values@) + views(next_values@),
        ),
{
    let mut labels: Vec<String> = Vec::new();
    push_labels(&mut labels, "Oss x", xs);
    push_labels(&mut labels, "Next x", xs);
    let mut values: Vec<String> = Vec::new();
    let mut i: usize = 0;
    while i < ossido_values.len()
        invariant
            i <= ossido_values@.len(),
            views(values@) == views(ossido_values@).take(i as int),
        decreases ossido_values@.len() - i,
    {
        let ghost before = values@;
        let c = ossido_values[i].clone();
        values.push(c);
        proof {
            assert(views(values@) =~= views(before).push(c@));
            assert(views(values@) =~= views(ossido_values@).take(i + 1));
        }
        i = i + 1;
    }
    let mut k: usize = 0;
    while k < next_values.len()
        invariant
            i == ossido_values@.len(),
            k <= next_values@.len(),
            views(values@) == views(ossido_values@) + views(next_values@).take(k as int),
        decreases next_values@.len() - k,
    {
        let ghost before = values@;
        let c = next_values[k].clone();
        values.push(c);
        proof {
            assert(views(values@) =~= views(before).push(c@));
            assert(views(values@) =~= views(ossido_values@) + views(next_values@).take(k + 1));
        }
        k = k + 1;
    }
    proof {
        assert(views(ossido_values@).take(i as int) =~= views(ossido_values@));
        assert(views(next_values@).take(k as int) =~= views(next_values@));
    }
    let mut lines: Vec<String> = Vec::new();
    lines.push(String::from_str("```mermaid"));
    lines.push(String::from_str("xychart-beta"));
    let mut t = String::from_str("    title \"");
    push_str(&mut t, title);
    push_str(&mut t, "\"");
    lines.push(t);
    let mut xa = String::from_str("    x-axis [");
    let lj = join(&labels, ", ");
    push_str(&mut xa, lj.as_str());
    push_str(&mut xa, "]");
    lines.push(xa);
    let mut ya = String::from_str("    y-axis \"");
    push_str(&mut ya, y_label);
    push_str(&mut ya, "\"");
    lines.push(ya);
    let mut bar = String::from_str("    bar [");
    let vj = join(&values, ", ");
    push_str(&mut bar, vj.as_str());
    push_str(&mut bar, "]");
    lines.push(bar);
    lines.push(String::from_str("```"));
    lines.push(String::new());
    let res = join(&lines, "\n");
    proof {
        assert(views(labels@) =~= sweep_labels(xs@));
        assert(views(lines@) =~= seq![
            "```mermaid"@,
            "xychart-beta"@,
            "    title \""@ + title@ + "\""@,
            "    x-axis ["@ + join_seq(sweep_labels(xs@), ", "@) + "]"@,
            "    y-axis \""@ + y_label@ + "\""@,
            "    bar ["@ + join_seq(views(ossido_values@) + views(next_values@), ", "@) + "]"@,
            "```"@,
            Seq::empty(),
        ]);
    }
    res
}

// ── record lookup ──────────────────────────────────────────────────────────

/// The last position at or before `k` (exclusive) whose record is keyed
/// `(fw, n)`.
pub open spec fn last_record_before(keys: Seq<(FrameworkKey, usize)>, fw: FrameworkKey, n: usize, k: int) -> Option<int>
    decreases k,
{
    if k <= 0 {
        None
    } else if keys[k - 1] == (fw, n) {
        Some(k - 1)
    } else {
        last_record_before(keys, fw, n, k - 1)
    }
}

/// A position as an integer.
pub open spec fn opt_pos(o: Option<usize>) -> Option<int> {
    match o {
        Some(i) => Some(i as int),
        None => None,
    }
}

/// Where each framework's records lie, by parallelism level: the map that
/// the memory report looks its records up in.
pub struct RecordIndex {
    ossido: HashMap<usize, usize>,
    next: HashMap<usize, usize>,
}

impl RecordIndex {
    /// The position held for framework `fw` at level `n`.
    pub closed spec fn lookup(&self, fw: FrameworkKey, n: usize) -> Option<usize> {
        let m = match fw {
            FrameworkKey::Ossido => self.ossido@,
            FrameworkKey::Next => self.next@,
        };
        if m.contains_key(n) {
            Some(m[n])
        } else {
            None
        }
    }

    /// Collects the records' keys, in order, into the index: a later record
    /// of the same framework and level replaces an earlier one, as collecting
    /// into a map does, so each key finds the last record that has it.
    pub fn new(keys: &Vec<(FrameworkKey, usize)>) -> (res: RecordIndex)
        ensures
            forall|fw: FrameworkKey, n: usize|
                opt_pos(#[trigger] res.lookup(fw, n)) == last_record_before(
                    keys@,
                    fw,
                    n,
                    keys@.len() as int,
                ),
    {
        broadcast use vstd::std_specs::hash::group_hash_axioms;

        let mut idx = RecordIndex { ossido: HashMap::new(), next: HashMap::new() };
        let len = keys.len();
        let mut k: usize = 0;
        while k < len
            invariant
                len == keys@.len(),
                k <= len,
                forall|fw: FrameworkKey, n: usize|
                    opt_pos(#[trigger] idx.lookup(fw, n)) == last_record_before(keys@, fw, n, k as int),
            decreases len - k,
        {
            let (fw, n) = keys[k];
            let ghost before = idx;
            match fw {
                FrameworkKey::Ossido => {
                    idx.ossido.insert(n, k);
                },
                FrameworkKey::Next => {
                    idx.next.insert(n, k);
                },
            }
            assert forall|f: FrameworkKey, m: usize|
                opt_pos(#[trigger] idx.lookup(f, m)) == last_record_before(keys@, f, m, k + 1) by {
                if keys@[k as int] == (f, m) {
                    assert(idx.lookup(f, m) == Some(k));
                } else {
                    assert(idx.lookup(f, m) == before.lookup(f, m));
                }
            }
            k = k + 1;
        }
        idx
    }

    /// The position of the record of framework `fw` at level `n`.
    pub fn get(&self, fw: FrameworkKey, n: usize) -> (res: Option<usize>)
        ensures
            res == self.lookup(fw, n),
    {
        broadcast use vstd::std_specs::hash::group_hash_axioms;

        let m = match fw {
            FrameworkKey::Ossido => &self.ossido,
            FrameworkKey::Next => &self.next,
        };
        match m.get(&n) {
            Some(i) => Some(*i),
            None => None,
        }
    }
}

/// The positions of framework `fw`'s records at the levels `xs`, in the
/// order of `xs`, skipping levels with no record.
pub open spec fn framework_rows(keys: Seq<(FrameworkKey, usize)>, fw: FrameworkKey, xs: Seq<usize>) -> Seq<int>
    decreases xs.len(),
{
    if xs.len() == 0 {
        Seq::empty()
    } else {
        let rest = framework_rows(keys, fw, xs.drop_last());
        match last_record_before(keys, fw, xs.last(), keys.len() as int) {
            Some(i) => rest.push(i),
            None => rest,
        }
    }
}

/// The rows of the results table of MEMORY.md: Ossido's records at each
/// level, then Next.js's.
pub open spec fn memory_rows(keys: Seq<(FrameworkKey, usize)>, xs: Seq<usize>) -> Seq<int> {
    framework_rows(keys, FrameworkKey::Ossido, xs) + framework_rows(keys, FrameworkKey::Next, xs)
}

fn push_framework_rows(out: &mut Vec<usize>, keys: &Vec<(FrameworkKey, usize)>, index: &RecordIndex, fw: FrameworkKey, xs: &Vec<usize>)
    requires
        forall|f: FrameworkKey, n: usize|
            opt_pos(#[trigger] index.lookup(f, n)) == last_record_before(keys@, f, n, keys@.len() as int),
    ensures
        final(out)@.map_values(|i: usize| i as int) == old(out)@.map_values(|i: usize| i as int)
            + framework_rows(keys@, fw, xs@),
{
    let ghost start = out@.map_values(|i: usize| i as int);
    let n = xs.len();
    let mut k: usize = 0;
    while k < n
        invariant
            n == xs@.len(),
            k <= n,
            out@.map_values(|i: usize| i as int) == start + framework_rows(keys@, fw, xs@.take(k as int)),
            forall|f: FrameworkKey, m: usize|
                opt_pos(#[trigger] index.lookup(f, m)) == last_record_before(keys@, f, m, keys@.len() as int),
        decreases n - k,
    {
        proof {
            assert(xs@.take(k + 1).drop_last() =~= xs@.take(k as int));
        }
        let ghost before = out@;
        match index.get(fw, xs[k]) {
            Some(i) => {
                out.push(i);
                proof {
                    assert(out@.map_values(|i: usize| i as int) =~= before.map_values(|i: usize| i as int).push(i as int));
                }
            },
            None => {},
        }
        proof {
            assert(out@.map_values(|i: usize| i as int) =~= start + framework_rows(keys@, fw, xs@.take(k + 1)));
        }
        k = k + 1;
    }
    proof {
        assert(xs@.take(n as int) =~= xs@);
    }
}

/// Whether record `j` is the last of the records keyed `key`.
pub open spec fn is_last_record(keys: Seq<(FrameworkKey, usize)>, j: int, key: (FrameworkKey, usize)) -> bool {
    &&& 0 <= j < keys.len()
    &&& keys[j] == key
    &&& forall|j2: int| j < j2 < keys.len() ==> keys[j2] != key
}

proof fn lemma_last_record_before(keys: Seq<(FrameworkKey, usize)>, fw: FrameworkKey, n: usize, k: int)
    requires
        0 <= k <= keys.len(),
    ensures
        last_record_before(keys, fw, n, k) matches Some(i) ==> 0 <= i < k && keys[i] == (fw, n)
            && forall|j2: int| i < j2 < k ==> keys[j2] != (fw, n),
        last_record_before(keys, fw, n, k) is None ==> forall|j: int|
            0 <= j < k ==> keys[j] != (fw, n),
    decreases k,
{
    if k > 0 {
        lemma_last_record_before(keys, fw, n, k - 1);
    }
}

proof fn lemma_framework_rows(keys: Seq<(FrameworkKey, usize)>, fw: FrameworkKey, xs: Seq<usize>)
    ensures
        framework_rows(keys, fw, xs).len() <= xs.len(),
        forall|p: int|
            0 <= p < framework_rows(keys, fw, xs).len() ==> {
                let i = #[trigger] framework_rows(keys, fw, xs)[p];
                &&& 0 <= i < keys.len()
                &&& keys[i].0 == fw
                &&& xs.contains(keys[i].1)
                &&& is_last_record(keys, i, keys[i])
            },
        forall|k: int, j: int|
            0 <= k < xs.len() && #[trigger] is_last_record(keys, j, (fw, #[trigger] xs[k]))
                ==> framework_rows(keys, fw, xs).contains(j),
        (forall|k: int|
            0 <= k < xs.len() ==> exists|j: int|
                0 <= j < keys.len() && #[trigger] keys[j] == (fw, #[trigger] xs[k]))
            ==> framework_rows(keys, fw, xs).len() == xs.len(),
    decreases xs.len(),
{
    if xs.len() > 0 {
        let init = xs.drop_last();
        let x = xs.last();
        lemma_framework_rows(keys, fw, init);
        lemma_last_record_before(keys, fw, x, keys.len() as int);
        let rest = framework_rows(keys, fw, init);
        let rows = framework_rows(keys, fw, xs);
        assert forall|p: int| 0 <= p < rows.len() implies {
            let i = #[trigger] rows[p];
            &&& 0 <= i < keys.len()
            &&& keys[i].0 == fw
            &&& xs.contains(keys[i].1)
            &&& is_last_record(keys, i, keys[i])
        } by {
            if p < rest.len() {
                assert(rows[p] == rest[p]);
                let i = rest[p];
                let q = choose|q: int| 0 <= q < init.len() && init[q] == keys[i].1;
                assert(xs[q] == init[q]);
            } else {
                assert(xs[xs.len() - 1] == x);
            }
        }
        assert forall|k: int, j: int|
            0 <= k < xs.len() && #[trigger] is_last_record(keys, j, (fw, #[trigger] xs[k])) implies rows.contains(j) by {
            if k < init.len() {
                assert(xs[k] == init[k]);
                assert(rest.contains(j));
                let q = choose|q: int| 0 <= q < rest.len() && rest[q] == j;
                assert(rows[q] == rest[q]);
            } else {
                assert(xs[k] == x);
                match last_record_before(keys, fw, x, keys.len() as int) {
                    Some(i) => {
                        if i < j {
                        } else if j < i {
                        }
                        assert(i == j);
                        assert(rows[rows.len() - 1] == j);
                    },
                    None => {
                    },
                }
            }
        }
        if forall|k: int|
            0 <= k < xs.len() ==> exists|j: int|
                0 <= j < keys.len() && #[trigger] keys[j] == (fw, #[trigger] xs[k]) {
            assert forall|k: int| 0 <= k < init.len() implies exists|j: int|
                0 <= j < keys.len() && #[trigger] keys[j] == (fw, #[trigger] init[k]) by {
                assert(init[k] == xs[k]);
            }
            assert(xs[xs.len() - 1] == x);
            let j = choose|j: int| 0 <= j < keys.len() && #[trigger] keys[j] == (fw, xs[xs.len() - 1]);
            assert(last_record_before(keys, fw, x, keys.len() as int) is Some);
        }
    }
}

/// The results table of MEMORY.md shows every level that was measured: for
/// each framework and each level of `xs`, the last record of that framework
/// at that level is a row, the last (full-parallelism) level included; every
/// row is such a record; Ossido's rows come before Next.js's; and a sweep
/// with a record for each framework at each level has two rows per level.
pub proof fn lemma_memory_rows_cover_levels(keys: Seq<(FrameworkKey, usize)>, xs: Seq<usize>)
    ensures
        forall|k: int, j: int|
            0 <= k < xs.len() && #[trigger] is_last_record(keys, j, (FrameworkKey::Ossido, #[trigger] xs[k]))
                ==> memory_rows(keys, xs).contains(j),
        forall|k: int, j: int|
            0 <= k < xs.len() && #[trigger] is_last_record(keys, j, (FrameworkKey::Next, #[trigger] xs[k]))
                ==> memory_rows(keys, xs).contains(j),
        forall|p: int|
            0 <= p < memory_rows(keys, xs).len() ==> {
                let i = #[trigger] memory_rows(keys, xs)[p];
                &&& 0 <= i < keys.len()
                &&& xs.contains(keys[i].1)
                &&& is_last_record(keys, i, keys[i])
            },
        forall|p: int, q: int|
            0 <= p < q < memory_rows(keys, xs).len() ==> !(keys[#[trigger] memory_rows(keys, xs)[p]].0
                == FrameworkKey::Next && keys[#[trigger] memory_rows(keys, xs)[q]].0
                == FrameworkKey::Ossido),
        (forall|k: int|
            0 <= k < xs.len() ==> (exists|j: int|
                0 <= j < keys.len() && #[trigger] keys[j] == (FrameworkKey::Ossido, #[trigger] xs[k]))
                && (exists|j: int|
                0 <= j < keys.len() && #[trigger] keys[j] == (FrameworkKey::Next, #[trigger] xs[k])))
            ==> memory_rows(keys, xs).len() == 2 * xs.len(),
{
    lemma_framework_rows(keys, FrameworkKey::Ossido, xs);
    lemma_framework_rows(keys, FrameworkKey::Next, xs);
    let a = framework_rows(keys, FrameworkKey::Ossido, xs);
    let b = framework_rows(keys, FrameworkKey::Next, xs);
    let r = memory_rows(keys, xs);
    assert(r == a + b);
    assert forall|k: int, j: int|
        0 <= k < xs.len() && #[trigger] is_last_record(keys, j, (FrameworkKey::Ossido, #[trigger] xs[k]))
            implies r.contains(j) by {
        let q = choose|q: int| 0 <= q < a.len() && a[q] == j;
        assert(r[q] == a[q]);
    }
    assert forall|k: int, j: int|
        0 <= k < xs.len() && #[trigger] is_last_record(keys, j, (FrameworkKey::Next, #[trigger] xs[k]))
            implies r.contains(j) by {
        let q = choose|q: int| 0 <= q < b.len() && b[q] == j;
        assert(r[a.len() + q] == b[q]);
    }
    assert forall|p: int| 0 <= p < r.len() implies {
        let i = #[trigger] r[p];
        &&& 0 <= i < keys.len()
        &&& xs.contains(keys[i].1)
        &&& is_last_record(keys, i, keys[i])
    } by {
        if p < a.len() {
            assert(r[p] == a[p]);
        } else {
            assert(r[p] == b[p - a.len()]);
        }
    }
    assert forall|p: int, q: int| 0 <= p < q < r.len() implies !(keys[#[trigger] r[p]].0
        == FrameworkKey::Next && keys[#[trigger] r[q]].0 == FrameworkKey::Ossido) by {
        if p < a.len() {
            assert(r[p] == a[p]);
        } else {
            assert(r[p] == b[p - a.len()]);
            assert(r[q] == b[q - a.len()]);
        }
    }
    if forall|k: int|
        0 <= k < xs.len() ==> (exists|j: int|
            0 <= j < keys.len() && #[trigger] keys[j] == (FrameworkKey::Ossido, #[trigger] xs[k]))
            && (exists|j: int|
            0 <= j < keys.len() && #[trigger] keys[j] == (FrameworkKey::Next, #[trigger] xs[k])) {
        assert forall|k: int| 0 <= k < xs.len() implies exists|j: int|
            0 <= j < keys.len() && #[trigger] keys[j] == (FrameworkKey::Ossido, #[trigger] xs[k]) by {}
        assert forall|k: int| 0 <= k < xs.len() implies exists|j: int|
            0 <= j < keys.len() && #[trigger] keys[j] == (FrameworkKey::Next, #[trigger] xs[k]) by {}
    }
}

/// The positions of the records shown in the results table of MEMORY.md,
/// in table order: Ossido at each level of `xs`, then Next.js, each level
/// shown only when it has a record (the last one recorded for it).
pub fn memory_table_rows(keys: &Vec<(FrameworkKey, usize)>, xs: &Vec<usize>) -> (res: Vec<usize>)
    ensures
        res@.map_values(|i: usize| i as int) == memory_rows(keys@, xs@),
{
    let mut out: Vec<usize> = Vec::new();
    proof {
        assert(out@.map_values(|i: usize| i as int) =~= Seq::<int>::empty());
    }
    let index = RecordIndex::new(keys);
    push_framework_rows(&mut out, keys, &index, FrameworkKey::Ossido, xs);
    push_framework_rows(&mut out, keys, &index, FrameworkKey::Next, xs);
    proof {
        assert(out@.map_values(|i: usize| i as int) =~= memory_rows(keys@, xs@));
    }
    out
}

/// The largest level whose flag is set, if any.
pub open spec fn largest_flagged(xs: Seq<usize>, flags: Seq<bool>, k: int) -> Option<usize>
    decreases k,
{
    if k <= 0 {
        None
    } else {
        let rest = largest_flagged(xs, flags, k - 1);
        if flags[k - 1] {
            match rest {
                Some(m) => if xs[k - 1] > m {
                    Some(xs[k - 1])
                } else {
                    Some(m)
                },
                None => Some(xs[k - 1]),
            }
        } else {
            rest
        }
    }
}

/// The largest of the levels `xs` whose flag in `fits` is set (the most
/// Next.js workers that fit in Ossido's memory); `None` when none is set.
pub fn largest_fit(xs: &Vec<usize>, fits: &Vec<bool>) -> (res: Option<usize>)
    requires
        fits@.len() == xs@.len(),
    ensures
        res == largest_flagged(xs@, fits@, xs@.len() as int),
        res matches Some(m) ==> exists|i: int| 0 <= i < xs@.len() && fits@[i] && xs@[i] == m,
        res matches Some(m) ==> forall|i: int| 0 <= i < xs@.len() && fits@[i] ==> xs@[i] <= m,
        res is None ==> forall|i: int| 0 <= i < xs@.len() ==> !fits@[i],
{
    let n = xs.len();
    let mut best: Option<usize> = None;
    let mut i: usize = 0;
    while i < n
        invariant
            n == xs@.len(),
            fits@.len() == n,
            i <= n,
            best == largest_flagged(xs@, fits@, i as int),
            best matches Some(m) ==> exists|j: int| 0 <= j < i && fits@[j] && xs@[j] == m,
            best matches Some(m) ==> forall|j: int| 0 <= j < i && fits@[j] ==> xs@[j] <= m,
            best is None ==> forall|j: int| 0 <= j < i ==> !fits@[j],
        decreases n - i,
    {
        if fits[i] {
            best = match best {
                Some(m) => if xs[i] > m {
                    Some(xs[i])
                } else {
                    Some(m)
                },
                None => Some(xs[i]),
            };
        }
        i = i + 1;
    }
    best
}

} // verus!
