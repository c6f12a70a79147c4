//! The results index table kept in README.md between the BENCH_TABLE markers:
//! reading each run's metadata, ordering the runs newest first, rendering the
//! Markdown table and splicing it into the README text.
use vstd::prelude::*;

use crate::json::{get2_of, get_of, parse_json, parsed_json, str_at, str_of, as_str, get, JsonView};
use crate::order::{lemma_lex_order, lex_less, lex_lt};
use crate::text::{chars_of, find, join, join_seq, occurs_at, push_str, slice_skip, slice_take, string_of, views};

verus! {

/// Marker that opens the table block in README.md.
pub const START: &'static str = "<!-- BENCH_TABLE:START -->";

/// Marker that closes the table block in README.md.
pub const END: &'static str = "<!-- BENCH_TABLE:END -->";

/// The first index at or after `i` where `needle` occurs in `hay`.
pub open spec fn first_from(hay: Seq<char>, needle: Seq<char>, i: int) -> Option<int>
    decreases hay.len() + 1 - i,
{
    if i < 0 || i > hay.len() {
        None
    } else if occurs_at(hay, needle, i) {
        Some(i)
    } else {
        first_from(hay, needle, i + 1)
    }
}

/// The first index where `needle` occurs in `hay`, if any.
pub open spec fn first_occurrence(hay: Seq<char>, needle: Seq<char>) -> Option<int> {
    first_from(hay, needle, 0)
}

proof fn lemma_first_from(hay: Seq<char>, needle: Seq<char>, i: int)
    requires
        0 <= i <= hay.len() + 1,
    ensures
        first_from(hay, needle, i) matches Some(k) ==> i <= k && occurs_at(hay, needle, k)
            && forall|j: int| i <= j < k ==> !occurs_at(hay, needle, j),
        first_from(hay, needle, i) is None ==> forall|j: int|
            i <= j ==> !occurs_at(hay, needle, j),
    decreases hay.len() + 1 - i,
{
    if i <= hay.len() && !occurs_at(hay, needle, i) {
        lemma_first_from(hay, needle, i + 1);
    }
}

/// `first_occurrence` is the least index where `needle` occurs.
pub proof fn lemma_first_occurrence(hay: Seq<char>, needle: Seq<char>)
    ensures
        first_occurrence(hay, needle) matches Some(k) ==> occurs_at(hay, needle, k) && forall|
            j: int,
        | 0 <= j < k ==> !occurs_at(hay, needle, j),
        first_occurrence(hay, needle) is None ==> forall|j: int| !occurs_at(hay, needle, j),
{
    lemma_first_from(hay, needle, 0);
}

/// A first occurrence is the value of `first_occurrence`.
proof fn lemma_first_occurrence_is(hay: Seq<char>, needle: Seq<char>, k: int)
    requires
        occurs_at(hay, needle, k),
        forall|j: int| 0 <= j < k ==> !occurs_at(hay, needle, j),
    ensures
        first_occurrence(hay, needle) == Some(k),
{
    lemma_first_occurrence(hay, needle);
    if let Some(k2) = first_occurrence(hay, needle) {
        assert(!(k2 < k));
        assert(!(k < k2));
    }
}

/// The position of the first occurrence of `needle` in `hay`.
fn find_first(hay: &[char], needle: &[char]) -> (res: Option<usize>)
    ensures
        match res {
            Some(i) => first_occurrence(hay@, needle@) == Some(i as int),
            None => first_occurrence(hay@, needle@) is None,
        },
{
    let r = find(hay, needle);
    proof {
        lemma_first_occurrence(hay@, needle@);
        match r {
            Some(i) => lemma_first_occurrence_is(hay@, needle@, i as int),
            None => {
                if let Some(k) = first_occurrence(hay@, needle@) {
                    assert(occurs_at(hay@, needle@, k));
                }
            },
        }
    }
    r
}

/// The block that stands for `table` between the markers.
pub open spec fn table_block(table: Seq<char>) -> Seq<char> {
    START@ + "\n"@ + table + "\n"@ + END@
}

/// `md` with the text from the opening marker at `si` through the closing
/// marker at `ei` replaced by the block for `table`.
pub open spec fn spliced(md: Seq<char>, table: Seq<char>, si: int, ei: int) -> Seq<char> {
    md.take(si) + table_block(table) + md.skip(ei + END@.len())
}

/// What updating the README text with a new table gives.
pub enum TableUpdate {
    /// One of the two markers does not occur: the README is left alone.
    MissingMarkers,
    /// The closing marker comes before the opening one: the README is left alone.
    OutOfOrder,
    /// The README text with the new block in place of the old one.
    Updated(String),
}

/// The README update, as a function of the README text and the table.
pub open spec fn table_update_of(md: Seq<char>, table: Seq<char>) -> Option<Seq<char>> {
    match (first_occurrence(md, START@), first_occurrence(md, END@)) {
        (Some(si), Some(ei)) => if ei < si {
            None
        } else {
            Some(spliced(md, table, si, ei))
        },
        _ => None,
    }
}

/// Replaces the text between the first opening marker and the first closing
/// marker of `md` (markers included) by a fresh block holding `table`.
pub fn splice_table(md: &str, table: &str) -> (res: TableUpdate)
    ensures
        match res {
            TableUpdate::MissingMarkers => first_occurrence(md@, START@) is None
                || first_occurrence(md@, END@) is None,
            TableUpdate::OutOfOrder => first_occurrence(md@, START@) matches Some(si)
                && first_occurrence(md@, END@) matches Some(ei) && ei < si,
            TableUpdate::Updated(s) => table_update_of(md@, table@) == Some(s@),
        },
        res is Updated <==> table_update_of(md@, table@) is Some,
{
    let cs = chars_of(md);
    let sc = chars_of(START);
    let ec = chars_of(END);
    let si = match find_first(cs.as_slice(), sc.as_slice()) {
        Some(i) => i,
        None => return TableUpdate::MissingMarkers,
    };
    let ei = match find_first(cs.as_slice(), ec.as_slice()) {
        Some(i) => i,
        None => return TableUpdate::MissingMarkers,
    };
    if ei < si {
        return TableUpdate::OutOfOrder;
    }
    proof {
        lemma_first_occurrence(md@, END@);
        assert(occurs_at(md@, END@, ei as int));
        assert(ec@.len() == END@.len());
        assert(ei + ec@.len() <= cs@.len());
    }
    let before = slice_take(cs.as_slice(), si);
    let total = cs.len();
    let end_len = ec.len();
    let after = slice_skip(cs.as_slice(), ei + end_len);
    let mut out = string_of(before.as_slice());
    push_str(&mut out, START);
    push_str(&mut out, "\n");
    push_str(&mut out, table);
    push_str(&mut out, "\n");
    push_str(&mut out, END);
    let tail = string_of(after.as_slice());
    push_str(&mut out, tail.as_str());
    proof {
        assert(out@ =~= spliced(md@, table@, si as int, ei as int));
    }
    TableUpdate::Updated(out)
}

/// Facts about the two markers' characters that the law below uses.
proof fn lemma_marker_chars()
    ensures
        START@.len() == 26,
        END@.len() == 24,
        START@[0] == '<',
        END@[0] == '<',
        forall|k: int| 1 <= k < 26 ==> START@[k] != '<',
        forall|k: int| 0 <= k < 24 ==> END@[k] != '\n',
        START@[17] == 'S',
        END@[17] == 'E',
        "\n"@ == seq!['\n'],
{
    reveal_strlit("<!-- BENCH_TABLE:START -->");
    reveal_strlit("<!-- BENCH_TABLE:END -->");
    reveal_strlit("\n");
    assert("\n"@ =~= seq!['\n']);
}

/// Updating README.md is idempotent: running the update a second time with
/// the same table gives back the README that the first update produced,
/// whenever the table does not itself hold the closing marker.
pub proof fn lemma_table_update_idempotent(md: Seq<char>, table: Seq<char>)
    requires
        table_update_of(md, table) is Some,
        forall|j: int| !occurs_at(table, END@, j),
    ensures
        table_update_of(table_update_of(md, table)->0, table) == table_update_of(md, table),
{
    lemma_marker_chars();
    lemma_first_occurrence(md, START@);
    lemma_first_occurrence(md, END@);
    let sl = START@;
    let el = END@;
    let si = first_occurrence(md, sl)->0;
    let ei = first_occurrence(md, el)->0;
    let m2 = spliced(md, table, si, ei);
    assert(si <= ei);
    let t0 = si + sl.len() + 1;
    let pe = t0 + table.len() + 1;
    assert(m2.len() == si + sl.len() + 1 + table.len() + 1 + el.len() + (md.len() - (ei
        + el.len())));
    // m2 and md agree up to the end of the opening marker.
    assert forall|k: int| 0 <= k < si + sl.len() implies m2[k] == md[k] by {
        if k >= si {
            assert(md.subrange(si, si + sl.len())[k - si] == sl[k - si]);
        }
    }
    assert forall|k: int| 0 <= k < sl.len() implies m2[si + k] == sl[k] by {}
    assert(m2[si + sl.len()] == '\n');
    assert forall|k: int| 0 <= k < table.len() implies m2[t0 + k] == table[k] by {}
    assert(m2[pe - 1] == '\n');
    assert forall|k: int| 0 <= k < el.len() implies m2[pe + k] == el[k] by {}
    // The opening marker first occurs where the block starts.
    assert(m2.subrange(si, si + sl.len()) =~= sl);
    assert forall|j: int| 0 <= j < si implies !occurs_at(m2, sl, j) by {
        if occurs_at(m2, sl, j) {
            assert(md.subrange(j, j + sl.len()) =~= m2.subrange(j, j + sl.len()));
            assert(occurs_at(md, sl, j));
        }
    }
    lemma_first_occurrence_is(m2, sl, si);
    // The closing marker first occurs where the block ends.
    assert(m2.subrange(pe, pe + el.len()) =~= el);
    assert forall|j: int| 0 <= j < pe implies !occurs_at(m2, el, j) by {
        if occurs_at(m2, el, j) {
            let w = m2.subrange(j, j + el.len());
            assert(w[0] == '<');
            if j < si {
                assert(md.subrange(j, j + el.len()) =~= w);
                assert(occurs_at(md, el, j));
            } else if j == si {
                assert(w[17] == m2[si + 17]);
                assert(m2[si + 17] == sl[17]);
            } else if j < si + sl.len() {
                assert(m2[j] == sl[j - si]);
            } else if j == si + sl.len() {
                assert(m2[j] == '\n');
            } else if j + el.len() <= t0 + table.len() {
                assert(table.subrange(j - t0, j - t0 + el.len()) =~= w);
                assert(occurs_at(table, el, j - t0));
            } else {
                assert(w[pe - 1 - j] == m2[pe - 1]);
            }
        }
    }
    lemma_first_occurrence_is(m2, el, pe);
    assert(m2.take(si) =~= md.take(si));
    assert(m2.skip(pe + el.len()) =~= md.skip(ei + el.len()));
    assert(spliced(m2, table, si, pe) =~= m2);
}

// ── run metadata ───────────────────────────────────────────────────────────

/// The optional text of an optional string.
pub open spec fn opt_seq(o: Option<String>) -> Option<Seq<char>> {
    match o {
        Some(s) => Some(s@),
        None => None,
    }
}

/// The optional text of an optional string slice.
pub open spec fn opt_str(o: Option<&str>) -> Option<Seq<char>> {
    match o {
        Some(s) => Some(s@),
        None => None,
    }
}

/// The versions and timestamp recorded in a run's JSON document.
pub open spec fn meta_of(j: JsonView) -> (Option<Seq<char>>, Option<Seq<char>>, Option<Seq<char>>) {
    (
        str_of(get2_of(j, "versions"@, "ossido"@)),
        str_of(get2_of(j, "versions"@, "next"@)),
        str_of(get_of(j, "generatedAt"@)),
    )
}

/// The metadata of a run: taken from results.json when it is present and
/// parses, else from memory.json when it is present and parses, else nothing.
pub open spec fn read_meta_of(results_json: Option<Seq<char>>, memory_json: Option<Seq<char>>) -> (
    Option<Seq<char>>,
    Option<Seq<char>>,
    Option<Seq<char>>,
) {
    match results_json {
        Some(r) if parsed_json(r) is Some => meta_of(parsed_json(r)->0),
        _ => match memory_json {
            Some(m) if parsed_json(m) is Some => meta_of(parsed_json(m)->0),
            _ => (None, None, None),
        },
    }
}

fn meta_from_text(raw: &str) -> (res: Option<(Option<String>, Option<String>, Option<String>)>)
    ensures
        match res {
            Some(t) => parsed_json(raw@) matches Some(j) && meta_of(j) == (
                opt_seq(t.0),
                opt_seq(t.1),
                opt_seq(t.2),
            ),
            None => parsed_json(raw@) is None,
        },
{
    match parse_json(raw) {
        Some(j) => {
            let o = str_at(&j, "versions", "ossido");
            let n = str_at(&j, "versions", "next");
            let g = as_str(get(&j, "generatedAt"));
            Some((o, n, g))
        },
        None => None,
    }
}

/// The Ossido version, Next.js version and generation timestamp of a run,
/// read from the texts of its results.json and memory.json (`None` where the
/// file is missing or unreadable).
pub fn read_meta(results_json: Option<&str>, memory_json: Option<&str>) -> (res: (
    Option<String>,
    Option<String>,
    Option<String>,
))
    ensures
        (opt_seq(res.0), opt_seq(res.1), opt_seq(res.2)) == read_meta_of(
            opt_str(results_json),
            opt_str(memory_json),
        ),
{
    if let Some(raw) = results_json {
        if let Some(t) = meta_from_text(raw) {
            return t;
        }
    }
    if let Some(raw) = memory_json {
        if let Some(t) = meta_from_text(raw) {
            return t;
        }
    }
    (None, None, None)
}

// ── rows ───────────────────────────────────────────────────────────────────

/// What the harness found in one directory under results/: its name, the
/// texts of its results.json and memory.json (`None` where missing or
/// unreadable), and whether RESULTS.md and MEMORY.md exist.
pub struct RunDir {
    pub dir: String,
    pub results_json: Option<String>,
    pub memory_json: Option<String>,
    pub has_throughput: bool,
    pub has_memory: bool,
}

/// One line of the results table.
pub struct Row {
    pub ossido: String,
    pub next: String,
    pub dir: String,
    pub has_throughput: bool,
    pub has_memory: bool,
    pub generated_at: String,
}

/// The value of a table line.
pub struct RowView {
    pub ossido: Seq<char>,
    pub next: Seq<char>,
    pub dir: Seq<char>,
    pub has_throughput: bool,
    pub has_memory: bool,
    pub generated_at: Seq<char>,
}

impl View for Row {
    type V = RowView;

    open spec fn view(&self) -> RowView {
        RowView {
            ossido: self.ossido@,
            next: self.next@,
            dir: self.dir@,
            has_throughput: self.has_throughput,
            has_memory: self.has_memory,
            generated_at: self.generated_at@,
        }
    }
}

/// The table line for a run directory: the recorded versions, with the
/// directory name standing in for a missing Ossido version, an em dash for a
/// missing Next.js version, and an empty timestamp when none is recorded.
pub open spec fn row_of(d: RunDir) -> RowView {
    let meta = read_meta_of(opt_seq(d.results_json), opt_seq(d.memory_json));
    RowView {
        ossido: match meta.0 {
            Some(v) => v,
            None => d.dir@,
        },
        next: match meta.1 {
            Some(v) => v,
            None => "\u{2014}"@,
        },
        dir: d.dir@,
        has_throughput: d.has_throughput,
        has_memory: d.has_memory,
        generated_at: match meta.2 {
            Some(v) => v,
            None => Seq::empty(),
        },
    }
}

/// The table line for a run directory.
pub fn row_for(d: &RunDir) -> (res: Row)
    ensures
        res@ == row_of(*d),
{
    let rj = match &d.results_json {
        Some(s) => Some(s.as_str()),
        None => None,
    };
    let mj = match &d.memory_json {
        Some(s) => Some(s.as_str()),
        None => None,
    };
    let meta = read_meta(rj, mj);
    let ossido = match meta.0 {
        Some(v) => v,
        None => d.dir.clone(),
    };
    let next = match meta.1 {
        Some(v) => v,
        None => String::from_str("\u{2014}"),
    };
    let generated_at = match meta.2 {
        Some(v) => v,
        None => String::new(),
    };
    Row {
        ossido,
        next,
        dir: d.dir.clone(),
        has_throughput: d.has_throughput,
        has_memory: d.has_memory,
        generated_at,
    }
}

// ── newest first ───────────────────────────────────────────────────────────

/// Line `a` goes above line `b`: its timestamp is later, or the timestamps
/// are equal and its Ossido version is later.
pub open spec fn newer(a: RowView, b: RowView) -> bool {
    lex_lt(b.generated_at, a.generated_at) || (a.generated_at == b.generated_at && lex_lt(
        b.ossido,
        a.ossido,
    ))
}

/// In the table, the line of run `i` stands above that of run `j`: it is
/// newer, or neither is newer and `i` was found first.
pub open spec fn above(rows: Seq<RowView>, i: int, j: int) -> bool {
    newer(rows[i], rows[j]) || (!newer(rows[j], rows[i]) && i < j)
}

/// `newer` is a strict order, and lines of which neither is newer have the
/// same timestamp and version.
pub proof fn lemma_newer(a: RowView, b: RowView, c: RowView)
    ensures
        !newer(a, a),
        newer(a, b) ==> !newer(b, a),
        newer(a, b) && newer(b, c) ==> newer(a, c),
        !newer(a, b) && !newer(b, a) ==> a.generated_at == b.generated_at && a.ossido
            == b.ossido,
        newer(a, b) && !newer(c, b) ==> newer(a, c),
        !newer(b, a) && newer(b, c) ==> newer(a, c),
{
    lemma_lex_order(a.generated_at, b.generated_at, c.generated_at);
    lemma_lex_order(c.generated_at, b.generated_at, a.generated_at);
    lemma_lex_order(b.generated_at, c.generated_at, a.generated_at);
    lemma_lex_order(a.generated_at, c.generated_at, b.generated_at);
    lemma_lex_order(b.generated_at, a.generated_at, c.generated_at);
    lemma_lex_order(c.generated_at, a.generated_at, b.generated_at);
    lemma_lex_order(a.ossido, b.ossido, c.ossido);
    lemma_lex_order(c.ossido, b.ossido, a.ossido);
    lemma_lex_order(b.ossido, c.ossido, a.ossido);
    lemma_lex_order(a.ossido, c.ossido, b.ossido);
    lemma_lex_order(b.ossido, a.ossido, c.ossido);
    lemma_lex_order(c.ossido, a.ossido, b.ossido);
}

/// Where run `k` goes among the already ordered runs `order`, looking from
/// position `p` on: before the first run that it is newer than.
pub open spec fn slot_from(rows: Seq<RowView>, order: Seq<int>, k: int, p: int) -> int
    decreases order.len() - p,
{
    if p < 0 || p >= order.len() {
        order.len() as int
    } else if newer(rows[k], rows[order[p]]) {
        p
    } else {
        slot_from(rows, order, k, p + 1)
    }
}

/// The order of the first `k` runs in the table (a stable insertion sort).
pub open spec fn table_order(rows: Seq<RowView>, k: nat) -> Seq<int>
    decreases k,
{
    if k == 0 {
        Seq::empty()
    } else {
        let prev = table_order(rows, (k - 1) as nat);
        prev.insert(slot_from(rows, prev, k - 1, 0), k - 1)
    }
}

proof fn lemma_slot_from(rows: Seq<RowView>, order: Seq<int>, k: int, p: int)
    requires
        0 <= p <= order.len(),
    ensures
        p <= slot_from(rows, order, k, p) <= order.len(),
        forall|q: int|
            p <= q < slot_from(rows, order, k, p) ==> !newer(rows[k], rows[#[trigger] order[q]]),
        slot_from(rows, order, k, p) < order.len() ==> newer(
            rows[k],
            rows[order[slot_from(rows, order, k, p)]],
        ),
    decreases order.len() - p,
{
    if p < order.len() && !newer(rows[k], rows[order[p]]) {
        lemma_slot_from(rows, order, k, p + 1);
    }
}

/// The table order lists each of the first `k` runs once, each line above the
/// ones after it.
pub proof fn lemma_table_order(rows: Seq<RowView>, k: nat)
    requires
        k <= rows.len(),
    ensures
        table_order(rows, k).len() == k,
        forall|p: int| 0 <= p < k ==> 0 <= #[trigger] table_order(rows, k)[p] < k,
        forall|x: int| 0 <= x < k ==> table_order(rows, k).contains(x),
        forall|p: int, q: int|
            0 <= p < q < k ==> above(
                rows,
                #[trigger] table_order(rows, k)[p],
                #[trigger] table_order(rows, k)[q],
            ),
    decreases k,
{
    if k > 0 {
        let j = (k - 1) as int;
        lemma_table_order(rows, (k - 1) as nat);
        let prev = table_order(rows, (k - 1) as nat);
        lemma_slot_from(rows, prev, j, 0);
        let s = slot_from(rows, prev, j, 0);
        let cur = table_order(rows, k);
        assert(cur == prev.insert(s, j));
        assert forall|x: int| 0 <= x < k implies cur.contains(x) by {
            if x == j {
                assert(cur[s] == j);
            } else {
                assert(prev.contains(x));
                let p = choose|p: int| 0 <= p < prev.len() && prev[p] == x;
                if p < s {
                    assert(cur[p] == x);
                } else {
                    assert(cur[p + 1] == x);
                }
            }
        }
        assert forall|p: int, q: int| 0 <= p < q < k implies above(rows, cur[p], cur[q]) by {
            if q < s {
                assert(cur[p] == prev[p] && cur[q] == prev[q]);
            } else if p > s {
                assert(cur[p] == prev[p - 1] && cur[q] == prev[q - 1]);
            } else if p == s {
                // j is newer than the run that was at s, and that one is above prev[q - 1].
                assert(cur[p] == j);
                assert(cur[q] == prev[q - 1]);
                assert(newer(rows[j], rows[prev[s]]));
                if q - 1 > s {
                    assert(above(rows, prev[s], prev[q - 1]));
                }
                lemma_newer(rows[j], rows[prev[s]], rows[prev[q - 1]]);
                lemma_newer(rows[prev[s]], rows[prev[q - 1]], rows[j]);
            } else if q == s {
                assert(cur[q] == j);
                assert(cur[p] == prev[p]);
                assert(!newer(rows[j], rows[prev[p]]));
                assert(prev[p] < j);
            } else {
                assert(cur[p] == prev[p]);
                assert(cur[q] == prev[q - 1]);
                if p < q - 1 {
                    assert(above(rows, prev[p], prev[q - 1]));
                }
            }
        }
    }
}

/// The results table lists every run once, newest first: no line is newer
/// than a line above it, and lines of which neither is newer keep the order
/// in which their runs were found.
pub proof fn lemma_table_newest_first(dirs: Seq<RunDir>)
    ensures
        table_rows_of(dirs).len() == dirs.len(),
        forall|p: int, q: int|
            0 <= p < q < dirs.len() ==> !newer(
                #[trigger] table_rows_of(dirs)[q],
                #[trigger] table_rows_of(dirs)[p],
            ),
        forall|p: int|
            0 <= p < dirs.len() ==> #[trigger] table_rows_of(dirs)[p] == row_of(
                dirs[dir_order(dirs)[p]],
            ),
        forall|i: int| 0 <= i < dirs.len() ==> #[trigger] dir_order(dirs).contains(i),
{
    let rv = dir_rows(dirs);
    let n = dirs.len();
    lemma_table_order(rv, n);
    let ord = table_order(rv, n);
    let t = table_rows_of(dirs);
    assert forall|p: int, q: int| 0 <= p < q < n implies !newer(#[trigger] t[q], #[trigger] t[p]) by {
        assert(above(rv, ord[p], ord[q]));
        lemma_newer(rv[ord[p]], rv[ord[q]], rv[ord[p]]);
    }
}

/// The results table orders its lines by run timestamp, latest first,
/// whatever their Ossido versions: of two lines, the lower one never has a
/// later timestamp than the one above it, and the Ossido version (the later
/// one first) decides only between lines of the same timestamp.
pub proof fn lemma_table_latest_run_first(dirs: Seq<RunDir>)
    ensures
        forall|p: int, q: int|
            0 <= p < q < dirs.len() ==> !lex_lt(
                (#[trigger] table_rows_of(dirs)[p]).generated_at,
                (#[trigger] table_rows_of(dirs)[q]).generated_at,
            ),
        forall|p: int, q: int|
            0 <= p < q < dirs.len() && (#[trigger] table_rows_of(dirs)[p]).generated_at == (
            #[trigger] table_rows_of(dirs)[q]).generated_at ==> !lex_lt(
                table_rows_of(dirs)[p].ossido,
                table_rows_of(dirs)[q].ossido,
            ),
{
    lemma_table_newest_first(dirs);
}

/// The lines of the table in their order.
pub open spec fn ordered_rows(rows: Seq<RowView>) -> Seq<RowView> {
    table_order(rows, rows.len()).map_values(|i: int| rows[i])
}

/// Run `a` is newer than run `b`.
fn is_newer(a: &Row, b: &Row) -> (res: bool)
    ensures
        res == newer(a@, b@),
{
    let ag = chars_of(a.generated_at.as_str());
    let bg = chars_of(b.generated_at.as_str());
    if lex_less(bg.as_slice(), ag.as_slice()) {
        return true;
    }
    if lex_less(ag.as_slice(), bg.as_slice()) {
        return false;
    }
    proof {
        lemma_lex_order(ag@, bg@, ag@);
    }
    let ao = chars_of(a.ossido.as_str());
    let bo = chars_of(b.ossido.as_str());
    lex_less(bo.as_slice(), ao.as_slice())
}

/// The values of a sequence of lines.
pub open spec fn row_views(rows: Seq<Row>) -> Seq<RowView> {
    rows.map_values(|r: Row| r@)
}

/// The positions of the runs in table order: newest first, and runs of which
/// neither is newer in the order in which they were found.
pub fn table_positions(rows: &Vec<Row>) -> (res: Vec<usize>)
    ensures
        res@.len() == rows@.len(),
        forall|p: int| 0 <= p < res@.len() ==> res@[p] as int == table_order(row_views(rows@), rows@.len())[p],
{
    let n = rows.len();
    let ghost rv = row_views(rows@);
    let mut order: Vec<usize> = Vec::new();
    let mut k: usize = 0;
    while k < n
        invariant
            n == rows@.len(),
            rv == row_views(rows@),
            k <= n,
            order@.len() == table_order(rv, k as nat).len(),
            forall|p: int| 0 <= p < order@.len() ==> order@[p] as int == table_order(rv, k as nat)[p],
            forall|p: int| 0 <= p < order@.len() ==> order@[p] < k,
        decreases n - k,
    {
        let ghost prev = table_order(rv, k as nat);
        proof {
            lemma_table_order(rv, k as nat);
        }
        let mut p: usize = 0;
        while p < order.len() && !is_newer(&rows[k], &rows[order[p]])
            invariant
                n == rows@.len(),
                rv == row_views(rows@),
                k < n,
                prev == table_order(rv, k as nat),
                order@.len() == prev.len(),
                forall|q: int| 0 <= q < order@.len() ==> order@[q] as int == prev[q],
                forall|q: int| 0 <= q < order@.len() ==> order@[q] < k,
                p <= order@.len(),
                slot_from(rv, prev, k as int, 0) == slot_from(rv, prev, k as int, p as int),
            decreases order@.len() - p,
        {
            p = p + 1;
        }
        order.insert(p, k);
        proof {
            assert(table_order(rv, (k + 1) as nat) == prev.insert(p as int, k as int));
        }
        k = k + 1;
    }
    proof {
        lemma_table_order(rv, n as nat);
    }
    order
}

// ── the table ──────────────────────────────────────────────────────────────

/// The heading of the results table.
pub const TABLE_HEADER: &'static str = "| Ossido version | Next version | Throughput result | Memory result |\n| --- | --- | --- | --- |";

/// What stands in place of the table when there are no runs.
pub const NO_RESULTS: &'static str = "_No results yet \u{2014} run `bun run bench` and `bun run bench:memory`._";

/// The throughput cell of a line: links to the run's RESULTS.md and
/// results.json, or an em dash.
pub open spec fn throughput_cell(r: RowView) -> Seq<char> {
    if r.has_throughput {
        "[RESULTS.md](./results/"@ + r.dir + "/RESULTS.md) \u{b7} [json](./results/"@ + r.dir
            + "/results.json)"@
    } else {
        "\u{2014}"@
    }
}

/// The memory cell of a line: links to the run's MEMORY.md and memory.json,
/// or an em dash.
pub open spec fn memory_cell(r: RowView) -> Seq<char> {
    if r.has_memory {
        "[MEMORY.md](./results/"@ + r.dir + "/MEMORY.md) \u{b7} [json](./results/"@ + r.dir
            + "/memory.json)"@
    } else {
        "\u{2014}"@
    }
}

/// One line of the table.
pub open spec fn row_line(r: RowView) -> Seq<char> {
    "| `"@ + r.ossido + "` | `"@ + r.next + "` | "@ + throughput_cell(r) + " | "@ + memory_cell(r)
        + " |"@
}

/// The table for lines in the given order.
pub open spec fn table_text(rows: Seq<RowView>) -> Seq<char> {
    if rows.len() == 0 {
        NO_RESULTS@
    } else {
        TABLE_HEADER@ + "\n"@ + join_seq(rows.map_values(|r: RowView| row_line(r)), "\n"@)
    }
}

/// The lines of the table for the runs found.
pub open spec fn table_rows_of(dirs: Seq<RunDir>) -> Seq<RowView> {
    ordered_rows(dir_rows(dirs))
}

/// The table lines of the runs found, in the order found.
pub open spec fn dir_rows(dirs: Seq<RunDir>) -> Seq<RowView> {
    dirs.map_values(|d: RunDir| row_of(d))
}

/// The positions of the runs found, in table order.
pub open spec fn dir_order(dirs: Seq<RunDir>) -> Seq<int> {
    table_order(dir_rows(dirs), dirs.len())
}

fn render_line(r: &Row) -> (res: String)
    ensures
        res@ == row_line(r@),
{
    let mut s = String::from_str("| `");
    push_str(&mut s, r.ossido.as_str());
    push_str(&mut s, "` | `");
    push_str(&mut s, r.next.as_str());
    push_str(&mut s, "` | ");
    if r.has_throughput {
        push_str(&mut s, "[RESULTS.md](./results/");
        push_str(&mut s, r.dir.as_str());
        push_str(&mut s, "/RESULTS.md) \u{b7} [json](./results/");
        push_str(&mut s, r.dir.as_str());
        push_str(&mut s, "/results.json)");
    } else {
        push_str(&mut s, "\u{2014}");
    }
    push_str(&mut s, " | ");
    if r.has_memory {
        push_str(&mut s, "[MEMORY.md](./results/");
        push_str(&mut s, r.dir.as_str());
        push_str(&mut s, "/MEMORY.md) \u{b7} [json](./results/");
        push_str(&mut s, r.dir.as_str());
        push_str(&mut s, "/memory.json)");
    } else {
        push_str(&mut s, "\u{2014}");
    }
    push_str(&mut s, " |");
    proof {
        assert(s@ =~= row_line(r@));
    }
    s
}

/// The Markdown results table for the runs found under results/: one line
/// per run, newest first (by timestamp, then by Ossido version).
pub fn build_table(dirs: &Vec<RunDir>) -> (res: String)
    ensures
        res@ == table_text(table_rows_of(dirs@)),
{
    let n = dirs.len();
    let mut rows: Vec<Row> = Vec::new();
    let mut i: usize = 0;
    while i < n
        invariant
            n == dirs@.len(),
            i <= n,
            rows@.len() == i,
            forall|k: int| 0 <= k < i ==> #[trigger] rows@[k]@ == row_of(dirs@[k]),
        decreases n - i,
    {
        rows.push(row_for(&dirs[i]));
        i = i + 1;
    }
    let ghost rv = dir_rows(dirs@);
    assert(row_views(rows@) =~= rv);
    if n == 0 {
        return String::from_str(NO_RESULTS);
    }
    let order = table_positions(&rows);
    proof {
        lemma_table_order(rv, n as nat);
    }
    let ghost ord = ordered_rows(rv);
    let mut lines: Vec<String> = Vec::new();
    let mut p: usize = 0;
    while p < n
        invariant
            n == rows@.len(),
            n == order@.len(),
            rv == row_views(rows@),
            ord == ordered_rows(rv),
            ord.len() == n,
            forall|q: int| 0 <= q < n ==> order@[q] as int == table_order(rv, n as nat)[q],
            forall|q: int| 0 <= q < n ==> 0 <= #[trigger] table_order(rv, n as nat)[q] < n,
            p <= n,
            lines@.len() == p,
            forall|q: int| 0 <= q < p ==> #[trigger] lines@[q]@ == row_line(ord[q]),
        decreases n - p,
    {
        let idx = order[p];
        lines.push(render_line(&rows[idx]));
        p = p + 1;
    }
    let body = join(&lines, "\n");
    let mut out = String::from_str(TABLE_HEADER);
    push_str(&mut out, "\n");
    push_str(&mut out, body.as_str());
    proof {
        assert(views(lines@) =~= ord.map_values(|r: RowView| row_line(r)));
        assert(out@ =~= table_text(ord));
    }
    out
}

} // verus!
