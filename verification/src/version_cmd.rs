//! Pinning the Ossido example to a framework version: the edit of its
//! Cargo.toml, the edit of its package.json, and the message for a failed
//! quiet command.
use vstd::prelude::*;

use crate::json::{
    json_view, members_view, lemma_members_view, parsed_json, pretty_json, parse_json,
    render_pretty, Json, JsonView,
};
use crate::text::{
    is_ws, lemma_join_suffix, lemma_lines_round_trip, lemma_lines_shape, lemma_trim_start_after_ws,
    lemma_trim_start_shape, no_cr_end, no_newline, chars_of, has_prefix, join, join_seq, leading_ws, lines_of, push_str, slice_skip, slice_take,
    split_lines, starts_with, string_of, trim, trim_seq, trim_start_seq, views, vviews,
};

verus! {

// ── Cargo.toml ─────────────────────────────────────────────────────────────

/// A bare-string dependency line `ossido = "…"`, with any whitespace before
/// the name, around the `=` and before the opening quote.
pub open spec fn is_ossido_dep_line(line: Seq<char>) -> bool {
    let t = trim_start_seq(line);
    let rest = trim_start_seq(t.skip("ossido"@.len() as int));
    let value = trim_start_seq(rest.skip(1));
    &&& has_prefix(t, "ossido"@)
    &&& rest.len() > 0
    &&& rest[0] == '='
    &&& value.len() > 0
    &&& value[0] == '"'
}

/// The line that pins the dependency: the line's own indentation, then
/// `ossido = "<version>"`.
pub open spec fn pinned_line(line: Seq<char>, version: Seq<char>) -> Seq<char> {
    line.take(line.len() - trim_start_seq(line).len()) + "ossido = \""@ + version + "\""@
}

/// The first line at or after `k` that is an `ossido = "…"` dependency.
pub open spec fn dep_line_from(lines: Seq<Seq<char>>, k: int) -> Option<int>
    decreases lines.len() - k,
{
    if k < 0 || k >= lines.len() {
        None
    } else if is_ossido_dep_line(lines[k]) {
        Some(k)
    } else {
        dep_line_from(lines, k + 1)
    }
}

/// The text ends with a line feed.
pub open spec fn ends_with_newline(s: Seq<char>) -> bool {
    s.len() > 0 && s.last() == '\n'
}

/// Cargo.toml with its first `ossido = "…"` line replaced by one that pins
/// `version` (keeping the indentation); all lines are joined by line feeds,
/// with a final one when the given text ended with one. `None` when no
/// such line exists.
pub open spec fn cargo_pinned(src: Seq<char>, version: Seq<char>) -> Option<Seq<char>> {
    let ls = lines_of(src);
    match dep_line_from(ls, 0) {
        Some(k) => Some(
            join_seq(ls.update(k, pinned_line(ls[k], version)), "\n"@) + if ends_with_newline(
                src,
            ) {
                "\n"@
            } else {
                Seq::empty()
            },
        ),
        None => None,
    }
}

fn is_dep_line(line: &[char]) -> (res: bool)
    ensures
        res == is_ossido_dep_line(line@),
{
    let a = leading_ws(line);
    let t = slice_skip(line, a);
    let name = chars_of("ossido");
    if !starts_with(t.as_slice(), name.as_slice()) {
        return false;
    }
    let rest0 = slice_skip(t.as_slice(), name.len());
    let b = leading_ws(rest0.as_slice());
    if b == rest0.len() || rest0[b] != '=' {
        proof {
            assert(rest0@.skip(b as int).len() == 0 || rest0@.skip(b as int)[0] == rest0@[b as int]);
        }
        return false;
    }
    let rest = slice_skip(rest0.as_slice(), b);
    proof {
        assert(rest@[0] == '=');
    }
    let after = slice_skip(rest.as_slice(), 1);
    let c = leading_ws(after.as_slice());
    let r = c < after.len() && after[c] == '"';
    proof {
        if c < after.len() {
            assert(after@.skip(c as int)[0] == after@[c as int]);
        }
    }
    r
}

/// Cargo.toml text with the Ossido crate dependency pinned to `version`;
/// `None` when the text has no `ossido = "…"` dependency line.
pub fn pin_cargo_version(cargo_toml: &str, version: &str) -> (res: Option<String>)
    ensures
        match res {
            Some(s) => cargo_pinned(cargo_toml@, version@) == Some(s@),
            None => cargo_pinned(cargo_toml@, version@) is None,
        },
{
    let cs = chars_of(cargo_toml);
    let lines = split_lines(cs.as_slice());
    let ghost ls = lines_of(cargo_toml@);
    let n = lines.len();
    let mut out: Vec<String> = Vec::new();
    let mut replaced = false;
    let mut k: usize = 0;
    let ghost mut at: int = 0;
    while k < n
        invariant
            n == lines@.len(),
            vviews(lines@) == ls,
            ls == lines_of(cargo_toml@),
            k <= n,
            out@.len() == k,
            !replaced ==> dep_line_from(ls, 0) == dep_line_from(ls, k as int),
            replaced ==> dep_line_from(ls, 0) == Some(at) && 0 <= at < k,
            forall|q: int| 0 <= q < k ==> #[trigger] out@[q]@ == if replaced && q == at {
                pinned_line(ls[q], version@)
            } else {
                ls[q]
            },
        decreases n - k,
    {
        let line = &lines[k];
        proof {
            assert(line@ == ls[k as int]);
        }
        if !replaced && is_dep_line(line.as_slice()) {
            let a = leading_ws(line.as_slice());
            let indent = slice_take(line.as_slice(), a);
            let mut s = string_of(indent.as_slice());
            push_str(&mut s, "ossido = \"");
            push_str(&mut s, version);
            push_str(&mut s, "\"");
            proof {
                assert(s@ =~= pinned_line(ls[k as int], version@));
                at = k as int;
            }
            out.push(s);
            replaced = true;
        } else {
            out.push(string_of(line.as_slice()));
        }
        k = k + 1;
    }
    if !replaced {
        return None;
    }
    let mut text = join(&out, "\n");
    let ends = cs.len() > 0 && cs[cs.len() - 1] == '\n';
    if ends {
        push_str(&mut text, "\n");
    }
    proof {
        assert(ls.len() == n);
        assert(0 <= at < n);
        let target = ls.update(at, pinned_line(ls[at], version@));
        assert forall|q: int| 0 <= q < n implies views(out@)[q] == target[q] by {
            assert(out@[q]@ == views(out@)[q]);
        }
        assert(views(out@) =~= target);
    }
    Some(text)
}

proof fn lemma_dep_line_from(lines: Seq<Seq<char>>, k: int)
    requires
        0 <= k,
    ensures
        dep_line_from(lines, k) matches Some(j) ==> k <= j < lines.len() && is_ossido_dep_line(
            lines[j],
        ) && forall|q: int| k <= q < j ==> !is_ossido_dep_line(#[trigger] lines[q]),
    decreases lines.len() - k,
{
    if k < lines.len() && !is_ossido_dep_line(lines[k]) {
        lemma_dep_line_from(lines, k + 1);
    }
}

proof fn lemma_dep_line_is(lines: Seq<Seq<char>>, k: int, j: int)
    requires
        0 <= k <= j < lines.len(),
        is_ossido_dep_line(lines[j]),
        forall|q: int| k <= q < j ==> !is_ossido_dep_line(#[trigger] lines[q]),
    ensures
        dep_line_from(lines, k) == Some(j),
    decreases j - k,
{
    if k < j {
        assert(!is_ossido_dep_line(lines[k]));
        lemma_dep_line_is(lines, k + 1, j);
    }
}

/// A pinned line is itself a dependency line, pinning it again gives it
/// back, and it holds no line feed when the line and the version hold none.
proof fn lemma_pinned_line(line: Seq<char>, version: Seq<char>)
    requires
        no_newline(line),
        no_newline(version),
    ensures
        is_ossido_dep_line(pinned_line(line, version)),
        pinned_line(pinned_line(line, version), version) == pinned_line(line, version),
        no_newline(pinned_line(line, version)),
        no_cr_end(pinned_line(line, version)),
        pinned_line(line, version).len() > 0,
{
    reveal_strlit("ossido = \"");
    reveal_strlit("\"");
    reveal_strlit("ossido");
    lemma_trim_start_shape(line);
    let indent = line.take(line.len() - trim_start_seq(line).len());
    let body = "ossido = \""@ + version + "\""@;
    let p = pinned_line(line, version);
    assert(p == indent + body);
    assert forall|i: int| 0 <= i < indent.len() implies is_ws(#[trigger] indent[i]) by {
        assert(indent[i] == line[i]);
    }
    lemma_trim_start_after_ws(indent, body);
    assert(!is_ws(body[0]));
    assert(trim_start_seq(body) == body);
    assert(trim_start_seq(p) == body);
    // `body` is a dependency line.
    assert(body.take(6) =~= "ossido"@);
    let r = body.skip(6);
    assert(r[0] == ' ');
    assert(r.drop_first()[0] == '=');
    assert(trim_start_seq(r) == trim_start_seq(r.drop_first()));
    assert(trim_start_seq(r.drop_first()) == r.drop_first());
    let rest = trim_start_seq(r);
    let v = rest.skip(1);
    assert(v[0] == ' ');
    assert(v.drop_first()[0] == '"');
    assert(trim_start_seq(v) == trim_start_seq(v.drop_first()));
    assert(trim_start_seq(v.drop_first()) == v.drop_first());
    // Pinning again keeps the indentation.
    assert(p.take(p.len() - trim_start_seq(p).len()) =~= indent);
    assert(no_newline(p)) by {
        assert forall|i: int| 0 <= i < p.len() implies p[i] != '\n' by {
            if i < indent.len() {
                assert(p[i] == line[i]);
            } else if i < indent.len() + 10 {
                assert(p[i] == body[i - indent.len()]);
            } else if i < indent.len() + 10 + version.len() {
                assert(p[i] == version[i - indent.len() - 10]);
            }
        }
    }
}

/// Pinning the Ossido crate's version is idempotent: pinning the pinned
/// Cargo.toml again to the same version gives the same text, whenever the
/// version holds no line feed and no line of Cargo.toml that a line feed
/// ends also ends with a carriage return after the usual one is dropped.
pub proof fn lemma_cargo_pin_idempotent(src: Seq<char>, version: Seq<char>)
    requires
        cargo_pinned(src, version) is Some,
        no_newline(version),
        forall|i: int|
            0 <= i < lines_of(src).len() && (i < lines_of(src).len() - 1 || ends_with_newline(src))
                ==> no_cr_end(#[trigger] lines_of(src)[i]),
    ensures
        cargo_pinned(cargo_pinned(src, version)->0, version) == cargo_pinned(src, version),
{
    reveal_strlit("\n");
    let ls = lines_of(src);
    lemma_dep_line_from(ls, 0);
    lemma_lines_shape(src);
    let k = dep_line_from(ls, 0)->0;
    let pl = pinned_line(ls[k], version);
    lemma_pinned_line(ls[k], version);
    let ls2 = ls.update(k, pl);
    let tail = ends_with_newline(src);
    let end = if tail {
        "\n"@
    } else {
        Seq::<char>::empty()
    };
    let t = join_seq(ls2, "\n"@) + end;
    assert(cargo_pinned(src, version) == Some(t));
    assert forall|i: int| 0 <= i < ls2.len() implies no_newline(#[trigger] ls2[i]) by {
        if i != k {
            assert(ls2[i] == ls[i]);
        }
    }
    assert forall|i: int| 0 <= i < ls2.len() - 1 implies no_cr_end(#[trigger] ls2[i]) by {
        if i != k {
            assert(ls2[i] == ls[i]);
        }
    }
    if tail {
        if k != ls.len() - 1 {
            assert(ls2.last() == ls.last());
        }
    } else {
        assert(src.len() > 0);
        if k != ls.len() - 1 {
            assert(ls2.last() == ls.last());
        }
    }
    lemma_lines_round_trip(ls2, tail);
    assert(lines_of(t) == ls2);
    assert forall|q: int| 0 <= q < k implies !is_ossido_dep_line(#[trigger] ls2[q]) by {
        assert(ls2[q] == ls[q]);
    }
    lemma_dep_line_is(ls2, 0, k);
    // The pinned text ends with a line feed exactly when Cargo.toml did.
    lemma_join_suffix(ls2, "\n"@);
    let j = join_seq(ls2, "\n"@);
    if !tail {
        assert(t == j);
        let last = ls2.last();
        assert(last.len() > 0);
        assert(j.skip(j.len() - last.len()) == last);
        assert(j.last() == last.last());
        assert(no_newline(last));
        assert(!ends_with_newline(t));
    } else {
        assert(ends_with_newline(t));
    }
    assert(ls2.update(k, pinned_line(ls2[k], version)) =~= ls2);
}

// ── package.json ───────────────────────────────────────────────────────────

/// A package of the Ossido framework (`@ossido-labs/…`).
pub open spec fn is_ossido_package(name: Seq<char>) -> bool {
    has_prefix(name, "@ossido-labs/"@)
}

/// A dependency table of package.json.
pub open spec fn is_dep_field(key: Seq<char>) -> bool {
    key == "dependencies"@ || key == "devDependencies"@
}

/// A dependency table with every Ossido package set to `version`.
pub open spec fn pin_members(ms: Seq<(Seq<char>, JsonView)>, version: Seq<char>) -> Seq<
    (Seq<char>, JsonView),
> {
    ms.map_values(
        |m: (Seq<char>, JsonView)|
            if is_ossido_package(m.0) {
                (m.0, JsonView::Str(version))
            } else {
                m
            },
    )
}

/// How many Ossido packages a dependency table names.
pub open spec fn ossido_count(ms: Seq<(Seq<char>, JsonView)>) -> nat
    decreases ms.len(),
{
    if ms.len() == 0 {
        0
    } else {
        ossido_count(ms.drop_last()) + if is_ossido_package(ms.last().0) {
            1nat
        } else {
            0nat
        }
    }
}

/// A member of package.json with its Ossido packages pinned, when it is a
/// dependency table.
pub open spec fn pin_member(m: (Seq<char>, JsonView), version: Seq<char>) -> (
    Seq<char>,
    JsonView,
) {
    match m.1 {
        JsonView::Object(inner) => if is_dep_field(m.0) {
            (m.0, JsonView::Object(pin_members(inner, version)))
        } else {
            m
        },
        _ => m,
    }
}

/// How many Ossido packages a member of package.json pins.
pub open spec fn member_count(m: (Seq<char>, JsonView)) -> nat {
    match m.1 {
        JsonView::Object(inner) => if is_dep_field(m.0) {
            ossido_count(inner)
        } else {
            0
        },
        _ => 0,
    }
}

/// How many Ossido packages the members pin in all.
pub open spec fn members_count(ms: Seq<(Seq<char>, JsonView)>) -> nat
    decreases ms.len(),
{
    if ms.len() == 0 {
        0
    } else {
        members_count(ms.drop_last()) + member_count(ms.last())
    }
}

/// package.json with every `@ossido-labs/*` entry of its "dependencies" and
/// "devDependencies" tables set to `version`, each in its place.
pub open spec fn pin_package(j: JsonView, version: Seq<char>) -> JsonView {
    match j {
        JsonView::Object(ms) => JsonView::Object(
            ms.map_values(|m: (Seq<char>, JsonView)| pin_member(m, version)),
        ),
        _ => j,
    }
}

/// How many entries [`pin_package`] sets.
pub open spec fn pinned_count(j: JsonView) -> nat {
    match j {
        JsonView::Object(ms) => members_count(ms),
        _ => 0,
    }
}

/// Pinning package.json keeps its members in their order under their keys:
/// members other than the dependency tables are unchanged, and within a
/// dependency table only the `@ossido-labs/*` entries change, to `version`.
pub proof fn lemma_pin_keeps_manifest(j: JsonView, version: Seq<char>)
    ensures
        j matches JsonView::Object(ms) ==> pin_package(j, version) matches JsonView::Object(ps)
            && ps.len() == ms.len() && forall|i: int|
            0 <= i < ms.len() ==> {
                &&& #[trigger] ps[i].0 == ms[i].0
                &&& !(ms[i].0 == "dependencies"@ || ms[i].0 == "devDependencies"@) ==> ps[i] == ms[i]
                &&& (ms[i].0 == "dependencies"@ || ms[i].0 == "devDependencies"@) ==> match ms[i].1 {
                    JsonView::Object(ds) => ps[i].1 matches JsonView::Object(qs) && qs.len()
                        == ds.len() && forall|k: int|
                        0 <= k < ds.len() ==> #[trigger] qs[k].0 == ds[k].0 && (has_prefix(
                            ds[k].0,
                            "@ossido-labs/"@,
                        ) ==> qs[k].1 == JsonView::Str(version)) && (!has_prefix(ds[k].0, "@ossido-labs/"@)
                            ==> qs[k] == ds[k]),
                    _ => ps[i] == ms[i],
                }
            },
        !(j is Object) ==> pin_package(j, version) == j,
{
}

/// A dependency table names as many Ossido packages as it has keys starting
/// with `@ossido-labs/`.
proof fn lemma_ossido_count_keys(ds: Seq<(Seq<char>, JsonView)>)
    ensures
        ossido_count(ds) == ds.filter(
            |m: (Seq<char>, JsonView)| has_prefix(m.0, "@ossido-labs/"@),
        ).len(),
    decreases ds.len(),
{
    reveal(Seq::filter);
    if ds.len() > 0 {
        lemma_ossido_count_keys(ds.drop_last());
    }
}

/// The number of packages that pinning reports is counted key by key: an
/// object with no members pins none, and a further member adds the number
/// of its keys that start with `@ossido-labs/` when it is a "dependencies"
/// or "devDependencies" object, and nothing otherwise.
pub proof fn lemma_pinned_count_per_key(
    ms: Seq<(Seq<char>, JsonView)>,
    key: Seq<char>,
    value: JsonView,
)
    ensures
        pinned_count(JsonView::Object(Seq::empty())) == 0,
        pinned_count(JsonView::Object(ms.push((key, value)))) == pinned_count(JsonView::Object(ms))
            + match value {
            JsonView::Object(ds) => if key == "dependencies"@ || key == "devDependencies"@ {
                ds.filter(|m: (Seq<char>, JsonView)| has_prefix(m.0, "@ossido-labs/"@)).len()
            } else {
                0
            },
            _ => 0,
        },
{
    assert(ms.push((key, value)).drop_last() =~= ms);
    if let JsonView::Object(ds) = value {
        lemma_ossido_count_keys(ds);
    }
}

/// Why package.json could not be pinned.
#[derive(Clone, Copy, PartialEq, Eq, Debug, Structural)]
pub enum NpmPinError {
    /// The text is not JSON.
    Parse,
    /// No `@ossido-labs/*` dependency was found.
    NoPackages,
    /// More packages than a `usize` counts.
    CountOverflow,
}

/// The outcome of pinning the text of package.json: the new text (pretty
/// JSON and a final line feed) and the number of packages set.
pub open spec fn npm_pinned(raw: Seq<char>, version: Seq<char>) -> Result<
    (Seq<char>, nat),
    NpmPinError,
> {
    match parsed_json(raw) {
        None => Err(NpmPinError::Parse),
        Some(j) => if pinned_count(j) > usize::MAX {
            Err(NpmPinError::CountOverflow)
        } else if pinned_count(j) == 0 {
            Err(NpmPinError::NoPackages)
        } else {
            Ok((pretty_json(pin_package(j, version)) + "\n"@, pinned_count(j)))
        },
    }
}

fn pin_dep_table(ms: Vec<(String, Json)>, version: &str) -> (res: (Vec<(String, Json)>, usize))
    ensures
        members_view(res.0@) == pin_members(members_view(ms@), version@),
        res.1 as nat == ossido_count(members_view(ms@)),
{
    let ghost orig = ms@;
    let ghost ov = members_view(orig);
    proof {
        lemma_members_view(orig);
    }
    let n = ms.len();
    let mut rem = ms;
    let mut out: Vec<(String, Json)> = Vec::new();
    let mut count: usize = 0;
    let prefix = chars_of("@ossido-labs/");
    let mut i: usize = 0;
    while i < n
        invariant
            n == orig.len(),
            ov == members_view(orig),
            ov.len() == n,
            forall|q: int| 0 <= q < n ==> #[trigger] ov[q] == (orig[q].0@, json_view(orig[q].1)),
            prefix@ == "@ossido-labs/"@,
            i <= n,
            rem@ == orig.skip(i as int),
            out@.len() == i,
            members_view(out@) == pin_members(ov.take(i as int), version@),
            count as nat == ossido_count(ov.take(i as int)),
            count <= i,
        decreases n - i,
    {
        let (key, value) = rem.remove(0);
        proof {
            assert(key == orig[i as int].0 && value == orig[i as int].1);
        }
        let kc = chars_of(key.as_str());
        let hit = starts_with(kc.as_slice(), prefix.as_slice());
        let ghost before = out@;
        let ghost kv = key@;
        let ghost vv = json_view(value);
        if hit {
            let pinned = Json::Str(String::from_str(version));
            assert(json_view(pinned) == JsonView::Str(version@));
            out.push((key, pinned));
            count = count + 1;
            proof {
                assert(out@.drop_last() =~= before);
                assert(members_view(out@) == members_view(before).push((kv, JsonView::Str(version@))));
            }
        } else {
            out.push((key, value));
            proof {
                assert(out@.drop_last() =~= before);
                assert(members_view(out@) == members_view(before).push((kv, vv)));
            }
        }
        proof {
            assert(ov.take(i + 1).drop_last() =~= ov.take(i as int));
            assert(out@.drop_last() =~= before);
            assert(pin_members(ov.take(i + 1), version@) =~= pin_members(ov.take(i as int), version@).push(
                if is_ossido_package(ov[i as int].0) {
                    (ov[i as int].0, JsonView::Str(version@))
                } else {
                    ov[i as int]
                },
            ));
            assert(rem@ =~= orig.skip(i + 1));
        }
        i = i + 1;
    }
    proof {
        assert(ov.take(n as int) =~= ov);
    }
    (out, count)
}

proof fn lemma_members_count_grows(ms: Seq<(Seq<char>, JsonView)>, k: int)
    requires
        0 <= k <= ms.len(),
    ensures
        members_count(ms.take(k)) <= members_count(ms),
    decreases ms.len(),
{
    if k < ms.len() {
        lemma_members_count_grows(ms.drop_last(), k);
        assert(ms.drop_last().take(k) =~= ms.take(k));
    } else {
        assert(ms.take(k) =~= ms);
    }
}

/// package.json with its Ossido packages set to `version`, and how many were
/// set; `None` when the count exceeds `usize::MAX` (where a `usize` counter
/// overflows).
pub fn pin_package_json(pkg: Json, version: &str) -> (res: Option<(Json, usize)>)
    ensures
        match res {
            Some(r) => r.0@ == pin_package(pkg@, version@) && r.1 as nat == pinned_count(pkg@),
            None => pinned_count(pkg@) > usize::MAX,
        },
{
    match pkg {
        Json::Object(ms) => {
            let ghost orig = ms@;
            let ghost ov = members_view(orig);
            proof {
                lemma_members_view(orig);
            }
            let n = ms.len();
            let mut rem = ms;
            let mut out: Vec<(String, Json)> = Vec::new();
            let mut count: usize = 0;
            let mut i: usize = 0;
            while i < n
                invariant
                    n == orig.len(),
                    ov == members_view(orig),
                    ov.len() == n,
                    forall|q: int| 0 <= q < n ==> #[trigger] ov[q] == (orig[q].0@, json_view(orig[q].1)),
                    pkg@ == JsonView::Object(ov),
                    i <= n,
                    rem@ == orig.skip(i as int),
                    out@.len() == i,
                    members_view(out@) == ov.take(i as int).map_values(
                        |m: (Seq<char>, JsonView)| pin_member(m, version@),
                    ),
                    count as nat == members_count(ov.take(i as int)),
                decreases n - i,
            {
                let (key, value) = rem.remove(0);
                proof {
                    assert(key == orig[i as int].0 && value == orig[i as int].1);
                }
                let is_field = json_str_eq(key.as_str(), "dependencies") || json_str_eq(
                    key.as_str(),
                    "devDependencies",
                );
                let ghost before = out@;
                let ghost m = ov[i as int];
                let mut added: usize = 0;
                let ghost kv = key@;
                match value {
                    Json::Object(inner) => {
                        proof {
                            assert(m == (kv, JsonView::Object(members_view(inner@))));
                        }
                        if is_field {
                            let (pinned, c) = pin_dep_table(inner, version);
                            let nv = Json::Object(pinned);
                            assert(json_view(nv) == JsonView::Object(members_view(pinned@)));
                            out.push((key, nv));
                            added = c;
                            proof {
                                assert(out@.drop_last() =~= before);
                                assert(members_view(out@) == members_view(before).push((kv, json_view(nv))));
                            }
                        } else {
                            let nv = Json::Object(inner);
                            out.push((key, nv));
                            proof {
                                assert(out@.drop_last() =~= before);
                                assert(members_view(out@) == members_view(before).push((kv, json_view(nv))));
                            }
                        }
                    },
                    other => {
                        let ghost ov2 = json_view(other);
                        out.push((key, other));
                        proof {
                            assert(out@.drop_last() =~= before);
                            assert(members_view(out@) == members_view(before).push((kv, ov2)));
                            assert(m == (kv, ov2));
                        }
                    },
                }
                proof {
                    assert(ov.take(i + 1).drop_last() =~= ov.take(i as int));
                    assert(out@.drop_last() =~= before);
                    assert(members_view(out@) == members_view(before).push(
                        pin_member(m, version@),
                    ));
                    assert(ov.take(i + 1).map_values(|m: (Seq<char>, JsonView)| pin_member(m, version@))
                        =~= ov.take(i as int).map_values(
                        |m: (Seq<char>, JsonView)| pin_member(m, version@),
                    ).push(pin_member(m, version@)));
                    assert(added as nat == member_count(m));
                    assert(members_count(ov.take(i + 1)) == members_count(ov.take(i as int)) + member_count(m));
                    assert(rem@ =~= orig.skip(i + 1));
                }
                match count.checked_add(added) {
                    Some(c) => {
                        count = c;
                    },
                    None => {
                        proof {
                            lemma_members_count_grows(ov, i + 1);
                        }
                        return None;
                    },
                }
                i = i + 1;
            }
            proof {
                assert(ov.take(n as int) =~= ov);
            }
            let res = Json::Object(out);
            proof {
                assert(json_view(res) == JsonView::Object(members_view(out@)));
                assert(ov.map_values(|m: (Seq<char>, JsonView)| pin_member(m, version@)) =~= members_view(out@));
            }
            Some((res, count))
        },
        other => Some((other, 0)),
    }
}

/// Sets every `@ossido-labs/*` dependency in the text of package.json to
/// `version`, keeping the order of members; gives the new text and the
/// number of packages set.
pub fn set_npm_version(package_json: &str, version: &str) -> (res: Result<(String, usize), NpmPinError>)
    ensures
        match res {
            Ok((text, n)) => npm_pinned(package_json@, version@) == Ok::<(Seq<char>, nat), NpmPinError>((text@, n as nat)),
            Err(e) => npm_pinned(package_json@, version@) == Err::<(Seq<char>, nat), NpmPinError>(e),
        },
{
    let pkg = match parse_json(package_json) {
        Some(j) => j,
        None => return Err(NpmPinError::Parse),
    };
    let (pinned, n) = match pin_package_json(pkg, version) {
        Some(r) => r,
        None => return Err(NpmPinError::CountOverflow),
    };
    if n == 0 {
        return Err(NpmPinError::NoPackages);
    }
    let mut text = render_pretty(&pinned);
    push_str(&mut text, "\n");
    Ok((text, n))
}

// ── quiet commands ─────────────────────────────────────────────────────────

/// The error text for a failed quiet command: the command line in backticks,
/// then its standard error, or its standard output when the standard error
/// holds nothing but whitespace.
pub open spec fn quiet_failure_text(
    cmd: Seq<char>,
    args: Seq<Seq<char>>,
    stderr: Seq<char>,
    stdout: Seq<char>,
) -> Seq<char> {
    "`"@ + cmd + " "@ + join_seq(args, " "@) + "` failed:\n"@ + if trim_seq(stderr).len() > 0 {
        stderr
    } else {
        stdout
    }
}

/// The error text for a command that exited unsuccessfully.
pub fn quiet_failure(cmd: &str, args: &Vec<String>, stderr: &str, stdout: &str) -> (res: String)
    ensures
        res@ == quiet_failure_text(cmd@, views(args@), stderr@, stdout@),
{
    let mut s = String::from_str("`");
    push_str(&mut s, cmd);
    push_str(&mut s, " ");
    let joined = join(args, " ");
    push_str(&mut s, joined.as_str());
    push_str(&mut s, "` failed:\n");
    let t = trim(stderr);
    if t.as_str().unicode_len() > 0 {
        push_str(&mut s, stderr);
    } else {
        push_str(&mut s, stdout);
    }
    s
}

/// Whether a key is the given name.
fn json_str_eq(a: &str, b: &str) -> (res: bool)
    ensures
        res == (a@ == b@),
{
    crate::json::str_eq(a, b)
}

} // verus!

