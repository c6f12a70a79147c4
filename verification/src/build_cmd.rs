//! The guard that both example apps are built before a benchmark runs.
use vstd::prelude::*;

use crate::text::{join_seq, push_str};

verus! {

/// The text of the error raised when apps are missing.
pub open spec fn not_built_text(problems: Seq<Seq<char>>) -> Seq<char> {
    "Apps are not built:\n  - "@ + join_seq(problems, "\n  - "@)
        + "\n\nRun `bun run bench:build` first (or `bench build` / `bench throughput --build`)."@
}

/// What is missing: the Ossido binary and the Next.js build, in that order.
pub open spec fn build_problems(
    binary_exists: bool,
    next_build_exists: bool,
    binary: Seq<char>,
    next_build: Seq<char>,
) -> Seq<Seq<char>> {
    (if binary_exists {
        Seq::empty()
    } else {
        seq!["missing Ossido binary: "@ + binary]
    }) + (if next_build_exists {
        Seq::empty()
    } else {
        seq!["missing Next build: "@ + next_build]
    })
}

/// Checks that both apps are built, given whether the Ossido binary at
/// `binary` and the Next.js build at `next_build` exist; fails with guidance
/// otherwise.
pub fn ensure_built(
    binary_exists: bool,
    next_build_exists: bool,
    binary: &str,
    next_build: &str,
) -> (res: Result<(), String>)
    ensures
        res is Ok <==> binary_exists && next_build_exists,
        res matches Err(e) ==> e@ == not_built_text(
            build_problems(binary_exists, next_build_exists, binary@, next_build@),
        ),
{
    if binary_exists && next_build_exists {
        return Ok(());
    }
    let mut s = String::from_str("Apps are not built:\n  - ");
    if !binary_exists {
        push_str(&mut s, "missing Ossido binary: ");
        push_str(&mut s, binary);
    }
    if !binary_exists && !next_build_exists {
        push_str(&mut s, "\n  - ");
    }
    if !next_build_exists {
        push_str(&mut s, "missing Next build: ");
        push_str(&mut s, next_build);
    }
    push_str(
        &mut s,
        "\n\nRun `bun run bench:build` first (or `bench build` / `bench throughput --build`).",
    );
    proof {
        let ps = build_problems(binary_exists, next_build_exists, binary@, next_build@);
        if !binary_exists && !next_build_exists {
            assert(ps.drop_last() =~= seq!["missing Ossido binary: "@ + binary@]);
            assert(join_seq(ps.drop_last(), "\n  - "@) == ps[0]);
        } else if !binary_exists {
            assert(ps =~= seq!["missing Ossido binary: "@ + binary@]);
        } else {
            assert(ps =~= seq!["missing Next build: "@ + next_build@]);
        }
        assert(s@ =~= not_built_text(ps));
    }
    Err(s)
}

} // verus!
