//! The environment summary of report headers and the resident memory of a
//! server's process group.
use vstd::prelude::*;

use crate::text::{push_str, trim, trim_seq};

verus! {

/// The host line: operating system name (or "unknown"), kernel version (or
/// nothing) and architecture.
pub open spec fn host_text(name: Option<Seq<char>>, kernel: Option<Seq<char>>, arch: Seq<char>) -> Seq<char> {
    (match name {
        Some(n) => n,
        None => "unknown"@,
    }) + " "@ + (match kernel {
        Some(k) => k,
        None => Seq::empty(),
    }) + " \u{b7} "@ + arch
}

/// The host line of a report header.
pub fn host_string(name: Option<&str>, kernel: Option<&str>, arch: &str) -> (res: String)
    ensures
        res@ == host_text(
            match name {
                Some(n) => Some(n@),
                None => None,
            },
            match kernel {
                Some(k) => Some(k@),
                None => None,
            },
            arch@,
        ),
{
    let mut s = match name {
        Some(n) => String::from_str(n),
        None => String::from_str("unknown"),
    };
    push_str(&mut s, " ");
    if let Some(k) = kernel {
        push_str(&mut s, k);
    }
    push_str(&mut s, " \u{b7} ");
    push_str(&mut s, arch);
    s
}

/// The CPU model: the first CPU's brand without surrounding whitespace, or
/// "unknown" when there is no CPU or the brand is blank.
pub open spec fn cpu_model_text(brand: Option<Seq<char>>) -> Seq<char> {
    match brand {
        Some(b) => if trim_seq(b).len() > 0 {
            trim_seq(b)
        } else {
            "unknown"@
        },
        None => "unknown"@,
    }
}

/// The CPU model line of a report header, from the first CPU's brand.
pub fn cpu_model(first_brand: Option<&str>) -> (res: String)
    ensures
        res@ == cpu_model_text(
            match first_brand {
                Some(b) => Some(b@),
                None => None,
            },
        ),
{
    match first_brand {
        Some(b) => {
            let t = trim(b);
            if t.as_str().unicode_len() > 0 {
                t
            } else {
                String::from_str("unknown")
            }
        },
        None => String::from_str("unknown"),
    }
}

/// The bytes of resident memory of the processes in process group `pgid`;
/// each process is given with its process group (`None` where it could not
/// be read) and its resident bytes.
pub open spec fn group_bytes(procs: Seq<(Option<i32>, u64)>, pgid: i32) -> nat
    decreases procs.len(),
{
    if procs.len() == 0 {
        0
    } else {
        group_bytes(procs.drop_last(), pgid) + if procs.last().0 == Some(pgid) {
            procs.last().1 as nat
        } else {
            0nat
        }
    }
}

proof fn lemma_group_bytes_grows(procs: Seq<(Option<i32>, u64)>, pgid: i32, k: int)
    requires
        0 <= k <= procs.len(),
    ensures
        group_bytes(procs.take(k), pgid) <= group_bytes(procs, pgid),
    decreases procs.len(),
{
    if k < procs.len() {
        lemma_group_bytes_grows(procs.drop_last(), pgid, k);
        assert(procs.drop_last().take(k) =~= procs.take(k));
    } else {
        assert(procs.take(k) =~= procs);
    }
}

/// The summed resident bytes of every process in process group `pgid`;
/// `None` when the sum exceeds 64 bits.
pub fn group_rss_bytes(procs: &Vec<(Option<i32>, u64)>, pgid: i32) -> (res: Option<u64>)
    ensures
        match res {
            Some(b) => b as nat == group_bytes(procs@, pgid),
            None => group_bytes(procs@, pgid) > u64::MAX,
        },
{
    let n = procs.len();
    let mut bytes: u64 = 0;
    let mut i: usize = 0;
    while i < n
        invariant
            n == procs@.len(),
            i <= n,
            bytes as nat == group_bytes(procs@.take(i as int), pgid),
        decreases n - i,
    {
        let (pg, mem) = procs[i];
        proof {
            assert(procs@.take(i + 1).drop_last() =~= procs@.take(i as int));
        }
        if pg == Some(pgid) {
            match bytes.checked_add(mem) {
                Some(b) => {
                    bytes = b;
                },
                None => {
                    proof {
                        lemma_group_bytes_grows(procs@, pgid, i + 1);
                    }
                    return None;
                },
            }
        }
        i = i + 1;
    }
    proof {
        assert(procs@.take(n as int) =~= procs@);
    }
    Some(bytes)
}

} // verus!
