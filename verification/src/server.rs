//! How each framework's server is launched and polled for readiness.
use vstd::prelude::*;

use crate::config::{next_dir, ossido_binary, ossido_dir, FrameworkKey, NEXT_PORT, OSSIDO_PORT};
use crate::paths::joined_path;
use crate::text::{decimal, decimal_seq, push_str, views};

verus! {

/// The address of a route on a local server.
pub open spec fn local_url_text(port: u16, path: Seq<char>) -> Seq<char> {
    "http://127.0.0.1:"@ + decimal_seq(port as nat) + path
}

/// The address of `path` on the local server listening on `port`.
pub fn local_url(port: u16, path: &str) -> (res: String)
    ensures
        res@ == local_url_text(port, path@),
{
    let mut s = String::from_str("http://127.0.0.1:");
    let p = decimal(port as u64);
    push_str(&mut s, p.as_str());
    push_str(&mut s, path);
    s
}

/// A server process to start: program, arguments, working directory,
/// environment, and the address polled until it answers.
pub struct ServerLaunch {
    pub program: String,
    pub args: Vec<String>,
    pub cwd: String,
    pub env: Vec<(String, String)>,
    pub health_url: String,
}

/// The names and values of an environment list.
pub open spec fn env_views(env: Seq<(String, String)>) -> Seq<(Seq<char>, Seq<char>)> {
    env.map_values(|p: (String, String)| (p.0@, p.1@))
}

/// How a framework's server is started with `threads` render threads (Ossido)
/// or cluster workers (Next.js).
pub open spec fn launch_is(l: ServerLaunch, root: Seq<char>, key: FrameworkKey, threads: usize) -> bool {
    match key {
        FrameworkKey::Ossido => {
            &&& l.program@ == joined_path(root, "target/release/ossido"@)
            &&& l.args@.len() == 0
            &&& l.cwd@ == joined_path(root, "examples/ossido"@)
            &&& env_views(l.env@) == seq![("OSSIDO_SSR_THREADS"@, decimal_seq(threads as nat))]
            &&& l.health_url@ == local_url_text(OSSIDO_PORT, "/ssr"@)
        },
        FrameworkKey::Next => {
            &&& l.program@ == "node"@
            &&& views(l.args@) == seq!["server.mjs"@]
            &&& l.cwd@ == joined_path(root, "examples/next"@)
            &&& env_views(l.env@) == seq![
                ("NODE_ENV"@, "production"@),
                ("PORT"@, decimal_seq(NEXT_PORT as nat)),
                ("WEB_CONCURRENCY"@, decimal_seq(threads as nat)),
            ]
            &&& l.health_url@ == local_url_text(NEXT_PORT, "/ssr"@)
        },
    }
}

/// The launch of a framework's server: the Ossido release binary with
/// `OSSIDO_SSR_THREADS`, or `node server.mjs` in production mode with `PORT`
/// and `WEB_CONCURRENCY`.
pub fn server_launch(root: &str, key: FrameworkKey, threads: usize) -> (res: ServerLaunch)
    ensures
        launch_is(res, root@, key, threads),
{
    match key {
        FrameworkKey::Ossido => {
            let mut env: Vec<(String, String)> = Vec::new();
            env.push((String::from_str("OSSIDO_SSR_THREADS"), decimal(threads as u64)));
            proof {
                assert(env_views(env@) =~= seq![("OSSIDO_SSR_THREADS"@, decimal_seq(threads as nat))]);
            }
            ServerLaunch {
                program: ossido_binary(root),
                args: Vec::new(),
                cwd: ossido_dir(root),
                env,
                health_url: local_url(OSSIDO_PORT, "/ssr"),
            }
        },
        FrameworkKey::Next => {
            let mut args: Vec<String> = Vec::new();
            args.push(String::from_str("server.mjs"));
            let mut env: Vec<(String, String)> = Vec::new();
            env.push((String::from_str("NODE_ENV"), String::from_str("production")));
            env.push((String::from_str("PORT"), decimal(NEXT_PORT as u64)));
            env.push((String::from_str("WEB_CONCURRENCY"), decimal(threads as u64)));
            proof {
                assert(views(args@) =~= seq!["server.mjs"@]);
                assert(env_views(env@) =~= seq![
                    ("NODE_ENV"@, "production"@),
                    ("PORT"@, decimal_seq(NEXT_PORT as nat)),
                    ("WEB_CONCURRENCY"@, decimal_seq(threads as nat)),
                ]);
            }
            ServerLaunch {
                program: String::from_str("node"),
                args,
                cwd: next_dir(root),
                env,
                health_url: local_url(NEXT_PORT, "/ssr"),
            }
        },
    }
}

} // verus!
