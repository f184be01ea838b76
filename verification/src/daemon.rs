//! The background server process: where its files go, the process id read
//! back from its pid file, and what the stop signal's answer means.

use vstd::prelude::*;
use crate::db::spec_agents_dir;
use crate::text::{ends_in_name, parse_i32, path_join, spec_parse_i32, spec_path_join, spec_trim, trim};

verus! {

/// The directory and files of the background server.
pub struct DaemonPaths {
    pub agents_dir: String,
    pub stdout_path: String,
    pub stderr_path: String,
    pub pid_file_path: String,
}

/// The directories to create, in order, before the server's files can be
/// written, and the files' paths.
pub struct DaemonLayout {
    pub dirs: Vec<String>,
    pub paths: DaemonPaths,
}

/// `<home>/.agents/tmp`
pub open spec fn spec_tmp_dir(home: Seq<char>) -> Seq<char> {
    spec_path_join(spec_agents_dir(home), "tmp"@)
}

/// Where the server's files go for a user whose home directory is `home`:
/// `daemon.out`, `daemon.err` and `test.pid` in `.agents/tmp` under it, after
/// the directories `.agents` and `.agents/tmp`.
pub fn daemon_layout(home: &str) -> (r: DaemonLayout)
    ensures
        r.dirs.deep_view() == seq![spec_agents_dir(home@), spec_tmp_dir(home@)],
        r.paths.agents_dir@ == spec_agents_dir(home@),
        r.paths.stdout_path@ == spec_path_join(spec_tmp_dir(home@), "daemon.out"@),
        r.paths.stderr_path@ == spec_path_join(spec_tmp_dir(home@), "daemon.err"@),
        r.paths.pid_file_path@ == spec_path_join(spec_tmp_dir(home@), "test.pid"@),
        ends_in_name(home@) ==> {
            &&& r.dirs.deep_view() == seq![home@ + "/.agents"@, home@ + "/.agents/tmp"@]
            &&& r.paths.agents_dir@ == home@ + "/.agents"@
            &&& r.paths.stdout_path@ == home@ + "/.agents/tmp/daemon.out"@
            &&& r.paths.stderr_path@ == home@ + "/.agents/tmp/daemon.err"@
            &&& r.paths.pid_file_path@ == home@ + "/.agents/tmp/test.pid"@
        },
{
    proof {
        reveal_strlit(".agents");
        reveal_strlit("tmp");
        reveal_strlit("daemon.out");
        reveal_strlit("daemon.err");
        reveal_strlit("test.pid");
        reveal_strlit("/.agents");
        reveal_strlit("/.agents/tmp");
        reveal_strlit("/.agents/tmp/daemon.out");
        reveal_strlit("/.agents/tmp/daemon.err");
        reveal_strlit("/.agents/tmp/test.pid");
    }
    let agents_dir = path_join(home, ".agents");
    let tmp_dir = path_join(agents_dir.as_str(), "tmp");
    let stdout_path = path_join(tmp_dir.as_str(), "daemon.out");
    let stderr_path = path_join(tmp_dir.as_str(), "daemon.err");
    let pid_file_path = path_join(tmp_dir.as_str(), "test.pid");
    proof {
        if ends_in_name(home@) {
            assert(agents_dir@ =~= home@ + "/.agents"@);
            assert(tmp_dir@ =~= home@ + "/.agents/tmp"@);
            assert(stdout_path@ =~= home@ + "/.agents/tmp/daemon.out"@);
            assert(stderr_path@ =~= home@ + "/.agents/tmp/daemon.err"@);
            assert(pid_file_path@ =~= home@ + "/.agents/tmp/test.pid"@);
        }
    }
    let mut dirs: Vec<String> = Vec::new();
    dirs.push(agents_dir.clone());
    dirs.push(tmp_dir);
    assert(dirs.deep_view() =~= seq![spec_agents_dir(home@), spec_tmp_dir(home@)]);
    DaemonLayout { dirs, paths: DaemonPaths { agents_dir, stdout_path, stderr_path, pid_file_path } }
}

/// The process id written in a pid file: the trimmed content read as an
/// `i32`, or 0 together with the reason when it does not read as one.
pub fn pid_from_file(content: &str) -> (r: (i32, Option<std::num::ParseIntError>))
    ensures
        match spec_parse_i32(spec_trim(content@)) {
            Some(n) => r.0 == n && r.1 is None,
            None => r.0 == 0 && r.1 is Some,
        },
{
    match parse_i32(trim(content)) {
        Ok(n) => (n, None),
        Err(e) => (0, Some(e)),
    }
}

/// What sending the stop signal to the server told.
#[derive(Debug, PartialEq, Eq)]
pub enum StopOutcome {
    /// The signal was delivered.
    Stopped,
    /// The signal could not be delivered: no server was running.
    NotRunning,
}

/// Reads the result of `kill`: -1 means the signal was not delivered.
pub fn stop_outcome(kill_result: i32) -> (r: StopOutcome)
    ensures
        r == (if kill_result != -1 {
            StopOutcome::Stopped
        } else {
            StopOutcome::NotRunning
        }),
{
    if kill_result != -1 {
        StopOutcome::Stopped
    } else {
        StopOutcome::NotRunning
    }
}

} // verus!
