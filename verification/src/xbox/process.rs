//! The processes that belong to a game.
use vstd::prelude::*;
use crate::prelude::Game;
use crate::paths::{is_under, path_under};

verus! {

/// A running process, as far as the matching reads it.
pub struct ProcessInfo {
    pub pid: u32,
    /// The path of its executable, if known.
    pub exe: Option<String>,
    /// Its working directory, if known.
    pub cwd: Option<String>,
}

/// A process runs from `dir` when its executable path or its working
/// directory is `dir` or lies under it (see `path_under`).
pub open spec fn runs_from(p: ProcessInfo, dir: Seq<char>) -> bool {
    ||| (p.exe matches Some(e) && path_under(e@, dir))
    ||| (p.cwd matches Some(c) && path_under(c@, dir))
}

/// The ids of the processes of `table` that run from `dir`, in table order.
pub open spec fn pids_running_from(table: Seq<ProcessInfo>, dir: Seq<char>) -> Seq<u32>
    decreases table.len(),
{
    if table.len() == 0 {
        seq![]
    } else {
        let r = pids_running_from(table.drop_last(), dir);
        if runs_from(table.last(), dir) {
            r.push(table.last().pid)
        } else {
            r
        }
    }
}

/// A process whose executable path lies under `dir`.
pub open spec fn exe_under(p: ProcessInfo, dir: Seq<char>) -> bool {
    p.exe is Some && path_under(p.exe->Some_0@, dir)
}

/// A process whose working directory lies under `dir`.
pub open spec fn cwd_under(p: ProcessInfo, dir: Seq<char>) -> bool {
    p.cwd is Some && path_under(p.cwd->Some_0@, dir)
}

/// Some process of `table` has id `pid` and its executable path or its
/// working directory under `dir`.
pub open spec fn listed_from(table: Seq<ProcessInfo>, dir: Seq<char>, pid: u32) -> bool {
    exists|i: int|
        0 <= i < table.len() && (#[trigger] table[i]).pid == pid && (exe_under(table[i], dir)
            || cwd_under(table[i], dir))
}

/// Which processes run from a folder: a process whose executable path lies
/// under the folder is listed whatever its working directory, one whose
/// working directory lies under it is listed whatever its executable, and
/// every listed id is that of a process of one of these two kinds.
pub proof fn lemma_pids_rule(table: Seq<ProcessInfo>, dir: Seq<char>)
    ensures
        forall|i: int|
            0 <= i < table.len() && exe_under(#[trigger] table[i], dir) ==> pids_running_from(
                table,
                dir,
            ).contains(table[i].pid),
        forall|i: int|
            0 <= i < table.len() && cwd_under(#[trigger] table[i], dir) ==> pids_running_from(
                table,
                dir,
            ).contains(table[i].pid),
        forall|k: int|
            0 <= k < pids_running_from(table, dir).len() ==> #[trigger] listed_from(
                table,
                dir,
                pids_running_from(table, dir)[k],
            ),
    decreases table.len(),
{
    if table.len() > 0 {
        let prev = table.drop_last();
        let last = table.last();
        lemma_pids_rule(prev, dir);
        let r0 = pids_running_from(prev, dir);
        let r = pids_running_from(table, dir);
        assert(table[table.len() - 1] == last);
        assert forall|i: int|
            0 <= i < table.len() && (exe_under(#[trigger] table[i], dir) || cwd_under(table[i], dir))
                implies r.contains(table[i].pid) by {
            if i < prev.len() {
                assert(prev[i] == table[i]);
                assert(exe_under(prev[i], dir) || cwd_under(prev[i], dir));
                let k = if exe_under(prev[i], dir) {
                    choose|k: int| 0 <= k < r0.len() && r0[k] == prev[i].pid
                } else {
                    choose|k: int| 0 <= k < r0.len() && r0[k] == prev[i].pid
                };
                assert(r[k] == table[i].pid);
            } else {
                assert(r[r0.len() as int] == last.pid);
            }
        }
        assert forall|k: int|
            0 <= k < pids_running_from(table, dir).len() implies #[trigger] listed_from(
            table,
            dir,
            pids_running_from(table, dir)[k],
        ) by {
            if k < r0.len() {
                assert(listed_from(prev, dir, r0[k]));
                let i = choose|i: int|
                    0 <= i < prev.len() && (#[trigger] prev[i]).pid == r0[k] && (exe_under(prev[i], dir)
                        || cwd_under(prev[i], dir));
                assert(table[i] == prev[i]);
                assert(r[k] == r0[k]);
                assert(table[i].pid == r[k] && (exe_under(table[i], dir) || cwd_under(table[i], dir)));
                assert(listed_from(table, dir, r[k]));
            } else {
                assert(runs_from(last, dir));
                assert(r == r0.push(last.pid));
                assert(r[k] == last.pid);
                assert(exe_under(last, dir) || cwd_under(last, dir));
                assert(table[table.len() - 1].pid == r[k]);
                assert(listed_from(table, dir, r[k]));
            }
        }
    } else {
        assert(pids_running_from(table, dir).len() == 0);
    }
}

/// The ids of the processes in `table` that run from the game's folder;
/// none when the game has no folder.
pub fn pids_in(game: &Game, table: &Vec<ProcessInfo>) -> (r: Vec<u32>)
    ensures
        match game.path {
            Some(p) => r@ == pids_running_from(table@, p@),
            None => r@.len() == 0,
        },
{
    let dir = match &game.path {
        Some(p) => p,
        None => {
            return Vec::new();
        },
    };
    let mut out: Vec<u32> = Vec::new();
    let mut i: usize = 0;
    while i < table.len()
        invariant
            i <= table@.len(),
            game.path == Some(*dir),
            out@ == pids_running_from(table@.subrange(0, i as int), dir@),
        decreases table@.len() - i,
    {
        let p = &table[i];
        assert(table@.subrange(0, i + 1).drop_last() =~= table@.subrange(0, i as int));
        assert(table@.subrange(0, i + 1).last() == table@[i as int]);
        let exe_matches = match &p.exe {
            Some(e) => is_under(e.as_str(), dir.as_str()),
            None => false,
        };
        let cwd_matches = match &p.cwd {
            Some(c) => is_under(c.as_str(), dir.as_str()),
            None => false,
        };
        if exe_matches || cwd_matches {
            out.push(p.pid);
        }
        i = i + 1;
    }
    assert(table@.subrange(0, table@.len() as int) =~= table@);
    out
}

/// The game's processes on a system without the Microsoft Store (the version
/// this library builds): none. On Windows they are `pids_in` of the running
/// processes.
pub fn pids(game: &Game) -> (r: Vec<u32>)
    ensures
        r@.len() == 0,
{
    Vec::new()
}

} // verus!
