//! Which operations each launcher supports.
use vstd::prelude::*;
use crate::prelude::{GameType, launcher_name};

verus! {

/// An operation on a launcher or on one of its games.
#[derive(Clone, Copy, Debug, Eq, Hash, PartialEq, Structural)]
pub enum Op {
    List,
    Find,
    Executable,
    Install,
    Launch,
    Uninstall,
    Processes,
    Close,
}

/// The capability table: every launcher supports list, find, executable and
/// launch; install is supported by Origin, Steam and Ubisoft; uninstall by
/// Riot Games, Steam and Ubisoft; processes and close by Steam alone.
pub open spec fn supported(launcher: GameType, op: Op) -> bool {
    match op {
        Op::List | Op::Find | Op::Executable | Op::Launch => true,
        Op::Install => launcher == GameType::Origin || launcher == GameType::Steam || launcher
            == GameType::Ubisoft,
        Op::Uninstall => launcher == GameType::RiotGames || launcher == GameType::Steam
            || launcher == GameType::Ubisoft,
        Op::Processes | Op::Close => launcher == GameType::Steam,
    }
}

/// Whether `launcher` supports `op`.
pub fn supports(launcher: GameType, op: Op) -> (r: bool)
    ensures
        r == supported(launcher, op),
{
    match op {
        Op::List | Op::Find | Op::Executable | Op::Launch => true,
        Op::Install => match launcher {
            GameType::Origin | GameType::Steam | GameType::Ubisoft => true,
            _ => false,
        },
        Op::Uninstall => match launcher {
            GameType::RiotGames | GameType::Steam | GameType::Ubisoft => true,
            _ => false,
        },
        Op::Processes | Op::Close => match launcher {
            GameType::Steam => true,
            _ => false,
        },
    }
}

/// All operations, in table order.
pub open spec fn all_ops() -> Seq<Op> {
    seq![Op::List, Op::Find, Op::Executable, Op::Install, Op::Launch, Op::Uninstall, Op::Processes, Op::Close]
}

/// The launchers of the table, in table order.
pub open spec fn table_launchers() -> Seq<GameType> {
    seq![
        GameType::AmazonGames,
        GameType::Blizzard,
        GameType::EpicGames,
        GameType::GOG,
        GameType::Origin,
        GameType::RiotGames,
        GameType::Steam,
        GameType::Ubisoft,
    ]
}

/// The operations of `ops` that `launcher` supports, in order.
pub open spec fn supported_among(launcher: GameType, ops: Seq<Op>) -> Seq<Op>
    decreases ops.len(),
{
    if ops.len() == 0 {
        seq![]
    } else {
        let r = supported_among(launcher, ops.drop_last());
        if supported(launcher, ops.last()) {
            r.push(ops.last())
        } else {
            r
        }
    }
}

fn supported_ops(launcher: GameType) -> (r: Vec<Op>)
    ensures
        r@ == supported_among(launcher, all_ops()),
{
    let all = vec![Op::List, Op::Find, Op::Executable, Op::Install, Op::Launch, Op::Uninstall, Op::Processes, Op::Close];
    assert(all@ =~= all_ops());
    let mut out: Vec<Op> = Vec::new();
    let mut k: usize = 0;
    while k < all.len()
        invariant
            k <= all@.len(),
            all@ == all_ops(),
            out@ == supported_among(launcher, all@.subrange(0, k as int)),
        decreases all@.len() - k,
    {
        assert(all@.subrange(0, k + 1).drop_last() =~= all@.subrange(0, k as int));
        let op = all[k];
        if supports(launcher, op) {
            out.push(op);
        }
        k = k + 1;
    }
    assert(all@.subrange(0, all@.len() as int) =~= all@);
    out
}

/// The whole table: for each launcher of the table, in order, its name and
/// the operations it supports, in table order.
pub fn matrix() -> (m: Vec<(String, Vec<Op>)>)
    ensures
        m@.len() == table_launchers().len(),
        forall|i: int|
            0 <= i < m@.len() ==> (#[trigger] m@[i]).0@ == launcher_name(table_launchers()[i])
                && m@[i].1@ == supported_among(table_launchers()[i], all_ops()),
{
    let launchers = vec![
        GameType::AmazonGames,
        GameType::Blizzard,
        GameType::EpicGames,
        GameType::GOG,
        GameType::Origin,
        GameType::RiotGames,
        GameType::Steam,
        GameType::Ubisoft,
    ];
    assert(launchers@ =~= table_launchers());
    let mut out: Vec<(String, Vec<Op>)> = Vec::new();
    let mut k: usize = 0;
    while k < launchers.len()
        invariant
            k <= launchers@.len(),
            launchers@ == table_launchers(),
            out@.len() == k,
            forall|i: int|
                0 <= i < k ==> (#[trigger] out@[i]).0@ == launcher_name(table_launchers()[i])
                    && out@[i].1@ == supported_among(table_launchers()[i], all_ops()),
        decreases launchers@.len() - k,
    {
        let l = launchers[k];
        out.push((l.to_string(), supported_ops(l)));
        k = k + 1;
    }
    out
}

/// Every launcher supports list, find, executable and launch.
pub proof fn lemma_common_ops_supported(launcher: GameType)
    ensures
        supported(launcher, Op::List),
        supported(launcher, Op::Find),
        supported(launcher, Op::Executable),
        supported(launcher, Op::Launch),
{
}

/// Install is supported by Origin, Steam and Ubisoft, and by no other launcher.
pub proof fn lemma_install_support(launcher: GameType)
    ensures
        supported(launcher, Op::Install) <==> (launcher == GameType::Origin || launcher
            == GameType::Steam || launcher == GameType::Ubisoft),
{
}

/// Uninstall is supported by Riot Games, Steam and Ubisoft, and by no other
/// launcher.
pub proof fn lemma_uninstall_support(launcher: GameType)
    ensures
        supported(launcher, Op::Uninstall) <==> (launcher == GameType::RiotGames || launcher
            == GameType::Steam || launcher == GameType::Ubisoft),
{
}

/// Process listing and close are supported by Steam alone.
pub proof fn lemma_steam_only_process_support(launcher: GameType)
    ensures
        supported(launcher, Op::Processes) <==> launcher == GameType::Steam,
        supported(launcher, Op::Close) <==> launcher == GameType::Steam,
{
}

/// An operation is listed for a launcher in the table exactly when the
/// launcher supports it.
pub proof fn lemma_table_lists_supported_ops(launcher: GameType, op: Op)
    ensures
        supported_among(launcher, all_ops()).contains(op) <==> supported(launcher, op),
{
    lemma_supported_among_contains(launcher, all_ops(), op);
    assert(all_ops().contains(op)) by {
        match op {
            Op::List => assert(all_ops()[0] == op),
            Op::Find => assert(all_ops()[1] == op),
            Op::Executable => assert(all_ops()[2] == op),
            Op::Install => assert(all_ops()[3] == op),
            Op::Launch => assert(all_ops()[4] == op),
            Op::Uninstall => assert(all_ops()[5] == op),
            Op::Processes => assert(all_ops()[6] == op),
            Op::Close => assert(all_ops()[7] == op),
        }
    }
}

proof fn lemma_supported_among_contains(launcher: GameType, ops: Seq<Op>, op: Op)
    ensures
        supported_among(launcher, ops).contains(op) <==> (ops.contains(op) && supported(launcher, op)),
    decreases ops.len(),
{
    if ops.len() > 0 {
        let init = ops.drop_last();
        lemma_supported_among_contains(launcher, init, op);
        assert(ops =~= init.push(ops.last()));
        if ops.contains(op) && !init.contains(op) {
            let i = choose|i: int| 0 <= i < ops.len() && ops[i] == op;
            assert(i == ops.len() - 1);
        }
        if init.contains(op) {
            let i = choose|i: int| 0 <= i < init.len() && init[i] == op;
            assert(ops[i] == op);
        }
        let r = supported_among(launcher, init);
        if supported(launcher, ops.last()) {
            assert(r.push(ops.last())[r.len() as int] == ops.last());
            if r.contains(op) {
                let i = choose|i: int| 0 <= i < r.len() && r[i] == op;
                assert(r.push(ops.last())[i] == op);
            }
            if r.push(ops.last()).contains(op) && !r.contains(op) {
                let i = choose|i: int| 0 <= i < r.len() + 1 && r.push(ops.last())[i] == op;
                if i < r.len() {
                    assert(r[i] == op);
                }
            }
        }
    }
}

} // verus!
