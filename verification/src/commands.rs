//! Entry points that front ends call with launcher names.
use vstd::prelude::*;
use crate::capability::{Op, all_ops, matrix, supported_among, table_launchers};
use crate::prelude::{GameType, launcher_name, launcher_of_name};

verus! {

/// The capability table, for a front end (see `capability::matrix`).
pub fn get_capabilities() -> (m: Vec<(String, Vec<Op>)>)
    ensures
        m@.len() == table_launchers().len(),
        forall|i: int|
            0 <= i < m@.len() ==> (#[trigger] m@[i]).0@ == launcher_name(table_launchers()[i])
                && m@[i].1@ == supported_among(table_launchers()[i], all_ops()),
{
    matrix()
}

/// The launcher with the given snake-case name; the name must be one.
pub fn parse_launcher(name: &str) -> (t: GameType)
    requires
        launcher_of_name(name@) is Some,
    ensures
        launcher_of_name(name@) == Some(t),
        launcher_name(t) == name@,
{
    let t = crate::prelude::parse_launcher(name).unwrap();
    proof {
        crate::prelude::lemma_parse_launcher_exact(name@);
    }
    t
}

} // verus!
