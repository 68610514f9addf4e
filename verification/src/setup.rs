//! First-run setup: what the wizard needs to know.

use vstd::prelude::*;

verus! {

pub struct SetupStatus {
    pub rosetta_installed: bool,
    pub eula_accepted: bool,
    pub has_instances: bool,
}

/// The setup status from what was found: whether Rosetta runs x86-64
/// code, whether the EULA was accepted, and how many instances exist.
pub fn setup_status(rosetta_installed: bool, eula_accepted: bool, instance_count: usize) -> (r: SetupStatus)
    ensures
        r.rosetta_installed == rosetta_installed,
        r.eula_accepted == eula_accepted,
        r.has_instances == (instance_count > 0),
{
    SetupStatus { rosetta_installed, eula_accepted, has_instances: instance_count > 0 }
}

} // verus!
