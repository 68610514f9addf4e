//! The container runtime: what a container is asked to be, what the runtime
//! reports about containers, and how the bundled `container` CLI is driven.

pub mod apple;
pub mod process;
pub mod reports;

use crate::text::owned;
use vstd::prelude::*;

verus! {

/// Label applied to every container Bakehouse creates; the sweeper
/// enumerates by it.
pub const MANAGED_LABEL: &'static str = "com.bakehouse.managed";

/// Keys strictly increasing (the order a sorted map hands them out in).
pub open spec fn sorted_keys(m: Seq<(String, String)>) -> bool {
    forall|i: int, j: int| 0 <= i < j < m.len() ==> seq_less((#[trigger] m[i]).0@, (#[trigger] m[j]).0@)
}

/// Lexicographic order of character sequences (`str`'s `Ord`).
pub open spec fn seq_less(a: Seq<char>, b: Seq<char>) -> bool
    decreases a.len(),
{
    if b.len() == 0 {
        false
    } else if a.len() == 0 {
        true
    } else if a[0] != b[0] {
        a[0] < b[0]
    } else {
        seq_less(a.skip(1), b.skip(1))
    }
}

pub struct ContainerSpec {
    /// Container name (we use the instance id).
    pub name: String,
    /// Full image reference, digest-pinned.
    pub image: String,
    pub memory_mb: u32,
    /// Environment, in key order.
    pub env: Vec<(String, String)>,
    /// Volume name -> mount point, in name order.
    pub volumes: Vec<(String, String)>,
}

#[derive(Debug, Clone, PartialEq, Eq)]
pub enum ContainerState {
    Running { ip: String },
    Stopped,
    NotFound,
}

pub ghost enum ContainerStateSpec {
    Running { ip: Seq<char> },
    Stopped,
    NotFound,
}

impl View for ContainerState {
    type V = ContainerStateSpec;

    open spec fn view(&self) -> ContainerStateSpec {
        match self {
            ContainerState::Running { ip } => ContainerStateSpec::Running { ip: ip@ },
            ContainerState::Stopped => ContainerStateSpec::Stopped,
            ContainerState::NotFound => ContainerStateSpec::NotFound,
        }
    }
}

impl ContainerState {
    /// A variant-by-variant copy.
    pub fn copy(&self) -> (r: Self)
        ensures
            r@ == self@,
    {
        match self {
            ContainerState::Running { ip } => ContainerState::Running { ip: owned(ip.as_str()) },
            ContainerState::Stopped => ContainerState::Stopped,
            ContainerState::NotFound => ContainerState::NotFound,
        }
    }
}

#[derive(Debug, Clone)]
pub struct ManagedContainer {
    pub name: String,
    pub state: ContainerState,
}

#[derive(Debug)]
pub struct ExecOutput {
    pub stdout: Vec<u8>,
    pub stderr: String,
    pub success: bool,
}

} // verus!
