//! The decisions of an instance's start sequence. Each step's outside work
//! (asking the runtime, pulling, running the container, polling its logs)
//! is done by the caller; the functions here say, for what came back, which
//! state the instance enters, which step comes next, and which error ends
//! the sequence. A failure sets the instance to failed, naming the stage
//! and carrying the error's message, except a failure to read the password,
//! which ends the sequence and leaves the state as it is.

use super::model::{Instance, InstanceState, StateSpec};
use crate::error::{is_runtime_error, AppError};
use crate::results::export::join;
use crate::runtime::{sorted_keys, seq_less, ContainerSpec, ContainerState};
use crate::text::{contains_str, dec_digits, extend_chars, lines_of, owned, str_contains, str_lines, string_of, u64_dec};
use vstd::prelude::*;

verus! {

pub const SQL_READY_MARKER: &'static str = "ready for client connections";

/// Seconds SQL Server gets to become ready.
pub const SQL_READY_TIMEOUT_SECS: u64 = 120;

/// Where SQL Server keeps its data inside the container.
pub const DATA_MOUNT: &'static str = "/var/opt/mssql";

/// Run as root in a one-shot container on every start: fresh volumes mount
/// root-owned, and SQL Server (uid 10001) cannot run on an unwritable data
/// directory.
pub const VOLUME_PREP_SCRIPT: &'static str = "chown 10001:0 /var/opt/mssql && chmod 770 /var/opt/mssql";

/// The steps of the start sequence.
#[derive(Clone, Copy, PartialEq, Eq, Structural)]
pub enum StartStep {
    /// Make sure the container runtime is up.
    EnsureRuntime,
    /// Ask whether the pinned image is local.
    CheckImage,
    /// Pull the image.
    PullImage,
    /// Create the data volume (its failure is ignored) and make it writable
    /// for SQL Server with a one-shot root container.
    PrepareVolume,
    /// Read the instance's sa password.
    LoadPassword,
    /// Run the instance container.
    RunContainer,
    /// Poll the container's logs until SQL Server is ready.
    WaitForSql,
    /// Read the running container's address.
    ConfirmRunning,
    /// The sequence is over.
    Finished,
}

/// What to do after a step.
pub struct StartDecision {
    pub next: StartStep,
    /// The state the instance enters, if it changes.
    pub set_state: Option<InstanceState>,
    /// The error that ends the sequence, if any.
    pub error: Option<AppError>,
}

/// The failed state for a stage.
pub open spec fn failed_at(stage: Seq<char>, e: AppError) -> StateSpec {
    StateSpec::Failed { stage, detail: e.spec_message() }
}

/// The sequence ends in failure at `stage` with error `e`.
pub open spec fn fails_with(d: StartDecision, stage: Seq<char>, e: AppError) -> bool {
    &&& d.next == StartStep::Finished
    &&& d.set_state matches Some(s) && s@ == failed_at(stage, e)
    &&& d.error == Some(e)
}

/// The sequence moves on to `next`, entering `state` if given.
pub open spec fn moves_to(d: StartDecision, next: StartStep, state: Option<StateSpec>) -> bool {
    &&& d.next == next
    &&& d.error is None
    &&& match state {
        Some(st) => d.set_state matches Some(s) && s@ == st,
        None => d.set_state is None,
    }
}

fn fail(stage: &str, e: AppError) -> (r: StartDecision)
    ensures
        fails_with(r, stage@, e),
{
    let detail = e.message();
    StartDecision {
        next: StartStep::Finished,
        set_state: Some(InstanceState::Failed { stage: owned(stage), detail }),
        error: Some(e),
    }
}

/// The sequence begins: the instance is starting.
pub fn begin() -> (r: StartDecision)
    ensures
        moves_to(r, StartStep::EnsureRuntime, Some(StateSpec::Starting)),
{
    StartDecision { next: StartStep::EnsureRuntime, set_state: Some(InstanceState::Starting), error: None }
}

/// After making sure the runtime is up.
pub fn after_runtime(outcome: Result<(), AppError>) -> (r: StartDecision)
    ensures
        match outcome {
            Ok(_) => moves_to(r, StartStep::CheckImage, None),
            Err(e) => fails_with(r, "runtime"@, e),
        },
{
    match outcome {
        Ok(_) => StartDecision { next: StartStep::CheckImage, set_state: None, error: None },
        Err(e) => fail("runtime", e),
    }
}

/// After asking whether the image is local: pull it when it is not.
pub fn after_image_check(outcome: Result<bool, AppError>) -> (r: StartDecision)
    ensures
        match outcome {
            Ok(true) => moves_to(r, StartStep::PrepareVolume, None),
            Ok(false) => moves_to(r, StartStep::PullImage, Some(StateSpec::Pulling)),
            Err(e) => fails_with(r, "runtime"@, e),
        },
{
    match outcome {
        Ok(true) => StartDecision { next: StartStep::PrepareVolume, set_state: None, error: None },
        Ok(false) => StartDecision { next: StartStep::PullImage, set_state: Some(InstanceState::Pulling), error: None },
        Err(e) => fail("runtime", e),
    }
}

/// After pulling the image: back to starting.
pub fn after_pull(outcome: Result<(), AppError>) -> (r: StartDecision)
    ensures
        match outcome {
            Ok(_) => moves_to(r, StartStep::PrepareVolume, Some(StateSpec::Starting)),
            Err(e) => fails_with(r, "pull"@, e),
        },
{
    match outcome {
        Ok(_) => StartDecision { next: StartStep::PrepareVolume, set_state: Some(InstanceState::Starting), error: None },
        Err(e) => fail("pull", e),
    }
}

/// After preparing the data volume.
pub fn after_prepare_volume(outcome: Result<(), AppError>) -> (r: StartDecision)
    ensures
        match outcome {
            Ok(_) => moves_to(r, StartStep::LoadPassword, None),
            Err(e) => fails_with(r, "prepare-volume"@, e),
        },
{
    match outcome {
        Ok(_) => StartDecision { next: StartStep::LoadPassword, set_state: None, error: None },
        Err(e) => fail("prepare-volume", e),
    }
}

/// After reading the password: the password goes on to the container; a
/// failure ends the sequence with that error, leaving the state as it is.
pub fn after_password(outcome: Result<String, AppError>) -> (r: (StartDecision, Option<String>))
    ensures
        match outcome {
            Ok(p) => moves_to(r.0, StartStep::RunContainer, None) && r.1 == Some(p),
            Err(e) => r.0.next == StartStep::Finished && r.0.set_state is None && r.0.error == Some(e) && r.1 is None,
        },
{
    match outcome {
        Ok(p) => (StartDecision { next: StartStep::RunContainer, set_state: None, error: None }, Some(p)),
        Err(e) => (StartDecision { next: StartStep::Finished, set_state: None, error: Some(e) }, None),
    }
}

/// After running the container: wait for SQL Server.
pub fn after_run(outcome: Result<(), AppError>) -> (r: StartDecision)
    ensures
        match outcome {
            Ok(_) => moves_to(r, StartStep::WaitForSql, Some(StateSpec::WaitingForSql)),
            Err(e) => fails_with(r, "start"@, e),
        },
{
    match outcome {
        Ok(_) => StartDecision { next: StartStep::WaitForSql, set_state: Some(InstanceState::WaitingForSql), error: None },
        Err(e) => fail("start", e),
    }
}

/// The last `n` lines of `logs`, newest first, joined with newlines.
pub open spec fn spec_recent_lines(logs: Seq<char>, n: nat) -> Seq<char> {
    let ls = str_lines(logs);
    let k = if ls.len() < n { ls.len() } else { n };
    join(Seq::new(k, |i: int| ls[ls.len() - 1 - i]), '\n')
}

fn recent_lines(logs: &str, n: usize) -> (r: String)
    ensures
        r@ == spec_recent_lines(logs@, n as nat),
{
    let ls = lines_of(logs);
    let ghost lv = ls@.map_values(|l: Vec<char>| l@);
    let len = ls.len();
    let k = if len < n {
        len
    } else {
        n
    };
    let ghost picked = Seq::new(k as nat, |i: int| lv[lv.len() - 1 - i]);
    let mut v: Vec<char> = Vec::new();
    let mut i: usize = 0;
    while i < k
        invariant
            i <= k <= len == ls@.len(),
            lv == ls@.map_values(|l: Vec<char>| l@),
            picked == Seq::new(k as nat, |i: int| lv[lv.len() - 1 - i]),
            v@ == join(picked.take(i as int), '\n'),
        decreases k - i,
    {
        assert(picked.take(i + 1).drop_last() =~= picked.take(i as int));
        if i > 0 {
            v.push('\n');
        }
        extend_chars(&mut v, ls[len - 1 - i].as_slice());
        assert(i == 0 ==> picked.take(1) =~= seq![picked[0]]);
        i += 1;
    }
    assert(picked.take(k as int) =~= picked);
    string_of(v.as_slice())
}

/// After a log poll while waiting for SQL Server: ready when the logs show
/// the marker; a failure when the container stopped or the deadline passed
/// (with the last 30 log lines, newest first, as detail); else keep waiting.
pub fn after_sql_poll(logs: &str, container_running: bool, past_deadline: bool) -> (r: StartDecision)
    ensures
        if contains_str(logs@, SQL_READY_MARKER@) {
            moves_to(r, StartStep::ConfirmRunning, None)
        } else if !container_running {
            r.error matches Some(e) && is_runtime_error(
                e,
                "SQL Server exited during startup"@,
                Some(spec_recent_lines(logs@, 30)),
            ) && fails_with(r, "sql-startup"@, e)
        } else if past_deadline {
            r.error matches Some(e) && is_runtime_error(
                e,
                "SQL Server did not become ready in time"@,
                Some(spec_recent_lines(logs@, 30)),
            ) && fails_with(r, "sql-timeout"@, e)
        } else {
            moves_to(r, StartStep::WaitForSql, None)
        },
{
    if str_contains(logs, SQL_READY_MARKER) {
        StartDecision { next: StartStep::ConfirmRunning, set_state: None, error: None }
    } else if !container_running {
        let e = AppError::runtime(owned("SQL Server exited during startup"), Some(recent_lines(logs, 30)));
        fail("sql-startup", e)
    } else if past_deadline {
        let e = AppError::runtime(owned("SQL Server did not become ready in time"), Some(recent_lines(logs, 30)));
        fail("sql-timeout", e)
    } else {
        StartDecision { next: StartStep::WaitForSql, set_state: None, error: None }
    }
}

/// After reading the container's state once SQL Server is ready: running
/// at its address, or failed when the container is gone.
pub fn after_confirm(outcome: Result<ContainerState, AppError>) -> (r: StartDecision)
    ensures
        match outcome {
            Ok(ContainerState::Running { ip }) => moves_to(r, StartStep::Finished, Some(StateSpec::Running { ip: ip@ })),
            _ => r.error matches Some(e) && is_runtime_error(e, "container state lost after SQL became ready"@, None)
                && fails_with(r, "start"@, e),
        },
{
    match outcome {
        Ok(ContainerState::Running { ip }) => StartDecision {
            next: StartStep::Finished,
            set_state: Some(InstanceState::Running { ip }),
            error: None,
        },
        _ => {
            let e = AppError::runtime(owned("container state lost after SQL became ready"), None);
            fail("start", e)
        },
    }
}

/// The volume mounts of an instance: its data volume at the data directory.
pub fn data_volumes(instance: &Instance) -> (r: Vec<(String, String)>)
    ensures
        r@.len() == 1,
        r@[0].0@ == instance.id@ + "-data"@,
        r@[0].1@ == DATA_MOUNT@,
        sorted_keys(r@),
{
    let mut v: Vec<(String, String)> = Vec::new();
    v.push((instance.volume(), owned(DATA_MOUNT)));
    v
}

/// The container an instance runs as: named by its id, with the pinned
/// image, its memory, the EULA accepted, the sa password and SQL Server's
/// memory limit in the environment (in key order), and its data volume.
pub fn container_spec(instance: &Instance, password: String) -> (r: ContainerSpec)
    ensures
        r.name@ == instance.id@,
        r.image@ == instance.image@,
        r.memory_mb == instance.memory_mb,
        r.env@.len() == 3,
        r.env@[0].0@ == "ACCEPT_EULA"@ && r.env@[0].1@ == "Y"@,
        r.env@[1].0@ == "MSSQL_MEMORY_LIMIT_MB"@ && r.env@[1].1@ == dec_digits(instance.sql_memory_mb as nat),
        r.env@[2].0@ == "MSSQL_SA_PASSWORD"@ && r.env@[2].1@ == password@,
        sorted_keys(r.env@),
        r.volumes@.len() == 1,
        r.volumes@[0].0@ == instance.id@ + "-data"@,
        r.volumes@[0].1@ == DATA_MOUNT@,
{
    let mut env: Vec<(String, String)> = Vec::new();
    env.push((owned("ACCEPT_EULA"), owned("Y")));
    let mem = u64_dec(instance.sql_memory_mb as u64);
    env.push((owned("MSSQL_MEMORY_LIMIT_MB"), string_of(mem.as_slice())));
    env.push((owned("MSSQL_SA_PASSWORD"), password));
    proof {
        reveal_strlit("ACCEPT_EULA");
        reveal_strlit("MSSQL_MEMORY_LIMIT_MB");
        reveal_strlit("MSSQL_SA_PASSWORD");
        let a = "ACCEPT_EULA"@;
        let b = "MSSQL_MEMORY_LIMIT_MB"@;
        let c = "MSSQL_SA_PASSWORD"@;
        assert(seq_less(a, b));
        assert(b.skip(1).skip(1).skip(1).skip(1).skip(1).skip(1) =~= "MEMORY_LIMIT_MB"@) by {
            reveal_strlit("MEMORY_LIMIT_MB");
        }
        assert(c.skip(1).skip(1).skip(1).skip(1).skip(1).skip(1) =~= "SA_PASSWORD"@) by {
            reveal_strlit("SA_PASSWORD");
        }
        assert(seq_less(b, c)) by {
            reveal_with_fuel(seq_less, 8);
        }
        assert(seq_less(a, c));
    }
    ContainerSpec {
        name: owned(instance.id.as_str()),
        image: owned(instance.image.as_str()),
        memory_mb: instance.memory_mb,
        env,
        volumes: data_volumes(instance),
    }
}

} // verus!
