//! Typed event names and payloads pushed to the frontend.

use crate::error::AppError;
use crate::instances::model::{InstanceState, StateSpec};
use crate::text::owned;
use vstd::prelude::*;

verus! {

pub const INSTANCE_STATE: &'static str = "instance:state";
pub const IMAGE_PULL_PROGRESS: &'static str = "image:pull-progress";
pub const QUERY_STARTED: &'static str = "query:started";
pub const QUERY_RESULT_SET: &'static str = "query:result-set";
pub const QUERY_ROWS: &'static str = "query:rows";
pub const QUERY_MESSAGE: &'static str = "query:message";
pub const QUERY_FINISHED: &'static str = "query:finished";
pub const SESSION_RESET: &'static str = "session:reset";
pub const RESTORE_PROGRESS: &'static str = "restore:progress";
pub const IMPORT_PROGRESS: &'static str = "import:progress";
pub const BACKUP_PROGRESS: &'static str = "backup:progress";
pub const JOB_DONE: &'static str = "job:done";
pub const RUNTIME_FATAL: &'static str = "runtime:fatal";

pub struct InstanceStatePayload {
    pub instance_id: String,
    pub state: String,
    pub detail: Option<String>,
}

pub struct JobDonePayload {
    pub job_id: String,
    pub ok: bool,
    pub error: Option<String>,
}

/// The state-change event of an instance: the state's label, with the
/// failure detail or the running address as detail.
pub fn instance_state_payload(instance_id: &str, state: &InstanceState) -> (r: InstanceStatePayload)
    ensures
        r.instance_id@ == instance_id@,
        r.state@ == state.spec_label(),
        match state@ {
            StateSpec::Failed { detail, .. } => r.detail matches Some(d) && d@ == detail,
            StateSpec::Running { ip } => r.detail matches Some(d) && d@ == ip,
            _ => r.detail is None,
        },
{
    let detail = match state {
        InstanceState::Failed { detail, .. } => Some(owned(detail.as_str())),
        InstanceState::Running { ip } => Some(owned(ip.as_str())),
        _ => None,
    };
    InstanceStatePayload { instance_id: owned(instance_id), state: owned(state.label()), detail }
}

/// The completion event of a background job.
pub fn job_done_payload(job_id: String, result: &Result<(), AppError>) -> (r: JobDonePayload)
    ensures
        r.job_id == job_id,
        r.ok == (result is Ok),
        match result {
            Ok(_) => r.error is None,
            Err(e) => r.error matches Some(m) && m@ == e.spec_message(),
        },
{
    match result {
        Ok(_) => JobDonePayload { job_id, ok: true, error: None },
        Err(e) => JobDonePayload { job_id, ok: false, error: Some(e.message()) },
    }
}

} // verus!
