//! The orchestrator: a chat-driven supervisor of allow-listed agent
//! services.  The decisions and renderings live here — agent-name
//! safety, the allow-list, service-name construction, log-line
//! clamping, job construction and the text of every reply — while the
//! caller performs the service control and the queue I/O they direct.

use vstd::prelude::*;
use crate::eligibility::seq_contains_str;
use crate::text::{views_of, join_with, join_strings};

verus! {

/// The orchestrator's configuration.
#[derive(Debug, Clone)]
pub struct OrchestratorConfig {
    pub enabled: bool,
    pub allowed_agents: Vec<String>,
    pub service_prefix: String,
    pub max_log_lines: usize,
}

/// The orchestrator: its configuration and the queue and result
/// directories its jobs go through.
#[derive(Debug, Clone)]
pub struct Orchestrator {
    pub config: OrchestratorConfig,
    pub queue_root: String,
    pub results_root: String,
}

/// A queued agent job.
#[derive(Debug, Clone)]
pub struct AgentJob {
    pub id: String,
    pub agent: String,
    pub text: String,
    pub created_at: String,
}

/// The recorded outcome of an agent job.
#[derive(Debug, Clone)]
pub struct AgentJobResult {
    pub id: String,
    pub agent: String,
    pub status: String,
    pub summary: String,
    pub created_at: String,
    pub finished_at: String,
}

/// Why the orchestrator refused a request.
#[derive(Debug, Clone, Copy, PartialEq, Eq, Structural)]
pub enum OrchestratorError {
    InvalidAgentName,
    NotAllowlisted,
    InvalidServicePrefix,
    UnsupportedAction,
}

impl OrchestratorError {
    pub fn message(&self) -> (r: &'static str)
        ensures
            r@ == self.spec_message(),
    {
        match self {
            OrchestratorError::InvalidAgentName => "invalid agent name",
            OrchestratorError::NotAllowlisted => "agent is not allowlisted",
            OrchestratorError::InvalidServicePrefix => "invalid orchestrator service_prefix",
            OrchestratorError::UnsupportedAction => "unsupported action",
        }
    }

    pub open spec fn spec_message(&self) -> Seq<char> {
        match self {
            OrchestratorError::InvalidAgentName => "invalid agent name"@,
            OrchestratorError::NotAllowlisted => "agent is not allowlisted"@,
            OrchestratorError::InvalidServicePrefix => "invalid orchestrator service_prefix"@,
            OrchestratorError::UnsupportedAction => "unsupported action"@,
        }
    }
}

/// A safe agent name: non-empty ASCII letters, digits, dashes and
/// underscores.
pub open spec fn spec_safe_name(s: Seq<char>) -> bool {
    s.len() > 0 && forall|i: int| 0 <= i < s.len() ==> safe_name_char(#[trigger] s[i])
}

pub open spec fn safe_name_char(c: char) -> bool {
    let n = c as u32;
    (48 <= n && n <= 57) || (65 <= n && n <= 90) || (97 <= n && n <= 122) || c == '-' || c == '_'
}

/// Checks an agent name against the safe-name alphabet.
pub fn is_safe_name(value: &str) -> (r: bool)
    ensures
        r == spec_safe_name(value@),
{
    let n: usize = value.unicode_len();
    if n == 0 {
        return false;
    }
    let mut i: usize = 0;
    while i < n
        invariant
            n == value@.len(),
            i <= n,
            forall|j: int| 0 <= j < i ==> safe_name_char(#[trigger] value@[j]),
        decreases n - i,
    {
        let c = value.get_char(i);
        let cv = c as u32;
        let ok = (48 <= cv && cv <= 57) || (65 <= cv && cv <= 90) || (97 <= cv && cv <= 122) || c
            == '-' || c == '_';
        if !ok {
            return false;
        }
        i = i + 1;
    }
    true
}

/// A safe service prefix: the safe-name alphabet plus `'@'`.
pub open spec fn spec_safe_service_prefix(s: Seq<char>) -> bool {
    s.len() > 0 && forall|i: int|
        0 <= i < s.len() ==> safe_name_char(#[trigger] s[i]) || s[i] == '@'
}

pub fn is_safe_service_prefix(value: &str) -> (r: bool)
    ensures
        r == spec_safe_service_prefix(value@),
{
    let n: usize = value.unicode_len();
    if n == 0 {
        return false;
    }
    let mut i: usize = 0;
    while i < n
        invariant
            n == value@.len(),
            i <= n,
            forall|j: int| 0 <= j < i ==> safe_name_char(#[trigger] value@[j]) || value@[j] == '@',
        decreases n - i,
    {
        let c = value.get_char(i);
        let cv = c as u32;
        let ok = (48 <= cv && cv <= 57) || (65 <= cv && cv <= 90) || (97 <= cv && cv <= 122) || c
            == '-' || c == '_' || c == '@';
        if !ok {
            return false;
        }
        i = i + 1;
    }
    true
}

/// The log-line count actually requested: the explicit count or the
/// configured maximum, never above that maximum and never below one.
pub open spec fn spec_clamp_log_lines(requested: Option<usize>, max: usize) -> int {
    let want = match requested {
        Some(v) => v as int,
        None => max as int,
    };
    let capped = if want <= max as int {
        want
    } else {
        max as int
    };
    if capped >= 1 {
        capped
    } else {
        1
    }
}

pub fn clamp_log_lines(requested: Option<usize>, max: usize) -> (r: usize)
    ensures
        r as int == spec_clamp_log_lines(requested, max),
{
    let want = match requested {
        Some(v) => v,
        None => max,
    };
    let capped = if want <= max {
        want
    } else {
        max
    };
    if capped >= 1 {
        capped
    } else {
        1
    }
}

impl Orchestrator {
    /// Builds the orchestrator over the fixed queue layout.
    pub fn from_config(config: OrchestratorConfig) -> (r: Orchestrator)
        ensures
            r.config == config,
            r.queue_root@ == "/var/lib/clawpilot/queue"@,
            r.results_root@ == "/var/lib/clawpilot/results"@,
    {
        Orchestrator {
            config,
            queue_root: "/var/lib/clawpilot/queue".to_owned(),
            results_root: "/var/lib/clawpilot/results".to_owned(),
        }
    }

    pub fn is_enabled(&self) -> (r: bool)
        ensures
            r == self.config.enabled,
    {
        self.config.enabled
    }

    /// The `/help` reply: the command list and the allow-list.
    pub fn help_text(&self) -> (r: String)
        ensures
            r@ == "Orchestrator commands:\n/help\n/status\n/logs <agent> [N]\n/start <agent>\n/stop <agent>\n/restart <agent>\n/run <agent> <text...>\n\nAllowed agents: "@
                + join_with(views_of(self.config.allowed_agents@), ", "@),
    {
        let mut out =
            "Orchestrator commands:\n/help\n/status\n/logs <agent> [N]\n/start <agent>\n/stop <agent>\n/restart <agent>\n/run <agent> <text...>\n\nAllowed agents: ".to_owned();
        let joined = join_strings(&self.config.allowed_agents, ", ");
        out.append(joined.as_str());
        out
    }

    /// Accepts exactly the safe, allow-listed agent names.
    pub fn ensure_allowed(&self, agent: &str) -> (r: Result<(), OrchestratorError>)
        ensures
            match r {
                Ok(_) => spec_safe_name(agent@) && seq_contains_str(
                    self.config.allowed_agents@,
                    agent@,
                ),
                Err(e) => {
                    ||| (e == OrchestratorError::InvalidAgentName && !spec_safe_name(agent@))
                    ||| (e == OrchestratorError::NotAllowlisted && spec_safe_name(agent@)
                        && !seq_contains_str(self.config.allowed_agents@, agent@))
                },
            },
    {
        if !is_safe_name(agent) {
            return Err(OrchestratorError::InvalidAgentName);
        }
        if !crate::eligibility::contains_string(&self.config.allowed_agents, agent) {
            return Err(OrchestratorError::NotAllowlisted);
        }
        Ok(())
    }

    /// The systemd unit an allow-listed agent runs as.
    pub fn service_name(&self, agent: &str) -> (r: Result<String, OrchestratorError>)
        ensures
            match r {
                Ok(s) => spec_safe_name(agent@) && seq_contains_str(
                    self.config.allowed_agents@,
                    agent@,
                ) && spec_safe_service_prefix(self.config.service_prefix@) && s@
                    == self.config.service_prefix@ + agent@ + ".service"@,
                Err(e) => {
                    ||| (e == OrchestratorError::InvalidAgentName && !spec_safe_name(agent@))
                    ||| (e == OrchestratorError::NotAllowlisted && spec_safe_name(agent@)
                        && !seq_contains_str(self.config.allowed_agents@, agent@))
                    ||| (e == OrchestratorError::InvalidServicePrefix && !spec_safe_service_prefix(
                        self.config.service_prefix@,
                    ))
                },
            },
    {
        match self.ensure_allowed(agent) {
            Ok(_) => {},
            Err(e) => {
                return Err(e);
            },
        }
        if !is_safe_service_prefix(self.config.service_prefix.as_str()) {
            return Err(OrchestratorError::InvalidServicePrefix);
        }
        let mut s = self.config.service_prefix.clone();
        s.append(agent);
        s.append(".service");
        Ok(s)
    }
}

/// Relies on `uuid::Uuid::new_v4` and its `Display` rendering: a fresh
/// random identifier in hyphenated form.  The value is random, so
/// nothing more is promised of it.
#[verifier::external_body]
fn fresh_job_id() -> (r: String) {
    uuid::Uuid::new_v4().to_string()
}

/// Relies on `chrono::Utc::now` and `DateTime::to_rfc3339`: the
/// current time in RFC 3339 form.  The value depends on the clock, so
/// nothing more is promised of it.
#[verifier::external_body]
fn current_timestamp() -> (r: String) {
    chrono::Utc::now().to_rfc3339()
}

/// Builds a job for an agent: a fresh random identifier, the creation
/// time, and the given agent and text.
pub fn make_job(agent: &str, text: &str) -> (j: AgentJob)
    ensures
        j.agent@ == agent@,
        j.text@ == text@,
{
    AgentJob {
        id: fresh_job_id(),
        agent: agent.to_owned(),
        text: text.to_owned(),
        created_at: current_timestamp(),
    }
}

/// Records a finished job: status `ok` with a fixed summary on
/// success, status `error` with the failure appended on error.
pub fn complete_job(job: &AgentJob, outcome: Result<(), String>, started: &str) -> (r:
    AgentJobResult)
    ensures
        r.id@ == job.id@,
        r.agent@ == job.agent@,
        r.created_at@ == started@,
        match outcome {
            Ok(_) => r.status@ == "ok"@ && r.summary@ == "job completed"@,
            Err(e) => r.status@ == "error"@ && r.summary@ == "job failed: "@ + e@,
        },
{
    let (status, summary): (String, String) = match outcome {
        Ok(_) => ("ok".to_owned(), "job completed".to_owned()),
        Err(e) => {
            let mut m = "job failed: ".to_owned();
            m.append(e.as_str());
            ("error".to_owned(), m)
        },
    };
    AgentJobResult {
        id: job.id.clone(),
        agent: job.agent.clone(),
        status,
        summary,
        created_at: started.to_owned(),
        finished_at: current_timestamp(),
    }
}

/// The `/run` reply for a completed job.
pub fn job_completed_message(result: &AgentJobResult, result_path: &str) -> (r: String)
    ensures
        r@ == "Job "@ + result.id@ + " completed: "@ + result.status@ + "\nSummary: "@
            + result.summary@ + "\nResult path: "@ + result_path@,
{
    let mut m = "Job ".to_owned();
    m.append(result.id.as_str());
    m.append(" completed: ");
    m.append(result.status.as_str());
    m.append("\nSummary: ");
    m.append(result.summary.as_str());
    m.append("\nResult path: ");
    m.append(result_path);
    m
}

/// The `/run` reply for a job still in the queue at the deadline.
pub fn job_pending_message(job_id: &str, agent: &str, queue_path: &str) -> (r: String)
    ensures
        r@ == "Job "@ + job_id@ + " queued for "@ + agent@ + ", still processing. Queue path: "@
            + queue_path@,
{
    let mut m = "Job ".to_owned();
    m.append(job_id);
    m.append(" queued for ");
    m.append(agent);
    m.append(", still processing. Queue path: ");
    m.append(queue_path);
    m
}

/// The reply to a `/start`, `/stop` or `/restart` request.
pub fn act_message(action: &str, service: &str, active: &str) -> (r: String)
    ensures
        r@ == action@ + " requested for "@ + service@ + ". Current state: "@ + active@,
{
    let mut m = action.to_owned();
    m.append(" requested for ");
    m.append(service);
    m.append(". Current state: ");
    m.append(active);
    m
}

/// The header of a `/logs` reply.
pub fn logs_message(agent: &str, service: &str, output: &str) -> (r: String)
    ensures
        r@ == "Logs for "@ + agent@ + " ("@ + service@ + "):\n"@ + output@,
{
    let mut m = "Logs for ".to_owned();
    m.append(agent);
    m.append(" (");
    m.append(service);
    m.append("):\n");
    m.append(output);
    m
}

/// One agent's line in a `/status` reply.
pub fn status_line(agent: &str, active: &str, logs: &str) -> (r: String)
    ensures
        r@ == "\n- "@ + agent@ + ": "@ + active@ + "\n"@ + logs@ + "\n"@,
{
    let mut m = "\n- ".to_owned();
    m.append(agent);
    m.append(": ");
    m.append(active);
    m.append("\n");
    m.append(logs);
    m.append("\n");
    m
}

} // verus!
