use zeroclaw::commands::{CommandError, OrchestratorCommand, parse_command};
use zeroclaw::orchestrator::{
    Orchestrator, OrchestratorConfig, OrchestratorError, clamp_log_lines, is_safe_name,
    is_safe_service_prefix, make_job, complete_job, job_completed_message, job_pending_message,
    act_message, logs_message, status_line,
};

fn orchestrator() -> Orchestrator {
    Orchestrator::from_config(OrchestratorConfig {
        enabled: true,
        allowed_agents: vec!["alpha".to_string(), "beta".to_string()],
        service_prefix: "zeroclaw-".to_string(),
        max_log_lines: 50,
    })
}

#[test]
fn parse_basic_commands() {
    assert_eq!(parse_command("/help"), Ok(OrchestratorCommand::Help));
    assert_eq!(parse_command("  /status  "), Ok(OrchestratorCommand::Status));
    assert_eq!(parse_command(""), Err(CommandError::Empty));
    assert_eq!(parse_command("   "), Err(CommandError::Empty));
    assert_eq!(
        parse_command("/frobnicate"),
        Err(CommandError::Unknown { command: "/frobnicate".to_string() })
    );
}

#[test]
fn parse_logs_command() {
    assert_eq!(
        parse_command("/logs alpha"),
        Ok(OrchestratorCommand::Logs { agent: "alpha".to_string(), lines: None })
    );
    assert_eq!(
        parse_command("/logs alpha 25"),
        Ok(OrchestratorCommand::Logs { agent: "alpha".to_string(), lines: Some(25) })
    );
    assert_eq!(parse_command("/logs"), Err(CommandError::LogsUsage));
    assert_eq!(parse_command("/logs alpha many"), Err(CommandError::InvalidLineCount));
}

#[test]
fn parse_service_commands() {
    assert_eq!(
        parse_command("/restart alpha"),
        Ok(OrchestratorCommand::Restart { agent: "alpha".to_string() })
    );
    assert_eq!(
        parse_command("/start alpha"),
        Ok(OrchestratorCommand::Start { agent: "alpha".to_string() })
    );
    assert_eq!(
        parse_command("/stop alpha"),
        Ok(OrchestratorCommand::Stop { agent: "alpha".to_string() })
    );
    assert_eq!(parse_command("/restart"), Err(CommandError::RestartUsage));
    assert_eq!(parse_command("/start"), Err(CommandError::StartUsage));
    assert_eq!(parse_command("/stop"), Err(CommandError::StopUsage));
}

#[test]
fn parse_run_command_joins_text() {
    assert_eq!(
        parse_command("/run alpha do   the  thing"),
        Ok(OrchestratorCommand::Run {
            agent: "alpha".to_string(),
            text: "do the thing".to_string()
        })
    );
    assert_eq!(parse_command("/run alpha"), Err(CommandError::RunUsage));
    assert_eq!(parse_command("/run"), Err(CommandError::RunUsage));
}

#[test]
fn command_error_messages() {
    assert_eq!(CommandError::Empty.message(), "empty command");
    assert_eq!(CommandError::LogsUsage.message(), "usage: /logs <agent> [N]");
    assert_eq!(CommandError::InvalidLineCount.message(), "invalid line count");
    assert_eq!(CommandError::RestartUsage.message(), "usage: /restart <agent>");
    assert_eq!(CommandError::StartUsage.message(), "usage: /start <agent>");
    assert_eq!(CommandError::StopUsage.message(), "usage: /stop <agent>");
    assert_eq!(CommandError::RunUsage.message(), "usage: /run <agent> <text...>");
    assert_eq!(
        CommandError::Unknown { command: "/x".to_string() }.message(),
        "unknown command: /x"
    );
}

#[test]
fn safe_name_checks() {
    assert!(is_safe_name("agent-1_x"));
    assert!(!is_safe_name(""));
    assert!(!is_safe_name("bad name"));
    assert!(!is_safe_name("semi;colon"));
    assert!(is_safe_service_prefix("zeroclaw-@"));
    assert!(!is_safe_service_prefix("bad prefix"));
    assert!(!is_safe_service_prefix(""));
}

#[test]
fn orchestrator_enablement_and_allowlist() {
    let orch = orchestrator();
    assert!(orch.is_enabled());
    assert_eq!(orch.ensure_allowed("alpha"), Ok(()));
    assert_eq!(orch.ensure_allowed("gamma"), Err(OrchestratorError::NotAllowlisted));
    assert_eq!(orch.ensure_allowed("bad name"), Err(OrchestratorError::InvalidAgentName));
}

#[test]
fn service_name_is_prefixed_unit() {
    let orch = orchestrator();
    assert_eq!(orch.service_name("alpha"), Ok("zeroclaw-alpha.service".to_string()));
    assert_eq!(orch.service_name("gamma"), Err(OrchestratorError::NotAllowlisted));

    let bad = Orchestrator::from_config(OrchestratorConfig {
        enabled: true,
        allowed_agents: vec!["alpha".to_string()],
        service_prefix: "bad prefix".to_string(),
        max_log_lines: 10,
    });
    assert_eq!(bad.service_name("alpha"), Err(OrchestratorError::InvalidServicePrefix));
}

#[test]
fn help_text_lists_agents() {
    let orch = orchestrator();
    let help = orch.help_text();
    assert!(help.starts_with("Orchestrator commands:\n/help\n"));
    assert!(help.ends_with("Allowed agents: alpha, beta"));
}

#[test]
fn log_lines_are_clamped() {
    assert_eq!(clamp_log_lines(None, 50), 50);
    assert_eq!(clamp_log_lines(Some(10), 50), 10);
    assert_eq!(clamp_log_lines(Some(500), 50), 50);
    assert_eq!(clamp_log_lines(Some(0), 50), 1);
    assert_eq!(clamp_log_lines(None, 0), 1);
}

#[test]
fn jobs_carry_fresh_ids_and_timestamps() {
    let job = make_job("alpha", "do the thing");
    assert_eq!(job.agent, "alpha");
    assert_eq!(job.text, "do the thing");
    // a hyphenated random identifier
    assert_eq!(job.id.len(), 36);
    assert_eq!(job.id.matches('-').count(), 4);
    // an RFC 3339 timestamp
    assert!(job.created_at.contains('T'));
    let other = make_job("alpha", "do the thing");
    assert_ne!(job.id, other.id);
}

#[test]
fn job_outcomes_record_status_and_summary() {
    let job = make_job("alpha", "t");
    let ok = complete_job(&job, Ok(()), "2024-01-01T00:00:00+00:00");
    assert_eq!(ok.status, "ok");
    assert_eq!(ok.summary, "job completed");
    assert_eq!(ok.created_at, "2024-01-01T00:00:00+00:00");
    assert_eq!(ok.id, job.id);

    let err = complete_job(&job, Err("boom".to_string()), "2024-01-01T00:00:00+00:00");
    assert_eq!(err.status, "error");
    assert_eq!(err.summary, "job failed: boom");
}

#[test]
fn reply_texts_are_exact() {
    let job = make_job("alpha", "t");
    let done = complete_job(&job, Ok(()), "s");
    let msg = job_completed_message(&done, "/r/alpha/1.json");
    assert!(msg.starts_with(&format!("Job {} completed: ok\nSummary: job completed\n", job.id)));
    assert!(msg.ends_with("Result path: /r/alpha/1.json"));

    assert_eq!(
        job_pending_message("id1", "alpha", "/q/alpha/id1.json"),
        "Job id1 queued for alpha, still processing. Queue path: /q/alpha/id1.json"
    );
    assert_eq!(
        act_message("restart", "zeroclaw-alpha.service", "active"),
        "restart requested for zeroclaw-alpha.service. Current state: active"
    );
    assert_eq!(
        logs_message("alpha", "zeroclaw-alpha.service", "line1\n"),
        "Logs for alpha (zeroclaw-alpha.service):\nline1\n"
    );
    assert_eq!(
        status_line("alpha", "active", "l1"),
        "\n- alpha: active\nl1\n"
    );
}
