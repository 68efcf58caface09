//! The orchestrator's chat-command grammar: `/help`, `/status`, `/logs`,
//! `/start`, `/stop`, `/restart` and `/run`, parsed from a free-form
//! message into a structured command.

use vstd::prelude::*;
use crate::text::{
    spec_tokens, split_tokens, str_eq, views_of, join_space, join_space_from, is_usize_numeral,
    numeral_body, dec_value, parse_usize,
};

verus! {

/// A parsed orchestrator command.
#[derive(Debug, Clone, PartialEq, Eq)]
pub enum OrchestratorCommand {
    Help,
    Status,
    Logs { agent: String, lines: Option<usize> },
    Restart { agent: String },
    Start { agent: String },
    Stop { agent: String },
    Run { agent: String, text: String },
}

/// Why a message failed to parse as a command.
#[derive(Debug, Clone, PartialEq, Eq)]
pub enum CommandError {
    Empty,
    LogsUsage,
    InvalidLineCount,
    RestartUsage,
    StartUsage,
    StopUsage,
    RunUsage,
    Unknown { command: String },
}

/// The commands that name an agent in their first argument.
pub open spec fn known_command(t: Seq<char>) -> bool {
    t == "/help"@ || t == "/status"@ || t == "/logs"@ || t == "/restart"@ || t == "/start"@ || t
        == "/stop"@ || t == "/run"@
}

/// The parsed command `c` is the one the token list `ts` denotes.
pub open spec fn spec_command_ok(ts: Seq<Seq<char>>, c: OrchestratorCommand) -> bool {
    ts.len() > 0 && match c {
        OrchestratorCommand::Help => ts[0] == "/help"@,
        OrchestratorCommand::Status => ts[0] == "/status"@,
        OrchestratorCommand::Logs { agent, lines } => ts[0] == "/logs"@ && ts.len() >= 2 && agent@
            == ts[1] && match lines {
            Some(v) => ts.len() >= 3 && is_usize_numeral(ts[2]) && v == dec_value(
                numeral_body(ts[2]),
            ),
            None => ts.len() == 2,
        },
        OrchestratorCommand::Restart { agent } => ts[0] == "/restart"@ && ts.len() >= 2 && agent@
            == ts[1],
        OrchestratorCommand::Start { agent } => ts[0] == "/start"@ && ts.len() >= 2 && agent@
            == ts[1],
        OrchestratorCommand::Stop { agent } => ts[0] == "/stop"@ && ts.len() >= 2 && agent@
            == ts[1],
        OrchestratorCommand::Run { agent, text } => ts[0] == "/run"@ && ts.len() >= 3 && agent@
            == ts[1] && text@ == join_space(ts.skip(2)),
    }
}

/// The error `e` is the one the token list `ts` earns.
pub open spec fn spec_command_err(ts: Seq<Seq<char>>, e: CommandError) -> bool {
    match e {
        CommandError::Empty => ts.len() == 0,
        CommandError::LogsUsage => ts.len() == 1 && ts[0] == "/logs"@,
        CommandError::InvalidLineCount => ts.len() >= 3 && ts[0] == "/logs"@ && !is_usize_numeral(
            ts[2],
        ),
        CommandError::RestartUsage => ts.len() == 1 && ts[0] == "/restart"@,
        CommandError::StartUsage => ts.len() == 1 && ts[0] == "/start"@,
        CommandError::StopUsage => ts.len() == 1 && ts[0] == "/stop"@,
        CommandError::RunUsage => ts.len() >= 1 && ts.len() <= 2 && ts[0] == "/run"@,
        CommandError::Unknown { command } => ts.len() >= 1 && command@ == ts[0] && !known_command(
            ts[0],
        ),
    }
}

/// Parses a chat message into an orchestrator command.
///
/// The message is split on whitespace; the first token selects the
/// command, the following tokens are its arguments, and anything after
/// the expected arguments is ignored except for `/run`, whose remaining
/// tokens become the job text joined by single spaces.
pub fn parse_command(input: &str) -> (r: Result<OrchestratorCommand, CommandError>)
    ensures
        match r {
            Ok(c) => spec_command_ok(spec_tokens(input@), c),
            Err(e) => spec_command_err(spec_tokens(input@), e),
        },
{
    let toks = split_tokens(input);
    let ghost ts = spec_tokens(input@);
    proof {
        assert(views_of(toks@) == ts);
    }
    if toks.len() == 0 {
        return Err(CommandError::Empty);
    }
    let cmd = &toks[0];
    proof {
        assert(cmd@ == ts[0]);
    }
    if str_eq(cmd.as_str(), "/help") {
        Ok(OrchestratorCommand::Help)
    } else if str_eq(cmd.as_str(), "/status") {
        Ok(OrchestratorCommand::Status)
    } else if str_eq(cmd.as_str(), "/logs") {
        if toks.len() < 2 {
            return Err(CommandError::LogsUsage);
        }
        let agent = toks[1].clone();
        if toks.len() >= 3 {
            match parse_usize(toks[2].as_str()) {
                Some(v) => Ok(OrchestratorCommand::Logs { agent, lines: Some(v) }),
                None => Err(CommandError::InvalidLineCount),
            }
        } else {
            Ok(OrchestratorCommand::Logs { agent, lines: None })
        }
    } else if str_eq(cmd.as_str(), "/restart") {
        if toks.len() < 2 {
            return Err(CommandError::RestartUsage);
        }
        Ok(OrchestratorCommand::Restart { agent: toks[1].clone() })
    } else if str_eq(cmd.as_str(), "/start") {
        if toks.len() < 2 {
            return Err(CommandError::StartUsage);
        }
        Ok(OrchestratorCommand::Start { agent: toks[1].clone() })
    } else if str_eq(cmd.as_str(), "/stop") {
        if toks.len() < 2 {
            return Err(CommandError::StopUsage);
        }
        Ok(OrchestratorCommand::Stop { agent: toks[1].clone() })
    } else if str_eq(cmd.as_str(), "/run") {
        if toks.len() < 3 {
            return Err(CommandError::RunUsage);
        }
        let text = join_space_from(&toks, 2);
        proof {
            assert(views_of(toks@).skip(2) == ts.skip(2));
        }
        Ok(OrchestratorCommand::Run { agent: toks[1].clone(), text })
    } else {
        Err(CommandError::Unknown { command: toks[0].clone() })
    }
}

impl CommandError {
    /// The human-readable message of the error, as the orchestrator
    /// reports it.
    pub fn message(&self) -> (r: String)
        ensures
            r@ == self.spec_message(),
    {
        match self {
            CommandError::Empty => "empty command".to_owned(),
            CommandError::LogsUsage => "usage: /logs <agent> [N]".to_owned(),
            CommandError::InvalidLineCount => "invalid line count".to_owned(),
            CommandError::RestartUsage => "usage: /restart <agent>".to_owned(),
            CommandError::StartUsage => "usage: /start <agent>".to_owned(),
            CommandError::StopUsage => "usage: /stop <agent>".to_owned(),
            CommandError::RunUsage => "usage: /run <agent> <text...>".to_owned(),
            CommandError::Unknown { command } => {
                let mut m = "unknown command: ".to_owned();
                m.append(command.as_str());
                m
            },
        }
    }

    pub open spec fn spec_message(&self) -> Seq<char> {
        match self {
            CommandError::Empty => "empty command"@,
            CommandError::LogsUsage => "usage: /logs <agent> [N]"@,
            CommandError::InvalidLineCount => "invalid line count"@,
            CommandError::RestartUsage => "usage: /restart <agent>"@,
            CommandError::StartUsage => "usage: /start <agent>"@,
            CommandError::StopUsage => "usage: /stop <agent>"@,
            CommandError::RunUsage => "usage: /run <agent> <text...>"@,
            CommandError::Unknown { command } => "unknown command: "@ + command@,
        }
    }
}

} // verus!
