//! What the application is started with.

use vstd::prelude::*;

verus! {

/// The address under which clients reach the application. It has a type of
/// its own so that it cannot be taken for any other text.
#[derive(Debug, PartialEq, Eq)]
pub struct ApplicationBaseUrl(pub String);

impl Clone for ApplicationBaseUrl {
    fn clone(&self) -> (copy: ApplicationBaseUrl)
        ensures
            copy.0@ == self.0@,
    {
        ApplicationBaseUrl(self.0.clone())
    }
}

/// How a background task of the application came to its end.
#[derive(Debug, PartialEq, Eq)]
pub enum TaskExit {
    /// The task returned normally.
    Exited,
    /// The task returned an error, given by its chain of causes and by its
    /// own message.
    Failed { cause_chain: String, message: String },
    /// The task did not run to its end, for the reason given.
    FailedToComplete { cause_chain: String, message: String },
}

/// How much a line of the log matters.
#[derive(Debug, PartialEq, Eq, Clone, Copy, Structural)]
pub enum Level {
    Info,
    Error,
}

/// One line for the log: its level, its text, and the error it reports, if
/// it reports one.
#[derive(Debug, PartialEq, Eq)]
pub struct ExitReport {
    pub level: Level,
    pub message: String,
    pub cause_chain: Option<String>,
    pub error_message: Option<String>,
}

/// Says what to log when a background task has ended: that it has exited,
/// that it failed, or that it failed to complete, each time with the name
/// of the task in front.
pub fn report_exit(task: &str, out: TaskExit) -> (report: ExitReport)
    ensures
        match out {
            TaskExit::Exited => {
                &&& report.level == Level::Info
                &&& report.message@ == task@ + " has exited"@
                &&& report.cause_chain is None
                &&& report.error_message is None
            },
            TaskExit::Failed { cause_chain, message } => {
                &&& report.level == Level::Error
                &&& report.message@ == task@ + " failed"@
                &&& report.cause_chain == Some(cause_chain)
                &&& report.error_message == Some(message)
            },
            TaskExit::FailedToComplete { cause_chain, message } => {
                &&& report.level == Level::Error
                &&& report.message@ == task@ + " failed to complete"@
                &&& report.cause_chain == Some(cause_chain)
                &&& report.error_message == Some(message)
            },
        },
{
    let name = String::from_str(task);
    match out {
        TaskExit::Exited => ExitReport {
            level: Level::Info,
            message: name.concat(" has exited"),
            cause_chain: None,
            error_message: None,
        },
        TaskExit::Failed { cause_chain, message } => ExitReport {
            level: Level::Error,
            message: name.concat(" failed"),
            cause_chain: Some(cause_chain),
            error_message: Some(message),
        },
        TaskExit::FailedToComplete { cause_chain, message } => ExitReport {
            level: Level::Error,
            message: name.concat(" failed to complete"),
            cause_chain: Some(cause_chain),
            error_message: Some(message),
        },
    }
}

} // verus!
