//! What the platform layer decides about native results: tasks, the clock and the certificate.
use crate::error::{self, Cause, Error};
use vstd::prelude::*;

verus! {

pub const ANALYSIS_ROLE: u8 = 0;

pub const METRICS_ROLE: u8 = 1;

pub const RADIO_ROLE: u8 = 2;

/// How a task runs.
#[derive(Debug, Clone, Copy)]
pub struct TaskProfile {
    pub name: &'static str,
    pub stack_bytes: usize,
    pub priority: u8,
    pub core: u8,
}

/// The profile of each role.
pub open spec fn task_profile(role: u8) -> Option<TaskProfile> {
    if role == ANALYSIS_ROLE {
        Some(TaskProfile { name: "analysis", stack_bytes: 20_480, priority: 4, core: 1 })
    } else if role == METRICS_ROLE {
        Some(TaskProfile { name: "metrics", stack_bytes: 8192, priority: 2, core: 1 })
    } else if role == RADIO_ROLE {
        Some(TaskProfile { name: "radio", stack_bytes: 49_152, priority: 5, core: 0 })
    } else {
        None
    }
}

impl TaskProfile {
    pub fn of(role: u8) -> (result: Result<TaskProfile, Error>)
        ensures
            match result {
                Ok(profile) => task_profile(role) == Some(profile),
                Err(error) => task_profile(role) is None && error == (Error {
                    context: "invalid task role",
                    cause: None,
                }),
            },
    {
        match role {
            0 => Ok(
                TaskProfile { name: "analysis", stack_bytes: 20_480, priority: 4, core: 1 },
            ),
            1 => Ok(TaskProfile { name: "metrics", stack_bytes: 8192, priority: 2, core: 1 }),
            2 => Ok(TaskProfile { name: "radio", stack_bytes: 49_152, priority: 5, core: 0 }),
            _ => Err(Error::new("invalid task role")),
        }
    }
}

/// Whether saved task settings can be restored: a priority of zero stands for settings that
/// could not be read, in whose place the defaults are taken.
pub fn restorable(priority: u8) -> (result: bool)
    ensures
        result == (priority != 0),
{
    priority != 0
}

/// What the state of the clock asks for.
#[derive(Debug, Clone, Copy, PartialEq, Eq, Structural)]
pub enum ClockStep {
    Ready,
    Wait,
}

/// The clock is set (1), cannot be set (-1), or is not set yet.
pub fn clock_step(code: i32) -> (result: Result<ClockStep, Error>)
    ensures
        match result {
            Ok(ClockStep::Ready) => code == 1,
            Ok(ClockStep::Wait) => code != 1 && code != -1,
            Err(error) => code == -1 && error == (Error {
                context: "clock initialization failed",
                cause: None,
            }),
        },
{
    match code {
        1 => Ok(ClockStep::Ready),
        -1 => Err(Error::new("clock initialization failed")),
        _ => Ok(ClockStep::Wait),
    }
}

/// Room for a certificate and for its private key, in bytes of DER.
pub const CERTIFICATE_BYTES: usize = 2048;

pub const PRIVATE_KEY_BYTES: usize = 512;

/// The lengths of a certificate and its key that were generated into the room for them. After an
/// error the caller clears the key.
pub fn certificate_lengths(code: i32, certificate: usize, key: usize) -> (result: Result<
    (usize, usize),
    Error,
>)
    ensures
        match result {
            Ok(lengths) => {
                &&& code == 0
                &&& certificate <= CERTIFICATE_BYTES
                &&& key <= PRIVATE_KEY_BYTES
                &&& lengths == (certificate, key)
            },
            Err(error) => if code != 0 {
                error == (Error {
                    context: "certificate generation failed",
                    cause: Some(Cause::Native(code)),
                })
            } else {
                &&& certificate > CERTIFICATE_BYTES || key > PRIVATE_KEY_BYTES
                &&& error == (Error { context: "invalid certificate output length", cause: None })
            },
        },
{
    match error::check(code, "certificate generation failed") {
        Err(error) => Err(error),
        Ok(()) => if certificate > CERTIFICATE_BYTES || key > PRIVATE_KEY_BYTES {
            Err(Error::new("invalid certificate output length"))
        } else {
            Ok((certificate, key))
        },
    }
}

/// Analysis and metrics run on core 1 and the radio on core 0, before both of them; no other role
/// has a profile.
pub proof fn lemma_tasks_run_where_they_belong(role: u8)
    ensures
        task_profile(role) is Some <==> role < 3,
        task_profile(0) matches Some(profile) && profile.name == "analysis" && profile.core == 1
            && profile.priority == 4 && profile.stack_bytes == 20 * 1024,
        task_profile(1) matches Some(profile) && profile.name == "metrics" && profile.core == 1
            && profile.priority == 2 && profile.stack_bytes == 8 * 1024,
        task_profile(2) matches Some(profile) && profile.name == "radio" && profile.core == 0
            && profile.priority == 5 && profile.stack_bytes == 48 * 1024,
        CERTIFICATE_BYTES == 2048,
        PRIVATE_KEY_BYTES == 512,
{
}

} // verus!
