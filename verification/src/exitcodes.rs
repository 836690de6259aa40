//! Process exit codes: 0 is success, each error has its own code in 1..=255, and a
//! code once given is never reused.

use vstd::prelude::*;

verus! {

/// The exit codes of the Chicken programs.
#[derive(Copy, Clone, Debug, Eq, PartialEq, Structural)]
pub enum ExitCode {
    /// Unclassified fatal error (fallback).
    GenericFatal,
    ServerStartupFailed,
    ServerShutdownFailed,
    ServerGoingPublicFailed,
    ServerGoingPrivateFailed,
}

/// The number of each exit code.
pub open spec fn exit_code_number(c: ExitCode) -> u8 {
    match c {
        ExitCode::GenericFatal => 1,
        ExitCode::ServerStartupFailed => 2,
        ExitCode::ServerShutdownFailed => 3,
        ExitCode::ServerGoingPublicFailed => 4,
        ExitCode::ServerGoingPrivateFailed => 5,
    }
}

/// The description of each exit code.
pub open spec fn exit_code_text(c: ExitCode) -> Seq<char> {
    match c {
        ExitCode::GenericFatal => "Generic fatal error"@,
        ExitCode::ServerStartupFailed => "Server startup process failed. Read logs for details."@,
        ExitCode::ServerShutdownFailed => "Server shutdown failed. Read logs for details."@,
        ExitCode::ServerGoingPublicFailed => "Server going public failed. Read logs for details."@,
        ExitCode::ServerGoingPrivateFailed => "Server going private failed. Read logs for details."@,
    }
}

impl ExitCode {
    /// The numeric exit code (1..=255).
    pub fn code(self) -> (r: u8)
        ensures
            r == exit_code_number(self),
            r != 0,
    {
        match self {
            ExitCode::GenericFatal => 1,
            ExitCode::ServerStartupFailed => 2,
            ExitCode::ServerShutdownFailed => 3,
            ExitCode::ServerGoingPublicFailed => 4,
            ExitCode::ServerGoingPrivateFailed => 5,
        }
    }

    /// What the code means.
    pub fn description(self) -> (r: &'static str)
        ensures
            r@ == exit_code_text(self),
    {
        match self {
            ExitCode::GenericFatal => "Generic fatal error",
            ExitCode::ServerStartupFailed => "Server startup process failed. Read logs for details.",
            ExitCode::ServerShutdownFailed => "Server shutdown failed. Read logs for details.",
            ExitCode::ServerGoingPublicFailed => "Server going public failed. Read logs for details.",
            ExitCode::ServerGoingPrivateFailed => "Server going private failed. Read logs for details.",
        }
    }
}

/// Different exit codes have different numbers, and none is 0.
pub proof fn exit_codes_distinct(a: ExitCode, b: ExitCode)
    ensures
        exit_code_number(a) != 0,
        exit_code_number(a) == exit_code_number(b) ==> a == b,
{
}

} // verus!
