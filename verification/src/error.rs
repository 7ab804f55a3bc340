use vstd::prelude::*;

verus! {

/// Why an operation of the worker failed.
#[derive(Clone, Copy, Debug, PartialEq, Eq, Structural)]
pub enum WorkerError {
    /// The bundle directory is already there: provisioning is refused.
    AlreadyExists,
    /// The sandbox to reattach, or its configuration, is missing.
    NotFound,
    /// Copying, writing or removing files failed.
    IoFailure,
    /// No runtime specification could be built for the identity.
    SpecConstruction,
    /// The sandbox runtime rejected the bundle.
    SandboxBuildFailure,
    /// The sandbox runtime could not start the sandbox.
    SandboxStartFailure,
    /// The socket address of the sandbox is no URL.
    InvalidAddress,
    /// A setting taken from the environment is malformed.
    ConfigurationError,
}

impl WorkerError {
    /// The text that stands for this error in messages.
    pub open spec fn text(self) -> Seq<char> {
        match self {
            WorkerError::AlreadyExists => "root filesystem path already exists"@,
            WorkerError::NotFound => "sandbox not found"@,
            WorkerError::IoFailure => "filesystem operation failed"@,
            WorkerError::SpecConstruction => "runtime specification could not be built"@,
            WorkerError::SandboxBuildFailure => "sandbox could not be built"@,
            WorkerError::SandboxStartFailure => "sandbox could not be started"@,
            WorkerError::InvalidAddress => "sandbox address is not a URL"@,
            WorkerError::ConfigurationError => "invalid configuration"@,
        }
    }

    pub fn message(&self) -> (text: &'static str)
        ensures
            text@ == self.text(),
    {
        match self {
            WorkerError::AlreadyExists => "root filesystem path already exists",
            WorkerError::NotFound => "sandbox not found",
            WorkerError::IoFailure => "filesystem operation failed",
            WorkerError::SpecConstruction => "runtime specification could not be built",
            WorkerError::SandboxBuildFailure => "sandbox could not be built",
            WorkerError::SandboxStartFailure => "sandbox could not be started",
            WorkerError::InvalidAddress => "sandbox address is not a URL",
            WorkerError::ConfigurationError => "invalid configuration",
        }
    }
}

} // verus!
