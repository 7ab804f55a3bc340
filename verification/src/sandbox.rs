use vstd::prelude::*;
use crate::error::WorkerError;

verus! {

/// The state a sandbox reports about itself.
#[derive(Clone, Copy, Debug, PartialEq, Eq, Structural)]
pub enum ContainerStatus {
    /// The sandbox is being created.
    Creating,
    /// The runtime has finished creating it; its program has not run yet.
    Created,
    /// Its program runs.
    Running,
    /// Its program has exited.
    Stopped,
    /// Its program is paused.
    Paused,
}

/// One sandbox, as far as the worker needs it.
pub trait ContainerWrapper {
    /// The bundle directory the sandbox was made from.
    fn bundle(&self) -> String;

    /// What the sandbox last reported of itself.
    fn status(&self) -> ContainerStatus;

    fn start(&mut self) -> Result<(), WorkerError>;
}

/// The sandbox runtime: it builds a sandbox from a bundle, starts one, and
/// loads one that is already described on disk.
pub trait ContainerOps {
    type Container: ContainerWrapper;

    fn build_container(&self, instance_id: String, root_path: String, rootfs: String) -> Result<
        Self::Container,
        WorkerError,
    >;

    fn start_container(&self, container: &mut Self::Container) -> Result<(), WorkerError>;

    fn load_container(&self, path: String) -> Result<Self::Container, WorkerError>;
}

} // verus!
