use vstd::prelude::*;
use crate::endpoint::{endpoint_for, endpoint_of, parsed_url};
use crate::error::WorkerError;
use crate::layout::{child_of, join, socket_address};
use crate::sandbox::{ContainerOps, ContainerStatus, ContainerWrapper};
use url::Url;
use vstd::string::*;

verus! {

/// What reattaching has to do with a sandbox that was loaded.
#[derive(Clone, Copy, Debug, PartialEq, Eq, Structural)]
pub enum ReattachStep {
    /// Start the sandbox, once.
    Start,
    /// Leave the sandbox as it is.
    AsIs,
}

/// What reattaching does with a sandbox that reports `status`: a running one
/// is left alone, any other is started once.
pub open spec fn reattach_step_of(status: ContainerStatus) -> ReattachStep {
    if status == ContainerStatus::Running {
        ReattachStep::AsIs
    } else {
        ReattachStep::Start
    }
}

pub fn reattach_step(status: ContainerStatus) -> (step: ReattachStep)
    ensures
        step == reattach_step_of(status),
{
    match status {
        ContainerStatus::Running => ReattachStep::AsIs,
        _ => ReattachStep::Start,
    }
}

/// What tearing a bundle down has to do on disk.
#[derive(Debug)]
pub enum CleanupStep {
    /// Remove the directory `path` with all it holds.
    RemoveTree { path: String },
    /// The directory is not there: nothing is left to remove.
    Nothing,
}

/// What a [`CleanupStep`] says, over plain text.
pub enum CleanupModel {
    RemoveTree { path: Seq<char> },
    Nothing,
}

impl View for CleanupStep {
    type V = CleanupModel;

    open spec fn view(&self) -> CleanupModel {
        match self {
            CleanupStep::RemoveTree { path } => CleanupModel::RemoveTree { path: path@ },
            CleanupStep::Nothing => CleanupModel::Nothing,
        }
    }
}

/// What cleaning up the bundle directory `bundle` takes, given whether the
/// directory exists.
pub open spec fn cleanup_of(bundle: Seq<char>, bundle_exists: bool) -> CleanupModel {
    if bundle_exists {
        CleanupModel::RemoveTree { path: bundle }
    } else {
        CleanupModel::Nothing
    }
}

/// The handle of one sandbox: it binds an instance to a sandbox that is
/// started.
pub struct ProccesContainer<W: ContainerWrapper> {
    pub container: W,
}

/// What comes of one start: the handle of the sandbox as the start left
/// it, or the error of the start. No handle is given for a sandbox whose
/// start failed.
pub open spec fn started<W: ContainerWrapper>(after: W, outcome: Result<(), WorkerError>) -> Result<
    ProccesContainer<W>,
    WorkerError,
> {
    match outcome {
        Ok(_) => Ok(ProccesContainer { container: after }),
        Err(e) => Err(e),
    }
}

impl<W: ContainerWrapper> ProccesContainer<W> {
    /// Builds the sandbox of the instance `digest` from the bundle at
    /// `rootfs` and starts it. `root_path` is where the runtime keeps its own
    /// state.
    ///
    /// The runtime is asked to build with exactly these three values. Where
    /// the build fails, its error is the result. What was built is started
    /// once: the handle holds the sandbox as the start left it, and where
    /// the start fails, its error is the result and no handle is given.
    pub fn new<O: ContainerOps<Container = W>>(
        digest: &str,
        root_path: String,
        rootfs: String,
        ops: &O,
    ) -> (r: Result<Self, WorkerError>)
        ensures
            exists|instance_id: String, built: Result<W, WorkerError>|
                instance_id@ == digest@ && #[trigger] call_ensures(
                    O::build_container,
                    (ops, instance_id, root_path, rootfs),
                    built,
                ) && match built {
                    Ok(sandbox) => exists|container: &mut W, outcome: Result<(), WorkerError>|
                     #[trigger]
                        call_ensures(O::start_container, (ops, container), outcome)
                            && mut_ref_current(container) == sandbox && r == started(
                            mut_ref_future(container),
                            outcome,
                        ),
                    Err(e) => r == Err::<Self, WorkerError>(e),
                },
    {
        let instance_id = String::from_str(digest);
        let built = ops.build_container(instance_id, root_path, rootfs);
        let mut container = match built {
            Ok(container) => container,
            Err(e) => {
                return Err(e);
            },
        };
        let outcome = ops.start_container(&mut container);
        match outcome {
            Ok(_) => Ok(Self { container }),
            Err(e) => Err(e),
        }
    }

    /// Finishes a provisioning. `provisioned` is how making the bundle went:
    /// the bundle directory, or the error that ended it.
    ///
    /// After a provisioning that failed the runtime is not asked for
    /// anything and the error is the result. After one that went well the
    /// sandbox is built from the bundle and started, as `new` does.
    pub fn new_with_deps<O: ContainerOps<Container = W>>(
        digest: &str,
        root_path: String,
        provisioned: Result<String, WorkerError>,
        ops: &O,
    ) -> (r: Result<Self, WorkerError>)
        ensures
            match provisioned {
                Ok(rootfs) => exists|instance_id: String, built: Result<W, WorkerError>|
                    instance_id@ == digest@ && #[trigger] call_ensures(
                        O::build_container,
                        (ops, instance_id, root_path, rootfs),
                        built,
                    ) && match built {
                        Ok(sandbox) => exists|container: &mut W, outcome: Result<(), WorkerError>|
                         #[trigger]
                            call_ensures(O::start_container, (ops, container), outcome)
                                && mut_ref_current(container) == sandbox && r == started(
                                mut_ref_future(container),
                                outcome,
                            ),
                        Err(e) => r == Err::<Self, WorkerError>(e),
                    },
                Err(e) => r == Err::<Self, WorkerError>(e),
            },
    {
        match provisioned {
            Ok(rootfs) => Self::new(digest, root_path, rootfs, ops),
            Err(e) => Err(e),
        }
    }

    /// Reattaches to the sandbox described at `value`: loads it, and starts
    /// it unless it reports that it runs.
    ///
    /// The runtime is asked to load from `value`. Where the load fails, its
    /// error is the result. A sandbox that runs comes back as it was loaded.
    /// Any other is started once: the handle holds it as the start left it,
    /// and where the start fails, its error is the result and no handle is
    /// given.
    pub fn try_from_with_ops<O: ContainerOps<Container = W>>(value: String, ops: &O) -> (r: Result<
        Self,
        WorkerError,
    >)
        ensures
            exists|loaded: Result<W, WorkerError>| #[trigger]
                call_ensures(O::load_container, (ops, value), loaded) && match loaded {
                    Ok(sandbox) => exists|status: ContainerStatus| #[trigger]
                        call_ensures(W::status, (&sandbox,), status) && match reattach_step_of(
                            status,
                        ) {
                            ReattachStep::AsIs => r == Ok::<Self, WorkerError>(
                                ProccesContainer { container: sandbox },
                            ),
                            ReattachStep::Start => exists|
                                container: &mut W,
                                outcome: Result<(), WorkerError>,
                            | #[trigger]
                                call_ensures(O::start_container, (ops, container), outcome)
                                    && mut_ref_current(container) == sandbox && r == started(
                                    mut_ref_future(container),
                                    outcome,
                                ),
                        },
                    Err(e) => r == Err::<Self, WorkerError>(e),
                },
    {
        let loaded = ops.load_container(value);
        let mut container = match loaded {
            Ok(container) => container,
            Err(e) => {
                return Err(e);
            },
        };
        let status = container.status();
        match reattach_step(status) {
            ReattachStep::AsIs => Ok(Self { container }),
            ReattachStep::Start => {
                let outcome = ops.start_container(&mut container);
                match outcome {
                    Ok(_) => Ok(Self { container }),
                    Err(e) => Err(e),
                }
            },
        }
    }

    /// Reattaches to the sandbox of the instance `instance_id`, whose bundle
    /// is the entry `instance_id` of the directory `root_path`: what
    /// `try_from_with_ops` does at that path.
    pub fn load<O: ContainerOps<Container = W>>(root_path: &str, instance_id: &str, ops: &O) -> (r:
        Result<Self, WorkerError>)
        ensures
            exists|path: String, loaded: Result<W, WorkerError>|
                path@ == child_of(root_path@, instance_id@) && #[trigger] call_ensures(
                    O::load_container,
                    (ops, path),
                    loaded,
                ) && match loaded {
                    Ok(sandbox) => exists|status: ContainerStatus| #[trigger]
                        call_ensures(W::status, (&sandbox,), status) && match reattach_step_of(
                            status,
                        ) {
                            ReattachStep::AsIs => r == Ok::<Self, WorkerError>(
                                ProccesContainer { container: sandbox },
                            ),
                            ReattachStep::Start => exists|
                                container: &mut W,
                                outcome: Result<(), WorkerError>,
                            | #[trigger]
                                call_ensures(O::start_container, (ops, container), outcome)
                                    && mut_ref_current(container) == sandbox && r == started(
                                    mut_ref_future(container),
                                    outcome,
                                ),
                        },
                    Err(e) => r == Err::<Self, WorkerError>(e),
                },
    {
        Self::try_from_with_ops(join(root_path, instance_id), ops)
    }

    /// The endpoint of the sandbox: the address of the socket in its bundle
    /// directory, parsed as a URL. It fails, with `InvalidAddress`, only where
    /// that address is no URL.
    pub fn get_url(&self) -> (r: Result<Url, WorkerError>)
        ensures
            exists|bundle: String| #[trigger]
                call_ensures(W::bundle, (&self.container,), bundle) && r == endpoint_of(
                    parsed_url(socket_address(bundle@)),
                ),
    {
        let bundle = self.container.bundle();
        endpoint_for(bundle.as_str())
    }

    /// What tearing the sandbox's bundle down takes, given whether its
    /// directory exists: the directory is removed with all it holds, and a
    /// directory that is not there is left alone. The sandbox itself is not
    /// stopped by this.
    pub fn cleanup(&self, bundle_exists: bool) -> (step: CleanupStep)
        ensures
            exists|bundle: String| #[trigger]
                call_ensures(W::bundle, (&self.container,), bundle) && step@ == cleanup_of(
                    bundle@,
                    bundle_exists,
                ),
    {
        let path = self.container.bundle();
        if bundle_exists {
            CleanupStep::RemoveTree { path }
        } else {
            CleanupStep::Nothing
        }
    }
}

} // verus!
