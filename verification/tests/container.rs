use noctiforge_worker::container::{reattach_step, CleanupStep, ProccesContainer, ReattachStep};
use noctiforge_worker::error::WorkerError;
use noctiforge_worker::layout::{DefaultPathResolver, PathResolver};
use noctiforge_worker::provision::{
    create_rootfs, plan_rootfs, resolve, BundleProbe, ProvisionNext, ProvisionStep,
};
use noctiforge_worker::spec::{get_spec, spec_document, SysUserParms};
use noctiforge_worker::sandbox::{ContainerOps, ContainerStatus, ContainerWrapper};
use std::cell::{Cell, RefCell};
use std::path::PathBuf;
use std::rc::Rc;

/// A sandbox that only remembers what it is told.
struct FakeContainer {
    bundle: String,
    status: Cell<ContainerStatus>,
    starts: Rc<Cell<u32>>,
}

impl FakeContainer {
    fn at(bundle: &str, status: ContainerStatus) -> Self {
        FakeContainer {
            bundle: bundle.to_string(),
            status: Cell::new(status),
            starts: Rc::new(Cell::new(0)),
        }
    }
}

impl ContainerWrapper for FakeContainer {
    fn bundle(&self) -> String {
        self.bundle.clone()
    }

    fn status(&self) -> ContainerStatus {
        self.status.get()
    }

    fn start(&mut self) -> Result<(), WorkerError> {
        self.starts.set(self.starts.get() + 1);
        self.status.set(ContainerStatus::Running);
        Ok(())
    }
}

/// A runtime that records how it is called.
struct FakeOps {
    bundle: String,
    status: ContainerStatus,
    build_fails: bool,
    start_fails: bool,
    load_fails: bool,
    builds: RefCell<Vec<(String, String, String)>>,
    loads: RefCell<Vec<String>>,
    starts: Cell<u32>,
}

impl FakeOps {
    fn with(bundle: &str, status: ContainerStatus) -> Self {
        FakeOps {
            bundle: bundle.to_string(),
            status,
            build_fails: false,
            start_fails: false,
            load_fails: false,
            builds: RefCell::new(Vec::new()),
            loads: RefCell::new(Vec::new()),
            starts: Cell::new(0),
        }
    }
}

impl ContainerOps for FakeOps {
    type Container = FakeContainer;

    fn build_container(
        &self,
        instance_id: String,
        root_path: String,
        rootfs: String,
    ) -> Result<FakeContainer, WorkerError> {
        self.builds.borrow_mut().push((instance_id, root_path, rootfs));
        if self.build_fails {
            return Err(WorkerError::SandboxBuildFailure);
        }
        Ok(FakeContainer::at(&self.bundle, self.status))
    }

    fn start_container(&self, container: &mut FakeContainer) -> Result<(), WorkerError> {
        self.starts.set(self.starts.get() + 1);
        if self.start_fails {
            return Err(WorkerError::SandboxStartFailure);
        }
        container.start()
    }

    fn load_container(&self, path: String) -> Result<FakeContainer, WorkerError> {
        self.loads.borrow_mut().push(path);
        if self.load_fails {
            return Err(WorkerError::NotFound);
        }
        Ok(FakeContainer::at(&self.bundle, self.status))
    }
}

/// A resolver that hands out one path and records what it was asked for.
struct FakeResolver {
    path: String,
    asked: RefCell<Vec<String>>,
}

impl FakeResolver {
    fn to(path: &str) -> Self {
        FakeResolver { path: path.to_string(), asked: RefCell::new(Vec::new()) }
    }
}

impl PathResolver for FakeResolver {
    fn get_instance_path(&self, instance_id: &str) -> String {
        self.asked.borrow_mut().push(instance_id.to_string());
        self.path.clone()
    }
}

/// Runs a provisioning as a caller does whose disk never fails, and hands
/// the steps it performed out with the outcome.
fn run(probe: BundleProbe, occupied: bool) -> (Vec<ProvisionStep>, Result<String, WorkerError>) {
    let mut run = probe.plan(occupied);
    let mut performed = Vec::new();
    loop {
        match run.next(Ok(())) {
            ProvisionNext::Perform(step) => performed.push(step),
            ProvisionNext::Finished(outcome) => return (performed, outcome),
        }
    }
}

/// Provisions as a caller does: resolve, look, perform, then build and
/// start.
fn provision(
    digest: &str,
    handle_bin: &str,
    root_path: &str,
    sys_user: &SysUserParms,
    ops: &FakeOps,
    resolver: &FakeResolver,
    occupied: bool,
) -> Result<ProccesContainer<FakeContainer>, WorkerError> {
    let (_, provisioned) = run(resolve(digest, handle_bin, sys_user, resolver), occupied);
    ProccesContainer::new_with_deps(digest, root_path.to_string(), provisioned, ops)
}

#[test]
fn test_process_container_build_success() {
    let ops = FakeOps::with("/tmp/test_bundle", ContainerStatus::Created);
    let resolver = FakeResolver::to("/tmp/t/instance");
    let sys_user = SysUserParms { uid: 0, gid: 0 };
    let result =
        provision("test_digest", "/tmp/t/bin", "/tmp/t/root", &sys_user, &ops, &resolver, false);
    assert!(result.is_ok());
    let container = result.unwrap();
    assert_eq!(resolver.asked.borrow().len(), 1);
    assert_eq!(ops.builds.borrow().len(), 1);
    assert_eq!(ops.starts.get(), 1);
    let url_result = container.get_url();
    assert!(url_result.is_ok());
}

#[test]
fn test_container_get_url() {
    let container = ProccesContainer {
        container: FakeContainer::at("/tmp/test_container", ContainerStatus::Running),
    };
    let url = container.get_url().unwrap();
    assert_eq!(url.scheme(), "unix");
    assert!(url.path().contains("test_container"));
    assert!(url.path().contains("rootfs/run/app.sock"));
}

#[test]
fn test_container_ops_called_with_correct_params() {
    let ops = FakeOps::with("/tmp/test", ContainerStatus::Created);
    let resolver = FakeResolver::to("/tmp/t/instance");
    let sys_user = SysUserParms { uid: 0, gid: 0 };
    let result = provision(
        "test_digest_123",
        "/tmp/t/bin",
        "/tmp/t/root",
        &sys_user,
        &ops,
        &resolver,
        false,
    );
    assert!(result.is_ok());
    assert_eq!(
        *ops.builds.borrow(),
        vec![(
            "test_digest_123".to_string(),
            "/tmp/t/root".to_string(),
            "/tmp/t/instance".to_string()
        )]
    );
    assert_eq!(ops.starts.get(), 1);
}

#[test]
fn test_path_resolver_is_called() {
    let ops = FakeOps::with("/tmp/test", ContainerStatus::Created);
    let resolver = FakeResolver::to("/tmp/t/custom_instance_path");
    let sys_user = SysUserParms { uid: 0, gid: 0 };
    let result =
        provision("my_digest", "/tmp/t/bin", "/tmp/t/root", &sys_user, &ops, &resolver, false);
    assert!(result.is_ok());
    assert_eq!(*resolver.asked.borrow(), vec!["my_digest".to_string()]);
}

#[test]
fn test_create_rootfs_fails_if_path_exists() {
    let ops = FakeOps::with("/tmp/test", ContainerStatus::Created);
    let resolver = FakeResolver::to("/tmp/t/existing");
    let sys_user = SysUserParms { uid: 0, gid: 0 };
    let result = provision("test", "/tmp/t/bin", "/tmp/t/root", &sys_user, &ops, &resolver, true);
    assert!(result.is_err());
    assert_eq!(result.err(), Some(WorkerError::AlreadyExists));
    assert_eq!(ops.builds.borrow().len(), 0);
    assert_eq!(ops.starts.get(), 0);
}

#[test]
fn test_try_from_with_running_container() {
    let ops = FakeOps::with("/tmp/running", ContainerStatus::Running);
    let result = ProccesContainer::try_from_with_ops("/tmp/t/container".to_string(), &ops);
    assert!(result.is_ok());
    assert_eq!(*ops.loads.borrow(), vec!["/tmp/t/container".to_string()]);
    assert_eq!(ops.starts.get(), 0);
    let handle = result.unwrap();
    assert_eq!(handle.container.starts.get(), 0);
    assert_eq!(handle.container.status(), ContainerStatus::Running);
}

#[test]
fn test_try_from_with_stopped_container() {
    let ops = FakeOps::with("/tmp/stopped", ContainerStatus::Stopped);
    let result = ProccesContainer::try_from_with_ops("/tmp/t/container".to_string(), &ops);
    assert!(result.is_ok());
    assert_eq!(*ops.loads.borrow(), vec!["/tmp/t/container".to_string()]);
    assert_eq!(ops.starts.get(), 1);
    let handle = result.unwrap();
    assert_eq!(handle.container.starts.get(), 1);
    assert_eq!(handle.container.status(), ContainerStatus::Running);
}

#[test]
fn test_cleanup_removes_directory() {
    let container = ProccesContainer {
        container: FakeContainer::at("/tmp/t/test_bundle", ContainerStatus::Running),
    };
    match container.cleanup(true) {
        CleanupStep::RemoveTree { path } => assert_eq!(path, "/tmp/t/test_bundle"),
        CleanupStep::Nothing => panic!("an existing bundle directory has to be removed"),
    }
}

#[test]
fn test_default_path_resolver() {
    let resolver = DefaultPathResolver;
    let path = resolver.get_instance_path("test123");
    assert_eq!(
        PathBuf::from(path),
        PathBuf::from("/var/lib/noctiforge/native_worker/run/test123")
    );
}

#[test]
fn test_default_path_resolver_different_ids() {
    let resolver = DefaultPathResolver;
    let path1 = resolver.get_instance_path("instance1");
    let path2 = resolver.get_instance_path("instance2");
    assert_ne!(path1, path2);
    assert!(path1.contains("instance1"));
    assert!(path2.contains("instance2"));
}

#[test]
fn cleanup_of_a_missing_directory_does_nothing() {
    let container = ProccesContainer {
        container: FakeContainer::at("/tmp/t/gone", ContainerStatus::Stopped),
    };
    assert!(matches!(container.cleanup(false), CleanupStep::Nothing));
}

fn check_plan(steps: &[ProvisionStep], document: &[u8]) {
    assert_eq!(steps.len(), 5);
    match &steps[0] {
        ProvisionStep::CreateDir { path } => assert_eq!(path, "/srv/run/abc"),
        other => panic!("unexpected first step {:?}", other),
    }
    match &steps[1] {
        ProvisionStep::WriteFile { path, content } => {
            assert_eq!(path, "/srv/run/abc/config.json");
            assert_eq!(content.as_slice(), document);
        }
        other => panic!("unexpected second step {:?}", other),
    }
    match &steps[2] {
        ProvisionStep::CreateDir { path } => assert_eq!(path, "/srv/run/abc/rootfs"),
        other => panic!("unexpected third step {:?}", other),
    }
    match &steps[3] {
        ProvisionStep::CopyTree { from, to } => {
            assert_eq!(from, "/srv/build/out");
            assert_eq!(to, "/srv/run/abc/rootfs/app");
        }
        other => panic!("unexpected fourth step {:?}", other),
    }
    match &steps[4] {
        ProvisionStep::CreateDir { path } => assert_eq!(path, "/srv/run/abc/rootfs/run"),
        other => panic!("unexpected fifth step {:?}", other),
    }
}

#[test]
fn plan_rootfs_plans_the_bundle_in_order() {
    let steps = plan_rootfs("/srv/run/abc", "/srv/build/out", b"{}".to_vec());
    check_plan(&steps, b"{}");
}

#[test]
fn create_rootfs_writes_the_specification_of_the_identity() {
    let sys_user = SysUserParms { uid: 1000, gid: 1001 };
    let steps = create_rootfs("/srv/run/abc", "/srv/build/out", &sys_user, false).unwrap();
    let document = match &steps[1] {
        ProvisionStep::WriteFile { content, .. } => content.clone(),
        other => panic!("unexpected second step {:?}", other),
    };
    check_plan(&steps, &document);
    let spec: serde_json::Value = serde_json::from_slice(&document).unwrap();
    assert_eq!(spec["process"]["user"]["uid"], 1000);
    assert_eq!(spec["process"]["user"]["gid"], 1001);
    assert!(spec["ociVersion"].is_string());
    assert!(spec["mounts"].is_array());
    assert!(spec["linux"]["namespaces"].is_array());
}

#[test]
fn a_provisioning_hands_its_steps_out_in_order() {
    let sys_user = SysUserParms { uid: 5, gid: 6 };
    let resolver = FakeResolver::to("/srv/run/abc");
    let probe = resolve("abc", "/srv/build/out", &sys_user, &resolver);
    assert_eq!(probe.path, "/srv/run/abc");
    assert_eq!(*resolver.asked.borrow(), vec!["abc".to_string()]);
    let (performed, outcome) = run(probe, false);
    assert_eq!(outcome, Ok("/srv/run/abc".to_string()));
    let document = match &performed[1] {
        ProvisionStep::WriteFile { content, .. } => content.clone(),
        other => panic!("unexpected second step {:?}", other),
    };
    check_plan(&performed, &document);
}

#[test]
fn a_provisioning_stops_at_the_step_that_fails() {
    let sys_user = SysUserParms { uid: 5, gid: 6 };
    let resolver = FakeResolver::to("/srv/run/abc");
    let mut run = resolve("abc", "/srv/build/out", &sys_user, &resolver).plan(false);
    assert!(matches!(run.next(Ok(())), ProvisionNext::Perform(ProvisionStep::CreateDir { .. })));
    assert!(matches!(run.next(Ok(())), ProvisionNext::Perform(ProvisionStep::WriteFile { .. })));
    assert!(matches!(
        run.next(Err(WorkerError::IoFailure)),
        ProvisionNext::Finished(Err(WorkerError::IoFailure))
    ));
}

#[test]
fn a_provisioning_of_an_occupied_path_hands_out_nothing() {
    let sys_user = SysUserParms { uid: 5, gid: 6 };
    let resolver = FakeResolver::to("/srv/run/abc");
    let (performed, outcome) = run(resolve("abc", "/srv/build/out", &sys_user, &resolver), true);
    assert!(performed.is_empty());
    assert_eq!(outcome, Err(WorkerError::AlreadyExists));
}

#[test]
fn the_document_is_one_json_object() {
    let document = spec_document(&SysUserParms { uid: 1, gid: 2 }).unwrap();
    assert_eq!(document.first(), Some(&b'{'));
    assert_eq!(document.last(), Some(&b'}'));
    assert!(document.len() > 2);
}

#[test]
fn the_specification_carries_the_identity() {
    let sys_user = SysUserParms { uid: 7, gid: 9 };
    let spec = get_spec(&sys_user).unwrap();
    let user = spec.process().as_ref().unwrap().user();
    assert_eq!(user.uid(), 7);
    assert_eq!(user.gid(), 9);
    let document = spec_document(&sys_user).unwrap();
    let parsed: serde_json::Value = serde_json::from_slice(&document).unwrap();
    assert_eq!(parsed["process"]["user"]["uid"], 7);
    assert_eq!(parsed["process"]["user"]["gid"], 9);
    assert!(document.contains(&b'\n'));
}

#[test]
fn create_rootfs_refuses_an_occupied_path() {
    let sys_user = SysUserParms { uid: 0, gid: 0 };
    let refused = create_rootfs("/srv/run/abc", "/srv/build/out", &sys_user, true);
    assert_eq!(refused.err(), Some(WorkerError::AlreadyExists));
}

#[test]
fn reattach_starts_all_but_running_sandboxes() {
    assert_eq!(reattach_step(ContainerStatus::Running), ReattachStep::AsIs);
    assert_eq!(reattach_step(ContainerStatus::Creating), ReattachStep::Start);
    assert_eq!(reattach_step(ContainerStatus::Created), ReattachStep::Start);
    assert_eq!(reattach_step(ContainerStatus::Stopped), ReattachStep::Start);
    assert_eq!(reattach_step(ContainerStatus::Paused), ReattachStep::Start);
}

#[test]
fn nothing_is_built_after_a_provisioning_that_failed() {
    let ops = FakeOps::with("/tmp/test", ContainerStatus::Created);
    let result = ProccesContainer::new_with_deps(
        "digest",
        "/tmp/root".to_string(),
        Err(WorkerError::IoFailure),
        &ops,
    );
    assert_eq!(result.err(), Some(WorkerError::IoFailure));
    assert_eq!(ops.builds.borrow().len(), 0);
    assert_eq!(ops.starts.get(), 0);
}

#[test]
fn a_failed_build_is_handed_on_and_nothing_is_started() {
    let mut ops = FakeOps::with("/tmp/test", ContainerStatus::Created);
    ops.build_fails = true;
    let result =
        ProccesContainer::new("digest", "/tmp/root".to_string(), "/tmp/bundle".to_string(), &ops);
    assert_eq!(result.err(), Some(WorkerError::SandboxBuildFailure));
    assert_eq!(ops.starts.get(), 0);
}

#[test]
fn a_failed_start_is_handed_on() {
    let mut ops = FakeOps::with("/tmp/test", ContainerStatus::Created);
    ops.start_fails = true;
    let result =
        ProccesContainer::new("digest", "/tmp/root".to_string(), "/tmp/bundle".to_string(), &ops);
    assert_eq!(result.err(), Some(WorkerError::SandboxStartFailure));
    assert_eq!(ops.builds.borrow().len(), 1);
    let reattached = ProccesContainer::try_from_with_ops("/tmp/bundle".to_string(), &ops);
    assert_eq!(reattached.err(), Some(WorkerError::SandboxStartFailure));
}

#[test]
fn a_missing_sandbox_is_not_found() {
    let mut ops = FakeOps::with("/tmp/test", ContainerStatus::Running);
    ops.load_fails = true;
    let result = ProccesContainer::load("/var/lib/x/run", "abc123", &ops);
    assert_eq!(result.err(), Some(WorkerError::NotFound));
    assert_eq!(*ops.loads.borrow(), vec!["/var/lib/x/run/abc123".to_string()]);
    assert_eq!(ops.starts.get(), 0);
}

#[test]
fn load_reattaches_at_the_bundle_path_of_the_instance() {
    let ops = FakeOps::with("/var/lib/x/run/abc123", ContainerStatus::Paused);
    let handle = ProccesContainer::load("/var/lib/x/run", "abc123", &ops).unwrap();
    assert_eq!(*ops.loads.borrow(), vec!["/var/lib/x/run/abc123".to_string()]);
    assert_eq!(ops.starts.get(), 1);
    assert_eq!(handle.container.bundle(), "/var/lib/x/run/abc123");
}
