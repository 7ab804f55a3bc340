use vstd::prelude::*;
use crate::error::WorkerError;
use crate::layout::{app_path, child_of, config_path, join, rootfs_path, run_path, PathResolver};
use crate::spec::{is_object, spec_document, SysUserParms};
use vstd::string::*;

verus! {

/// One filesystem operation of provisioning, as the caller has to perform it.
#[derive(Debug)]
pub enum ProvisionStep {
    /// Create the directory `path`; its parent is there.
    CreateDir { path: String },
    /// Write the file `path` with `content`.
    WriteFile { path: String, content: Vec<u8> },
    /// Copy the tree rooted at `from` to `to`: directories as they are met,
    /// regular files byte for byte.
    CopyTree { from: String, to: String },
}

/// What a [`ProvisionStep`] says, over plain text.
pub enum StepModel {
    CreateDir { path: Seq<char> },
    WriteFile { path: Seq<char>, content: Seq<u8> },
    CopyTree { from: Seq<char>, to: Seq<char> },
}

impl View for ProvisionStep {
    type V = StepModel;

    open spec fn view(&self) -> StepModel {
        match self {
            ProvisionStep::CreateDir { path } => StepModel::CreateDir { path: path@ },
            ProvisionStep::WriteFile { path, content } => StepModel::WriteFile {
                path: path@,
                content: content@,
            },
            ProvisionStep::CopyTree { from, to } => StepModel::CopyTree { from: from@, to: to@ },
        }
    }
}

/// The steps that fill the bundle directory `bundle` with the runtime
/// specification `document` and the handler tree `handler`, in the order in
/// which they are performed.
pub open spec fn bundle_steps(bundle: Seq<char>, handler: Seq<char>, document: Seq<u8>) -> Seq<
    StepModel,
> {
    seq![
        StepModel::CreateDir { path: bundle },
        StepModel::WriteFile { path: config_path(bundle), content: document },
        StepModel::CreateDir { path: rootfs_path(bundle) },
        StepModel::CopyTree { from: handler, to: app_path(bundle) },
        StepModel::CreateDir { path: run_path(bundle) },
    ]
}

/// The document that a plan writes: the content of its second step.
pub open spec fn document_in(steps: Seq<StepModel>) -> Seq<u8> {
    steps[1]->WriteFile_content
}

/// The views of the steps of `steps`, in order.
pub open spec fn steps_view(steps: Seq<ProvisionStep>) -> Seq<StepModel> {
    steps.map_values(|step: ProvisionStep| step@)
}

/// Plans the bundle at `path` that holds the runtime specification
/// `document` and a copy of the handler tree `handle_bin`.
pub fn plan_rootfs(path: &str, handle_bin: &str, document: Vec<u8>) -> (steps: Vec<ProvisionStep>)
    ensures
        steps_view(steps@) == bundle_steps(path@, handle_bin@, document@),
{
    let rootfs_path = join(path, "rootfs");
    let mut steps: Vec<ProvisionStep> = Vec::new();
    steps.push(ProvisionStep::CreateDir { path: String::from_str(path) });
    steps.push(ProvisionStep::WriteFile { path: join(path, "config.json"), content: document });
    steps.push(ProvisionStep::CreateDir { path: rootfs_path.clone() });
    steps.push(
        ProvisionStep::CopyTree {
            from: String::from_str(handle_bin),
            to: join(rootfs_path.as_str(), "app"),
        },
    );
    steps.push(ProvisionStep::CreateDir { path: join(rootfs_path.as_str(), "run") });
    assert(steps_view(steps@) =~= bundle_steps(path@, handle_bin@, document@));
    steps
}

/// Plans the bundle of one instance at `path`, the directory its identifier
/// resolves to. `occupied` says whether anything exists at `path`.
///
/// An occupied path is refused with `AlreadyExists`, and no step is handed
/// out for it. For a vacant one there is always a plan: that of
/// `plan_rootfs` for the rendered runtime specification of `sys_user`,
/// which is one JSON object.
pub fn create_rootfs(path: &str, handle_bin: &str, sys_user: &SysUserParms, occupied: bool) -> (r:
    Result<Vec<ProvisionStep>, WorkerError>)
    ensures
        occupied ==> r == Err::<Vec<ProvisionStep>, WorkerError>(WorkerError::AlreadyExists),
        !occupied ==> r is Ok && steps_view(r->Ok_0@) == bundle_steps(
            path@,
            handle_bin@,
            document_in(steps_view(r->Ok_0@)),
        ) && is_object(document_in(steps_view(r->Ok_0@))),
{
    if occupied {
        return Err(WorkerError::AlreadyExists);
    }
    let document = spec_document(sys_user).unwrap();
    let ghost bytes = document@;
    let steps = plan_rootfs(path, handle_bin, document);
    assert(bundle_steps(path@, handle_bin@, bytes) == steps_view(steps@));
    Ok(steps)
}

/// A provisioning that has its bundle directory and waits to hear whether
/// anything is there.
pub struct BundleProbe {
    /// The bundle directory: what the caller has to look for.
    pub path: String,
    pub handle_bin: String,
    pub sys_user: SysUserParms,
}

/// Begins the provisioning of `instance_id` from the handler tree
/// `handle_bin`: the resolver is asked, once, where the bundle of the
/// instance lives.
pub fn resolve<P: PathResolver>(
    instance_id: &str,
    handle_bin: &str,
    sys_user: &SysUserParms,
    path_resolver: &P,
) -> (probe: BundleProbe)
    ensures
        call_ensures(P::get_instance_path, (path_resolver, instance_id), probe.path),
        probe.handle_bin@ == handle_bin@,
        probe.sys_user == *sys_user,
{
    BundleProbe {
        path: path_resolver.get_instance_path(instance_id),
        handle_bin: String::from_str(handle_bin),
        sys_user: *sys_user,
    }
}

impl BundleProbe {
    /// Plans the provisioning, as `create_rootfs` does. `occupied` says
    /// whether anything exists at the bundle directory.
    pub fn plan(self, occupied: bool) -> (run: Provisioning)
        ensures
            run.bundle() == self.path@,
            occupied ==> run.refusal() == Some(WorkerError::AlreadyExists) && run.pending()
                == Seq::<StepModel>::empty(),
            !occupied ==> run.refusal() is None && run.pending() == bundle_steps(
                self.path@,
                self.handle_bin@,
                document_in(run.pending()),
            ) && is_object(document_in(run.pending())),
    {
        let planned = create_rootfs(
            self.path.as_str(),
            self.handle_bin.as_str(),
            &self.sys_user,
            occupied,
        );
        match planned {
            Ok(pending) => Provisioning { path: self.path, pending, refusal: None },
            Err(e) => {
                let pending: Vec<ProvisionStep> = Vec::new();
                assert(steps_view(pending@) =~= Seq::<StepModel>::empty());
                Provisioning { path: self.path, pending, refusal: Some(e) }
            },
        }
    }
}

/// A provisioning under way: the steps that are still to be performed, in
/// order, or the reason for which it was refused.
pub struct Provisioning {
    path: String,
    pending: Vec<ProvisionStep>,
    refusal: Option<WorkerError>,
}

impl Provisioning {
    /// The bundle directory that is provisioned.
    pub closed spec fn bundle(&self) -> Seq<char> {
        self.path@
    }

    /// The steps that were not handed out yet, the next one first.
    pub closed spec fn pending(&self) -> Seq<StepModel> {
        steps_view(self.pending@)
    }

    /// Why the provisioning was refused, if it was.
    pub closed spec fn refusal(&self) -> Option<WorkerError> {
        self.refusal
    }

    /// Takes the provisioning one step further. `last` is how the step
    /// that was handed out before went; it is `Ok` where nothing was handed
    /// out yet.
    ///
    /// A provisioning that was refused is finished with the refusal. A
    /// step that failed finishes it with that failure: no further step is
    /// handed out, and what was made stays. Else the next step is handed
    /// out, and once none is left the provisioning is finished with the
    /// bundle directory.
    pub fn next(&mut self, last: Result<(), WorkerError>) -> (next: ProvisionNext)
        ensures
            (final(self).pending(), next@) == provision_next(
                old(self).bundle(),
                old(self).refusal(),
                old(self).pending(),
                last,
            ),
            final(self).bundle() == old(self).bundle(),
            final(self).refusal() == old(self).refusal(),
    {
        if let Some(e) = self.refusal {
            return ProvisionNext::Finished(Err(e));
        }
        if let Err(e) = last {
            return ProvisionNext::Finished(Err(e));
        }
        if self.pending.len() > 0 {
            let ghost before = self.pending@;
            let step = self.pending.remove(0);
            assert(steps_view(self.pending@) =~= steps_view(before).drop_first());
            ProvisionNext::Perform(step)
        } else {
            ProvisionNext::Finished(Ok(self.path.clone()))
        }
    }
}

/// What a provisioning asks of its caller next.
#[derive(Debug)]
pub enum ProvisionNext {
    /// Perform this step, then report how it went.
    Perform(ProvisionStep),
    /// The provisioning is over: with the bundle directory, or with the
    /// error that ended it.
    Finished(Result<String, WorkerError>),
}

/// What a [`ProvisionNext`] says, over plain text.
pub enum NextModel {
    Perform(StepModel),
    Finished(Result<Seq<char>, WorkerError>),
}

impl View for ProvisionNext {
    type V = NextModel;

    open spec fn view(&self) -> NextModel {
        match self {
            ProvisionNext::Perform(step) => NextModel::Perform(step@),
            ProvisionNext::Finished(Ok(path)) => NextModel::Finished(Ok(path@)),
            ProvisionNext::Finished(Err(e)) => NextModel::Finished(Err(*e)),
        }
    }
}

/// One step of a provisioning of `bundle`: the steps that are pending after
/// it, and what it asks for.
pub open spec fn provision_next(
    bundle: Seq<char>,
    refusal: Option<WorkerError>,
    pending: Seq<StepModel>,
    last: Result<(), WorkerError>,
) -> (Seq<StepModel>, NextModel) {
    match refusal {
        Some(e) => (pending, NextModel::Finished(Err(e))),
        None => match last {
            Err(e) => (pending, NextModel::Finished(Err(e))),
            Ok(_) => if pending.len() > 0 {
                (pending.drop_first(), NextModel::Perform(pending[0]))
            } else {
                (pending, NextModel::Finished(Ok(bundle)))
            },
        },
    }
}

/// A provisioning of `bundle` that was not refused, after its caller has
/// reported `performed`, one report for each step it was handed, in order:
/// the steps that are pending then, and what is asked for.
pub open spec fn provision_run(
    bundle: Seq<char>,
    pending: Seq<StepModel>,
    performed: Seq<Result<(), WorkerError>>,
) -> (Seq<StepModel>, NextModel)
    decreases performed.len(),
{
    if performed.len() == 0 {
        provision_next(bundle, None, pending, Ok(()))
    } else {
        provision_next(
            bundle,
            None,
            provision_run(bundle, pending, performed.drop_last()).0,
            performed.last(),
        )
    }
}

/// While every step goes well, a provisioning hands its steps out in their
/// order, each once, and when all were performed it is finished with the
/// bundle directory.
pub proof fn law_provisioning_in_order(
    bundle: Seq<char>,
    pending: Seq<StepModel>,
    performed: Seq<Result<(), WorkerError>>,
)
    requires
        performed.len() <= pending.len(),
        forall|i: int| 0 <= i < performed.len() ==> (#[trigger] performed[i]) is Ok,
    ensures
        provision_run(bundle, pending, performed).1 == if performed.len() < pending.len() {
            NextModel::Perform(pending[performed.len() as int])
        } else {
            NextModel::Finished(Ok(bundle))
        },
        provision_run(bundle, pending, performed).0 == if performed.len() < pending.len() {
            pending.skip(performed.len() as int + 1)
        } else {
            Seq::<StepModel>::empty()
        },
    decreases performed.len(),
{
    let n = performed.len() as int;
    if n == 0 {
        if pending.len() > 0 {
            assert(pending.drop_first() =~= pending.skip(1));
        } else {
            assert(pending =~= Seq::<StepModel>::empty());
        }
    } else {
        law_provisioning_in_order(bundle, pending, performed.drop_last());
        let before = provision_run(bundle, pending, performed.drop_last()).0;
        assert(performed.last() is Ok);
        assert(before == pending.skip(n));
        if n < pending.len() {
            assert(before[0] == pending[n]);
            assert(before.drop_first() =~= pending.skip(n + 1));
        } else {
            assert(before =~= Seq::<StepModel>::empty());
        }
    }
}

/// The first step that fails ends a provisioning with that failure: the
/// steps before it and the step itself were handed out, and none after
/// it is.
pub proof fn law_provisioning_stops_at_failure(
    bundle: Seq<char>,
    pending: Seq<StepModel>,
    performed: Seq<Result<(), WorkerError>>,
    failure: WorkerError,
)
    requires
        performed.len() < pending.len(),
        forall|i: int| 0 <= i < performed.len() ==> (#[trigger] performed[i]) is Ok,
    ensures
        provision_run(bundle, pending, performed).1 == NextModel::Perform(
            pending[performed.len() as int],
        ),
        provision_run(bundle, pending, performed.push(Err(failure))).1 == NextModel::Finished(
            Err(failure),
        ),
        provision_run(bundle, pending, performed.push(Err(failure))).0 == pending.skip(
            performed.len() as int + 1,
        ),
{
    law_provisioning_in_order(bundle, pending, performed);
    assert(performed.push(Err(failure)).drop_last() =~= performed);
}

/// A provisioning of a path that is occupied is over at once, with
/// `AlreadyExists` or whatever else refused it: no step is handed out.
pub proof fn law_refusal_hands_out_nothing(
    bundle: Seq<char>,
    refusal: WorkerError,
    pending: Seq<StepModel>,
    last: Result<(), WorkerError>,
)
    ensures
        provision_next(bundle, Some(refusal), pending, last) == (
            pending,
            NextModel::Finished(Err(refusal)),
        ),
{
}

/// What stands at one path of a file tree.
pub enum Node {
    /// A directory.
    Dir,
    /// A regular file with its bytes.
    File { content: Seq<u8> },
}

/// Whether `path` is `dir` itself or lies below it.
pub open spec fn within(dir: Seq<char>, path: Seq<char>) -> bool {
    path == dir || (path.len() > dir.len() && path.take(dir.len() as int) == dir
        && path[dir.len() as int] == '/')
}

/// Whether copying the tree at `from` to `to` puts something at `path`:
/// `path` is as far below `to` as something in `tree` is below `from`.
pub open spec fn copied(
    tree: Map<Seq<char>, Node>,
    from: Seq<char>,
    to: Seq<char>,
    path: Seq<char>,
) -> bool {
    within(to, path) && tree.contains_key(from + path.skip(to.len() as int))
}

/// The file tree after `step` was performed on `tree` and went well.
pub open spec fn perform(tree: Map<Seq<char>, Node>, step: StepModel) -> Map<Seq<char>, Node> {
    match step {
        StepModel::CreateDir { path } => tree.insert(path, Node::Dir),
        StepModel::WriteFile { path, content } => tree.insert(path, Node::File { content }),
        StepModel::CopyTree { from, to } => Map::new(
            |path: Seq<char>| tree.contains_key(path) || copied(tree, from, to, path),
            |path: Seq<char>|
                if copied(tree, from, to, path) {
                    tree[from + path.skip(to.len() as int)]
                } else {
                    tree[path]
                },
        ),
    }
}

/// The file tree after all of `steps` were performed on `tree`, in order,
/// and went well.
pub open spec fn perform_all(tree: Map<Seq<char>, Node>, steps: Seq<StepModel>) -> Map<
    Seq<char>,
    Node,
>
    decreases steps.len(),
{
    if steps.len() == 0 {
        tree
    } else {
        perform(perform_all(tree, steps.drop_last()), steps.last())
    }
}

proof fn lemma_within_child(dir: Seq<char>, name: Seq<char>)
    ensures
        within(dir, child_of(dir, name)),
        child_of(dir, name).len() == dir.len() + 1 + name.len(),
        child_of(dir, name) != dir,
        forall|i: int| 0 <= i < name.len() ==> child_of(dir, name)[dir.len() + 1 + i] == name[i],
{
    assert(child_of(dir, name).take(dir.len() as int) =~= dir);
}

proof fn lemma_within_grows(upper: Seq<char>, dir: Seq<char>, path: Seq<char>)
    requires
        within(upper, dir),
        within(dir, path),
    ensures
        within(upper, path),
{
    if path != dir && dir != upper {
        assert(path.take(upper.len() as int) =~= dir.take(upper.len() as int));
        assert(path[upper.len() as int] == path.take(dir.len() as int)[upper.len() as int]);
    }
}

/// Two directories that both hold `path` lie one within the other.
proof fn lemma_ancestors_are_nested(one: Seq<char>, other: Seq<char>, path: Seq<char>)
    requires
        within(one, path),
        within(other, path),
    ensures
        within(one, other) || within(other, one),
{
    if path != one && path != other {
        if one.len() < other.len() {
            assert(other.take(one.len() as int) =~= path.take(one.len() as int));
            assert(other[one.len() as int] == path.take(other.len() as int)[one.len() as int]);
        } else if other.len() < one.len() {
            assert(one.take(other.len() as int) =~= path.take(other.len() as int));
            assert(one[other.len() as int] == path.take(one.len() as int)[other.len() as int]);
        } else {
            assert(one =~= other);
        }
    }
}

/// What lies below `to` after a copy comes from within `from`.
proof fn lemma_source_within(from: Seq<char>, to: Seq<char>, path: Seq<char>)
    requires
        within(to, path),
    ensures
        within(from, from + path.skip(to.len() as int)),
{
    let source = from + path.skip(to.len() as int);
    if path == to {
        assert(source =~= from);
    } else {
        assert(source.take(from.len() as int) =~= from);
        assert(source[from.len() as int] == path[to.len() as int]);
    }
}

/// The facts about the paths of a bundle that rest on their names.
proof fn lemma_bundle_paths(bundle: Seq<char>)
    ensures
        config_path(bundle).len() == bundle.len() + 12,
        rootfs_path(bundle).len() == bundle.len() + 7,
        app_path(bundle).len() == bundle.len() + 11,
        run_path(bundle).len() == bundle.len() + 11,
        config_path(bundle)[bundle.len() as int + 1] == 'c',
        rootfs_path(bundle)[bundle.len() as int + 1] == 'r',
        app_path(bundle)[bundle.len() as int + 1] == 'r',
        run_path(bundle)[bundle.len() as int + 1] == 'r',
        app_path(bundle)[bundle.len() as int + 8] == 'a',
        run_path(bundle)[bundle.len() as int + 8] == 'r',
        within(bundle, config_path(bundle)),
        within(bundle, rootfs_path(bundle)),
        within(bundle, app_path(bundle)),
        within(bundle, run_path(bundle)),
{
    reveal_strlit("config.json");
    reveal_strlit("rootfs");
    reveal_strlit("app");
    reveal_strlit("run");
    let rootfs = rootfs_path(bundle);
    lemma_within_child(bundle, "config.json"@);
    lemma_within_child(bundle, "rootfs"@);
    lemma_within_child(rootfs, "app"@);
    lemma_within_child(rootfs, "run"@);
    lemma_within_grows(bundle, rootfs, app_path(bundle));
    lemma_within_grows(bundle, rootfs, run_path(bundle));
    assert(app_path(bundle)[bundle.len() as int + 1] == rootfs[bundle.len() as int + 1]);
    assert(run_path(bundle)[bundle.len() as int + 1] == rootfs[bundle.len() as int + 1]);
}

/// Whether a bundle that was filled from the handler tree at `handler` holds
/// something at `path`, where `tree` is the file tree from before: the
/// bundle directory itself, its `config.json`, its `rootfs`, the empty
/// `rootfs/run`, and under `rootfs/app` what the handler tree holds.
pub open spec fn bundle_holds(
    tree: Map<Seq<char>, Node>,
    bundle: Seq<char>,
    handler: Seq<char>,
    path: Seq<char>,
) -> bool {
    path == bundle || path == config_path(bundle) || path == rootfs_path(bundle) || path
        == run_path(bundle) || copied(tree, handler, app_path(bundle), path)
}

/// Provisioning a bundle at a path where nothing is, from a handler tree
/// that lies apart from it, with no step failing, leaves a bundle that
/// holds exactly its `config.json` with the runtime specification, the
/// copy of the handler tree at `rootfs/app`, and an empty `rootfs/run`.
/// Nothing outside the bundle directory changes.
pub proof fn law_bundle_contents(
    tree: Map<Seq<char>, Node>,
    bundle: Seq<char>,
    handler: Seq<char>,
    document: Seq<u8>,
)
    requires
        forall|path: Seq<char>| #[trigger] within(bundle, path) ==> !tree.contains_key(path),
        !within(handler, bundle),
        !within(bundle, handler),
    ensures
        ({
            let after = perform_all(tree, bundle_steps(bundle, handler, document));
            &&& forall|path: Seq<char>|
                !within(bundle, path) ==> #[trigger] after.contains_key(path)
                    == tree.contains_key(path) && (tree.contains_key(path) ==> after[path]
                    == tree[path])
            &&& forall|path: Seq<char>|
                within(bundle, path) ==> #[trigger] after.contains_key(path) == bundle_holds(
                    tree,
                    bundle,
                    handler,
                    path,
                )
            &&& after[bundle] == Node::Dir
            &&& after[config_path(bundle)] == Node::File { content: document }
            &&& after[rootfs_path(bundle)] == Node::Dir
            &&& after[run_path(bundle)] == Node::Dir
            &&& forall|path: Seq<char>| #[trigger]
                copied(tree, handler, app_path(bundle), path) ==> after[path] == tree[handler
                    + path.skip(app_path(bundle).len() as int)]
            &&& forall|path: Seq<char>|
                within(run_path(bundle), path) && path != run_path(bundle)
                    ==> !#[trigger] after.contains_key(path)
        }),
{
    let config = config_path(bundle);
    let rootfs = rootfs_path(bundle);
    let app = app_path(bundle);
    let run = run_path(bundle);
    let steps = bundle_steps(bundle, handler, document);
    let t1 = tree.insert(bundle, Node::Dir);
    let t2 = t1.insert(config, Node::File { content: document });
    let t3 = t2.insert(rootfs, Node::Dir);
    let t4 = perform(t3, StepModel::CopyTree { from: handler, to: app });
    let t5 = t4.insert(run, Node::Dir);
    let after = perform_all(tree, steps);
    assert(after == t5) by {
        let s4 = steps.drop_last();
        let s3 = s4.drop_last();
        let s2 = s3.drop_last();
        let s1 = s2.drop_last();
        let s0 = s1.drop_last();
        assert(s0.len() == 0);
        assert(perform_all(tree, s0) == tree);
        assert(perform_all(tree, s1) == perform(perform_all(tree, s0), s1.last()));
        assert(perform_all(tree, s2) == perform(perform_all(tree, s1), s2.last()));
        assert(perform_all(tree, s3) == perform(perform_all(tree, s2), s3.last()));
        assert(perform_all(tree, s4) == perform(perform_all(tree, s3), s4.last()));
        assert(perform_all(tree, steps) == perform(perform_all(tree, s4), steps.last()));
    }
    lemma_bundle_paths(bundle);
    // What is copied comes from the handler tree as it was before.
    assert forall|path: Seq<char>| within(app, path) implies t3.contains_key(
        handler + path.skip(app.len() as int),
    ) == tree.contains_key(handler + path.skip(app.len() as int)) && (t3.contains_key(
        handler + path.skip(app.len() as int),
    ) ==> t3[handler + path.skip(app.len() as int)] == tree[handler + path.skip(
        app.len() as int,
    )]) by {
        let source = handler + path.skip(app.len() as int);
        lemma_source_within(handler, app, path);
        if source == bundle || source == config || source == rootfs {
            lemma_ancestors_are_nested(handler, bundle, source);
        }
    }
    assert forall|path: Seq<char>| copied(t3, handler, app, path) == copied(
        tree,
        handler,
        app,
        path,
    ) by {}
    assert forall|path: Seq<char>| within(app, path) implies within(bundle, path) && path != bundle
        && path != config && path != rootfs && path != run by {
        lemma_within_grows(bundle, app, path);
        if path != app {
            assert(path[bundle.len() as int + 1] == path.take(app.len() as int)[bundle.len() as int
                + 1]);
            assert(path[bundle.len() as int + 8] == path.take(app.len() as int)[bundle.len() as int
                + 8]);
        }
    }
    assert forall|path: Seq<char>| !within(bundle, path) implies #[trigger] after.contains_key(path)
        == tree.contains_key(path) && (tree.contains_key(path) ==> after[path] == tree[path]) by {
        if within(app, path) {
            lemma_within_grows(bundle, app, path);
        }
    }
    assert forall|path: Seq<char>| within(bundle, path) implies #[trigger] after.contains_key(path)
        == bundle_holds(tree, bundle, handler, path) by {}
    assert forall|path: Seq<char>| #[trigger]
        copied(tree, handler, app, path) implies after[path] == tree[handler + path.skip(
        app.len() as int,
    )] by {}
    assert forall|path: Seq<char>| within(run, path) && path != run implies !#[trigger]
    after.contains_key(path) by {
        lemma_within_grows(bundle, run, path);
        assert(path[bundle.len() as int + 1] == path.take(run.len() as int)[bundle.len() as int
            + 1]);
        if within(app, path) {
            lemma_ancestors_are_nested(app, run, path);
        }
    }
}

/// Provisioning an instance that has no bundle yet goes through: on a path
/// where nothing is, with no step failing, the five steps of the bundle
/// are handed out in order, the result is the bundle directory itself, and
/// the bundle then holds what `law_bundle_contents` says, where the handler
/// tree lies apart from it.
pub proof fn law_fresh_bundle_is_provisioned(
    tree: Map<Seq<char>, Node>,
    bundle: Seq<char>,
    handler: Seq<char>,
    document: Seq<u8>,
    performed: Seq<Result<(), WorkerError>>,
)
    requires
        forall|path: Seq<char>| #[trigger] within(bundle, path) ==> !tree.contains_key(path),
        !within(handler, bundle),
        !within(bundle, handler),
        performed.len() == 5,
        forall|i: int| 0 <= i < performed.len() ==> (#[trigger] performed[i]) is Ok,
    ensures
        ({
            let steps = bundle_steps(bundle, handler, document);
            let after = perform_all(tree, steps);
            &&& provision_run(bundle, steps, performed).1 == NextModel::Finished(Ok(bundle))
            &&& forall|k: int|
                0 <= k < 5 ==> #[trigger] provision_run(bundle, steps, performed.take(k)).1
                    == NextModel::Perform(steps[k])
            &&& forall|path: Seq<char>|
                within(bundle, path) ==> #[trigger] after.contains_key(path) == bundle_holds(
                    tree,
                    bundle,
                    handler,
                    path,
                )
            &&& after[bundle] == Node::Dir
            &&& after[config_path(bundle)] == Node::File { content: document }
            &&& after[run_path(bundle)] == Node::Dir
        }),
{
    let steps = bundle_steps(bundle, handler, document);
    law_provisioning_in_order(bundle, steps, performed);
    assert forall|k: int| 0 <= k < 5 implies #[trigger] provision_run(
        bundle,
        steps,
        performed.take(k),
    ).1 == NextModel::Perform(steps[k]) by {
        law_provisioning_in_order(bundle, steps, performed.take(k));
    }
    law_bundle_contents(tree, bundle, handler, document);
}

} // verus!
