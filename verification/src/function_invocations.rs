use vstd::prelude::*;
use crate::container::ProccesContainer;
use crate::endpoint::{endpoint_of, parsed_url};
use crate::error::WorkerError;
use crate::layout::{child_of, join, socket_address};
use crate::sandbox::ContainerWrapper;
use std::sync::Arc;
use url::Url;
use vstd::hash_map::StringHashMap;
use vstd::string::*;

verus! {

/// What the registry records of one instance: the endpoint of its sandbox.
pub struct Invocation {
    pub url: Url,
}

/// The identifiers of `entries`, in their order.
pub open spec fn entry_ids(entries: Seq<(Seq<char>, Invocation)>) -> Seq<Seq<char>> {
    entries.map_values(|entry: (Seq<char>, Invocation)| entry.0)
}

/// The mapping that `entries` stands for: each identifier with the
/// invocation listed beside it.
pub open spec fn entries_map(entries: Seq<(Seq<char>, Invocation)>) -> Map<Seq<char>, Invocation> {
    Map::new(
        |id: Seq<char>| entry_ids(entries).contains(id),
        |id: Seq<char>| entries[entry_ids(entries).index_of(id)].1,
    )
}

proof fn lemma_index_of_unique(ids: Seq<Seq<char>>, i: int)
    requires
        ids.no_duplicates(),
        0 <= i < ids.len(),
    ensures
        ids.contains(ids[i]),
        ids.index_of(ids[i]) == i,
{
}

proof fn lemma_entries_push(entries: Seq<(Seq<char>, Invocation)>, id: Seq<char>, inv: Invocation)
    requires
        entry_ids(entries).no_duplicates(),
        !entry_ids(entries).contains(id),
    ensures
        entry_ids(entries.push((id, inv))) == entry_ids(entries).push(id),
        entry_ids(entries.push((id, inv))).no_duplicates(),
        entries_map(entries.push((id, inv))) == entries_map(entries).insert(id, inv),
{
    let after = entries.push((id, inv));
    let ids = entry_ids(entries);
    let ids_after = entry_ids(after);
    assert(ids_after =~= ids.push(id));
    assert(ids_after.no_duplicates());
    assert forall|k: Seq<char>| #[trigger] ids_after.contains(k) <==> (k == id || ids.contains(k)) by {
        if ids.contains(k) {
            let i = ids.index_of(k);
            assert(ids_after[i] == k);
        }
        if k == id {
            assert(ids_after[ids.len() as int] == k);
        }
    }
    assert forall|k: Seq<char>| #[trigger] ids_after.contains(k) implies entries_map(after)[k] == (
    if k == id {
        inv
    } else {
        entries_map(entries)[k]
    }) by {
        let j = ids_after.index_of(k);
        if k == id {
            assert(j == ids.len());
        } else {
            let i = ids.index_of(k);
            assert(ids_after[i] == k);
            assert(i == j);
        }
    }
    assert(entries_map(after) =~= entries_map(entries).insert(id, inv));
}

proof fn lemma_entries_update(entries: Seq<(Seq<char>, Invocation)>, at: int, inv: Invocation)
    requires
        entry_ids(entries).no_duplicates(),
        0 <= at < entries.len(),
    ensures
        entry_ids(entries.update(at, (entries[at].0, inv))) == entry_ids(entries),
        entries_map(entries.update(at, (entries[at].0, inv))) == entries_map(entries).insert(
            entries[at].0,
            inv,
        ),
{
    let id = entries[at].0;
    let after = entries.update(at, (id, inv));
    let ids = entry_ids(entries);
    assert(entry_ids(after) =~= ids);
    assert(ids[at] == id);
    assert forall|k: Seq<char>| #[trigger] ids.contains(k) implies entries_map(after)[k] == (if k
        == id {
        inv
    } else {
        entries_map(entries)[k]
    }) by {
        let i = ids.index_of(k);
        if k == id {
            assert(i == at);
        }
    }
    assert(entries_map(after) =~= entries_map(entries).insert(id, inv));
}

proof fn lemma_entries_remove(entries: Seq<(Seq<char>, Invocation)>, at: int)
    requires
        entry_ids(entries).no_duplicates(),
        0 <= at < entries.len(),
    ensures
        entry_ids(entries.remove(at)) == entry_ids(entries).remove(at),
        entry_ids(entries.remove(at)).no_duplicates(),
        entries_map(entries.remove(at)) == entries_map(entries).remove(entries[at].0),
{
    let id = entries[at].0;
    let after = entries.remove(at);
    let ids = entry_ids(entries);
    let ids_after = entry_ids(after);
    assert(ids_after =~= ids.remove(at));
    assert(ids[at] == id);
    assert forall|i: int, j: int|
        0 <= i < ids_after.len() && 0 <= j < ids_after.len() && i != j implies ids_after[i]
        != ids_after[j] by {
        let oi = if i < at { i } else { i + 1 };
        let oj = if j < at { j } else { j + 1 };
        assert(ids_after[i] == ids[oi]);
        assert(ids_after[j] == ids[oj]);
    }
    assert forall|k: Seq<char>| #[trigger] ids_after.contains(k) <==> (k != id && ids.contains(k)) by {
        if ids_after.contains(k) {
            let i = ids_after.index_of(k);
            let oi = if i < at { i } else { i + 1 };
            assert(ids[oi] == k);
        }
        if k != id && ids.contains(k) {
            let oi = ids.index_of(k);
            let i = if oi < at { oi } else { oi - 1 };
            assert(ids_after[i] == k);
        }
    }
    assert forall|k: Seq<char>| #[trigger] ids_after.contains(k) implies entries_map(after)[k]
        == entries_map(entries)[k] by {
        let i = ids_after.index_of(k);
        let oi = if i < at { i } else { i + 1 };
        assert(ids[oi] == k);
        assert(ids.index_of(k) == oi);
        assert(after[i] == entries[oi]);
    }
    assert(entries_map(after) =~= entries_map(entries).remove(id));
}

/// Calls `Arc::clone`, which hands out one more owner of the same value.
#[verifier::external_body]
fn share(invocation: &Arc<Invocation>) -> (shared: Arc<Invocation>)
    ensures
        shared == *invocation,
{
    Arc::clone(invocation)
}

/// The entries of the registry: the hash map that answers lookups, and
/// beside it the identifiers in the order in which they first came, which
/// is the order in which the entries are walked.
struct Entries {
    map: StringHashMap<Arc<Invocation>>,
    order: Vec<String>,
}

impl Entries {
    /// The identifiers in their order.
    spec fn ids(self) -> Seq<Seq<char>> {
        self.order@.map_values(|id: String| id@)
    }

    /// Each identifier with what the map holds for it, in order.
    spec fn seq(self) -> Seq<(Seq<char>, Invocation)> {
        Seq::new(self.order@.len(), |i: int| (self.order@[i]@, *self.map@[self.order@[i]@]))
    }

    /// No identifier is listed twice, and the map holds exactly those listed.
    spec fn wf(self) -> bool {
        &&& self.ids().no_duplicates()
        &&& forall|id: Seq<char>| #[trigger] self.map@.contains_key(id) <==> self.ids().contains(id)
    }

    proof fn lemma_seq(self)
        requires
            self.wf(),
        ensures
            entry_ids(self.seq()) == self.ids(),
            entries_map(self.seq()).dom() == self.map@.dom(),
            forall|id: Seq<char>| #[trigger]
                self.map@.contains_key(id) ==> entries_map(self.seq())[id] == *self.map@[id],
    {
        assert(entry_ids(self.seq()) =~= self.ids());
        assert(entries_map(self.seq()).dom() =~= self.map@.dom());
        assert forall|id: Seq<char>| #[trigger] self.map@.contains_key(id) implies entries_map(
            self.seq(),
        )[id] == *self.map@[id] by {
            let i = self.ids().index_of(id);
            assert(self.ids()[i] == id);
        }
    }

    fn empty() -> (entries: Self)
        ensures
            entries.wf(),
            entries.seq() == Seq::<(Seq<char>, Invocation)>::empty(),
    {
        let entries = Entries { map: StringHashMap::new(), order: Vec::new() };
        assert(entries.ids() =~= Seq::<Seq<char>>::empty());
        assert(entries.seq() =~= Seq::<(Seq<char>, Invocation)>::empty());
        assert forall|id: Seq<char>| #[trigger]
            entries.map@.contains_key(id) <==> entries.ids().contains(id) by {}
        entries
    }

    /// Where `instance_id` is listed, if it is.
    fn position(&self, instance_id: &str) -> (at: Option<usize>)
        ensures
            match at {
                Some(i) => i < self.ids().len() && self.ids()[i as int] == instance_id@,
                None => !self.ids().contains(instance_id@),
            },
    {
        let key = String::from_str(instance_id);
        let mut i: usize = 0;
        while i < self.order.len()
            invariant
                i <= self.order.len(),
                key@ == instance_id@,
                forall|j: int| 0 <= j < i ==> self.ids()[j] != instance_id@,
            decreases self.order.len() - i,
        {
            if self.order[i] == key {
                return Some(i);
            }
            i += 1;
        }
        None
    }

    fn insert(&mut self, instance_id: String, invocation: Arc<Invocation>)
        requires
            old(self).wf(),
        ensures
            final(self).wf(),
            final(self).seq() == if old(self).ids().contains(instance_id@) {
                old(self).seq().update(
                    old(self).ids().index_of(instance_id@),
                    (instance_id@, *invocation),
                )
            } else {
                old(self).seq().push((instance_id@, *invocation))
            },
    {
        let ghost before = *self;
        if self.map.contains_key(instance_id.as_str()) {
            self.map.insert(instance_id, invocation);
            proof {
                let at = before.ids().index_of(instance_id@);
                assert(self.ids() == before.ids());
                assert(before.ids()[at] == instance_id@);
                assert forall|i: int| 0 <= i < self.seq().len() implies self.seq()[i]
                    == before.seq().update(at, (instance_id@, *invocation))[i] by {
                    assert(before.ids()[i] == before.order@[i]@);
                    if i != at {
                        assert(before.ids()[i] != before.ids()[at]);
                    }
                }
                assert(self.seq() =~= before.seq().update(at, (instance_id@, *invocation)));
                assert forall|id: Seq<char>| #[trigger]
                    self.map@.contains_key(id) <==> self.ids().contains(id) by {}
            }
        } else {
            let listed = instance_id.clone();
            self.map.insert(instance_id, invocation);
            self.order.push(listed);
            proof {
                assert(self.ids() =~= before.ids().push(instance_id@));
                assert forall|i: int| 0 <= i < self.seq().len() implies self.seq()[i]
                    == before.seq().push((instance_id@, *invocation))[i] by {
                    if i < before.order@.len() {
                        assert(before.ids()[i] == before.order@[i]@);
                        assert(before.ids().contains(before.order@[i]@));
                    }
                }
                assert(self.seq() =~= before.seq().push((instance_id@, *invocation)));
                assert forall|id: Seq<char>| #[trigger]
                    self.map@.contains_key(id) <==> self.ids().contains(id) by {
                    if before.ids().contains(id) {
                        let i = before.ids().index_of(id);
                        assert(self.ids()[i] == id);
                    }
                    if id == instance_id@ {
                        assert(self.ids()[before.ids().len() as int] == id);
                    }
                }
            }
        }
    }

    fn remove(&mut self, instance_id: &str)
        requires
            old(self).wf(),
        ensures
            final(self).wf(),
            final(self).seq() == if old(self).ids().contains(instance_id@) {
                old(self).seq().remove(old(self).ids().index_of(instance_id@))
            } else {
                old(self).seq()
            },
    {
        let ghost before = *self;
        match self.position(instance_id) {
            Some(i) => {
                proof {
                    lemma_index_of_unique(before.ids(), i as int);
                }
                self.order.remove(i);
                self.map.remove(instance_id);
                proof {
                    assert(self.ids() =~= before.ids().remove(i as int));
                    assert forall|j: int, k: int|
                        0 <= j < self.ids().len() && 0 <= k < self.ids().len() && j
                            != k implies self.ids()[j] != self.ids()[k] by {
                        let oj = if j < i { j } else { j + 1 };
                        let ok = if k < i { k } else { k + 1 };
                        assert(self.ids()[j] == before.ids()[oj]);
                        assert(self.ids()[k] == before.ids()[ok]);
                    }
                    assert forall|id: Seq<char>| #[trigger]
                        self.map@.contains_key(id) <==> self.ids().contains(id) by {
                        if self.ids().contains(id) {
                            let j = self.ids().index_of(id);
                            let oj = if j < i { j } else { j + 1 };
                            assert(before.ids()[oj] == id);
                        }
                        if id != instance_id@ && before.ids().contains(id) {
                            let oj = before.ids().index_of(id);
                            let j = if oj < i { oj } else { oj - 1 };
                            assert(self.ids()[j] == id);
                        }
                    }
                    assert(self.seq() =~= before.seq().remove(i as int)) by {
                        assert forall|j: int| 0 <= j < self.seq().len() implies self.seq()[j]
                            == before.seq().remove(i as int)[j] by {
                            let oj = if j < i { j } else { j + 1 };
                            assert(self.order@[j] == before.order@[oj]);
                            assert(before.ids()[oj] != instance_id@);
                        }
                    }
                }
            },
            None => {},
        }
    }
}

/// The registry of what runs: each instance identifier with the endpoint of
/// its sandbox. An identifier occurs once, and the entries keep the order in
/// which their identifiers first came.
pub struct FunctionInvocations {
    root_path: String,
    functions: Entries,
}

impl View for FunctionInvocations {
    type V = Map<Seq<char>, Invocation>;

    closed spec fn view(&self) -> Map<Seq<char>, Invocation> {
        entries_map(self.entries())
    }
}

impl FunctionInvocations {
    /// The entries over plain text, in their order.
    pub closed spec fn entries(&self) -> Seq<(Seq<char>, Invocation)> {
        self.functions.seq()
    }

    /// The identifiers that have an entry, in the order of the entries.
    pub open spec fn ids(&self) -> Seq<Seq<char>> {
        entry_ids(self.entries())
    }

    /// The directory under which the bundles of the instances live.
    pub closed spec fn root(&self) -> Seq<char> {
        self.root_path@
    }

    #[verifier::type_invariant]
    spec fn listed_once(self) -> bool {
        self.functions.wf()
    }

    pub fn new(root_path: String) -> (registry: Self)
        ensures
            registry@ == Map::<Seq<char>, Invocation>::empty(),
            registry.ids() == Seq::<Seq<char>>::empty(),
            registry.root() == root_path@,
    {
        let registry = Self { root_path, functions: Entries::empty() };
        assert(registry.ids() =~= Seq::<Seq<char>>::empty());
        assert(registry@ =~= Map::<Seq<char>, Invocation>::empty());
        registry
    }

    /// The endpoint recorded for `instance_id`, if any. Nothing changes.
    pub fn get(&self, instance_id: &str) -> (found: Option<Arc<Invocation>>)
        ensures
            match found {
                Some(invocation) => self@.contains_key(instance_id@) && *invocation
                    == self@[instance_id@],
                None => !self@.contains_key(instance_id@),
            },
    {
        proof {
            use_type_invariant(self);
            self.functions.lemma_seq();
        }
        match self.functions.map.get(instance_id) {
            Some(invocation) => Some(share(invocation)),
            None => None,
        }
    }

    /// A copy of the registry as it is now: every identifier, once, with its
    /// endpoint, in the order of the entries.
    pub fn get_all(&self) -> (snapshot: Vec<(String, Arc<Invocation>)>)
        ensures
            snapshot@.len() == self.ids().len(),
            self.ids().no_duplicates(),
            self@.dom() == self.ids().to_set(),
            forall|i: int|
                0 <= i < snapshot@.len() ==> (#[trigger] snapshot@[i]).0@ == self.ids()[i]
                    && *snapshot@[i].1 == self@[self.ids()[i]],
    {
        proof {
            use_type_invariant(self);
            self.functions.lemma_seq();
            assert(self@.dom() =~= self.ids().to_set());
        }
        let mut snapshot: Vec<(String, Arc<Invocation>)> = Vec::new();
        let mut i: usize = 0;
        while i < self.functions.order.len()
            invariant
                i <= self.functions.order.len(),
                self.functions.wf(),
                self.functions.order@.len() == self.ids().len(),
                self.ids() == self.functions.ids(),
                forall|id: Seq<char>| #[trigger]
                    self.functions.map@.contains_key(id) ==> self@[id] == *self.functions.map@[id],
                snapshot@.len() == i,
                forall|j: int|
                    0 <= j < i ==> (#[trigger] snapshot@[j]).0@ == self.ids()[j] && *snapshot@[j].1
                        == self@[self.ids()[j]],
            decreases self.functions.order.len() - i,
        {
            let id = &self.functions.order[i];
            assert(self.functions.ids()[i as int] == id@);
            assert(self.functions.ids().contains(id@));
            match self.functions.map.get(id.as_str()) {
                Some(invocation) => {
                    snapshot.push((id.clone(), share(invocation)));
                },
                None => {
                    assert(false);
                },
            }
            i += 1;
        }
        snapshot
    }

    /// The identifiers that have an entry now, in the order of the entries.
    pub fn keys(&self) -> (keys: Vec<String>)
        ensures
            keys@.len() == self.ids().len(),
            self.ids().no_duplicates(),
            self@.dom() == self.ids().to_set(),
            forall|i: int| 0 <= i < keys@.len() ==> (#[trigger] keys@[i])@ == self.ids()[i],
    {
        proof {
            use_type_invariant(self);
            self.functions.lemma_seq();
            assert(self@.dom() =~= self.ids().to_set());
        }
        let mut keys: Vec<String> = Vec::new();
        let mut i: usize = 0;
        while i < self.functions.order.len()
            invariant
                i <= self.functions.order.len(),
                self.functions.order@.len() == self.ids().len(),
                self.ids() == self.functions.ids(),
                keys@.len() == i,
                forall|j: int| 0 <= j < i ==> (#[trigger] keys@[j])@ == self.ids()[j],
            decreases self.functions.order.len() - i,
        {
            keys.push(self.functions.order[i].clone());
            i += 1;
        }
        keys
    }

    /// Records `url` as the endpoint of `instance_id`, in place of whatever
    /// was recorded for it before, and hands the new record out. The entry of
    /// an identifier that had one keeps its place; a new one comes last.
    pub fn insert(&mut self, instance_id: String, url: Url) -> (recorded: Arc<Invocation>)
        ensures
            recorded.url == url,
            final(self)@ == old(self)@.insert(instance_id@, Invocation { url }),
            final(self).ids() == if old(self).ids().contains(instance_id@) {
                old(self).ids()
            } else {
                old(self).ids().push(instance_id@)
            },
            final(self).root() == old(self).root(),
    {
        proof {
            use_type_invariant(&*self);
            self.functions.lemma_seq();
        }
        let ghost record = Invocation { url };
        let ghost before = self.entries();
        let new_invocation = Arc::new(Invocation { url });
        let recorded = share(&new_invocation);
        let mut functions = Entries::empty();
        std::mem::swap(&mut self.functions, &mut functions);
        proof {
            if entry_ids(before).contains(instance_id@) {
                let at = entry_ids(before).index_of(instance_id@);
                assert(entry_ids(before)[at] == instance_id@);
                lemma_entries_update(before, at, record);
            } else {
                lemma_entries_push(before, instance_id@, record);
            }
        }
        functions.insert(instance_id, new_invocation);
        std::mem::swap(&mut self.functions, &mut functions);
        recorded
    }

    /// Records the sandbox behind `handle` as the one of `instance_id`: its
    /// endpoint is taken and inserted. Where the sandbox has no endpoint,
    /// the error is the result and the registry is as before.
    pub fn register<W: ContainerWrapper>(
        &mut self,
        instance_id: String,
        handle: &ProccesContainer<W>,
    ) -> (r: Result<Arc<Invocation>, WorkerError>)
        ensures
            exists|bundle: String| #[trigger]
                call_ensures(W::bundle, (&handle.container,), bundle) && match endpoint_of(
                    parsed_url(socket_address(bundle@)),
                ) {
                    Ok(url) => r matches Ok(recorded) && recorded.url == url && final(self)@
                        == old(self)@.insert(instance_id@, Invocation { url }),
                    Err(e) => r == Err::<Arc<Invocation>, WorkerError>(e) && final(self)@
                        == old(self)@,
                },
            final(self).root() == old(self).root(),
    {
        match handle.get_url() {
            Ok(url) => Ok(self.insert(instance_id, url)),
            Err(e) => Err(e),
        }
    }

    /// The bundle directory of `instance_id`: what a delete has to reattach
    /// to and clean up before the entry may go.
    pub fn bundle_path(&self, instance_id: &str) -> (path: String)
        ensures
            path@ == child_of(self.root(), instance_id@),
    {
        join(self.root_path.as_str(), instance_id)
    }

    /// Finishes the delete of `instance_id`. `teardown` is how reattaching to
    /// its sandbox and cleaning up its bundle went.
    ///
    /// After a teardown that went well the entry is gone, if there was one.
    /// After one that failed the registry is as before and the failure is
    /// handed on. Other identifiers keep their entries either way.
    pub fn delete(&mut self, instance_id: &str, teardown: Result<(), WorkerError>) -> (r: Result<
        (),
        WorkerError,
    >)
        ensures
            r == teardown,
            final(self)@ == if teardown is Ok {
                old(self)@.remove(instance_id@)
            } else {
                old(self)@
            },
            final(self).ids() == if teardown is Ok && old(self).ids().contains(instance_id@) {
                old(self).ids().remove(old(self).ids().index_of(instance_id@))
            } else {
                old(self).ids()
            },
            final(self).root() == old(self).root(),
    {
        proof {
            use_type_invariant(&*self);
            self.functions.lemma_seq();
        }
        if teardown.is_ok() {
            let ghost before = self.entries();
            let mut functions = Entries::empty();
            std::mem::swap(&mut self.functions, &mut functions);
            proof {
                if entry_ids(before).contains(instance_id@) {
                    let at = entry_ids(before).index_of(instance_id@);
                    assert(entry_ids(before)[at] == instance_id@);
                    assert(before[at].0 == instance_id@);
                    lemma_entries_remove(before, at);
                } else {
                    assert(entries_map(before) =~= entries_map(before).remove(instance_id@));
                }
            }
            functions.remove(instance_id);
            std::mem::swap(&mut self.functions, &mut functions);
        }
        teardown
    }

    /// Begins a delete of everything: takes down the identifiers that have
    /// an entry now. What is inserted later is not part of the sweep.
    pub fn sweep(&self) -> (sweep: Sweep)
        ensures
            sweep.pending() == self.ids(),
            self.ids().no_duplicates(),
            self@.dom() == self.ids().to_set(),
    {
        let keys = self.keys();
        let sweep = Sweep { keys, cursor: 0 };
        assert(sweep.pending() =~= self.ids());
        sweep
    }

    /// Takes the sweep one step further. `settled` is how the teardown that
    /// the step before asked for went; it is `None` where the sweep begins
    /// or takes up again.
    ///
    /// After a teardown that went well the first pending identifier leaves
    /// the registry and the sweep, and the next one is handed out, or the
    /// sweep is finished. A teardown that failed finishes the sweep with
    /// that failure: the identifier stays pending, and it and those after it
    /// keep their entries.
    pub fn delete_all(
        &mut self,
        sweep: &mut Sweep,
        settled: Option<Result<(), WorkerError>>,
    ) -> (step: SweepStep)
        ensures
            final(sweep).pending() == sweep_pending(old(sweep).pending(), settled),
            final(self)@ == sweep_registry(old(self)@, old(sweep).pending(), settled),
            step@ == sweep_step(old(self).root(), final(sweep).pending(), settled),
            final(self).root() == old(self).root(),
    {
        proof {
            use_type_invariant(&*sweep);
        }
        let ghost pending = sweep.pending();
        assert(pending.len() == sweep.keys@.len() - sweep.cursor);
        match settled {
            Some(Err(e)) => {
                return SweepStep::Finished(Err(e));
            },
            Some(Ok(())) => {
                if sweep.cursor < sweep.keys.len() {
                    assert(pending[0] == sweep.keys@[sweep.cursor as int]@);
                    let _ = self.delete(sweep.keys[sweep.cursor].as_str(), Ok(()));
                    sweep.cursor = sweep.cursor + 1;
                    assert(sweep.pending() =~= pending.drop_first());
                }
            },
            None => {},
        }
        if sweep.cursor < sweep.keys.len() {
            let key = &sweep.keys[sweep.cursor];
            assert(sweep.pending()[0] == key@);
            let bundle = self.bundle_path(key.as_str());
            SweepStep::Teardown { instance_id: key.clone(), bundle }
        } else {
            SweepStep::Finished(Ok(()))
        }
    }
}

/// One delete of everything, under way: the identifiers that the registry
/// held when it began and that are still to be taken down, in order.
pub struct Sweep {
    keys: Vec<String>,
    cursor: usize,
}

impl Sweep {
    /// The identifiers still to be taken down, the next one first.
    pub closed spec fn pending(&self) -> Seq<Seq<char>> {
        self.keys@.skip(self.cursor as int).map_values(|key: String| key@)
    }

    #[verifier::type_invariant]
    spec fn in_range(self) -> bool {
        self.cursor <= self.keys@.len()
    }
}

/// What a sweep asks of its caller next.
#[derive(Debug)]
pub enum SweepStep {
    /// Reattach to the sandbox of `instance_id` and clean up its bundle
    /// directory `bundle`, then report how that went.
    Teardown { instance_id: String, bundle: String },
    /// The sweep is over, with this result.
    Finished(Result<(), WorkerError>),
}

/// What a [`SweepStep`] says, over plain text.
pub enum SweepStepModel {
    Teardown { instance_id: Seq<char>, bundle: Seq<char> },
    Finished(Result<(), WorkerError>),
}

impl View for SweepStep {
    type V = SweepStepModel;

    open spec fn view(&self) -> SweepStepModel {
        match self {
            SweepStep::Teardown { instance_id, bundle } => SweepStepModel::Teardown {
                instance_id: instance_id@,
                bundle: bundle@,
            },
            SweepStep::Finished(result) => SweepStepModel::Finished(*result),
        }
    }
}

/// Whether a teardown was reported to have gone well while something was pending.
pub open spec fn sweep_advances(pending: Seq<Seq<char>>, settled: Option<Result<(), WorkerError>>) -> bool {
    settled matches Some(Ok(_)) && pending.len() > 0
}

/// The identifiers that are pending after a step of a sweep.
pub open spec fn sweep_pending(
    pending: Seq<Seq<char>>,
    settled: Option<Result<(), WorkerError>>,
) -> Seq<Seq<char>> {
    if sweep_advances(pending, settled) {
        pending.drop_first()
    } else {
        pending
    }
}

/// The registry after a step of a sweep.
pub open spec fn sweep_registry(
    registry: Map<Seq<char>, Invocation>,
    pending: Seq<Seq<char>>,
    settled: Option<Result<(), WorkerError>>,
) -> Map<Seq<char>, Invocation> {
    if sweep_advances(pending, settled) {
        registry.remove(pending[0])
    } else {
        registry
    }
}

/// What a step of a sweep asks for, given what is pending after it.
pub open spec fn sweep_step(
    root: Seq<char>,
    pending_after: Seq<Seq<char>>,
    settled: Option<Result<(), WorkerError>>,
) -> SweepStepModel {
    match settled {
        Some(Err(e)) => SweepStepModel::Finished(Err(e)),
        _ => if pending_after.len() > 0 {
            SweepStepModel::Teardown {
                instance_id: pending_after[0],
                bundle: child_of(root, pending_after[0]),
            }
        } else {
            SweepStepModel::Finished(Ok(()))
        },
    }
}

/// One change to the registry.
pub enum RegistryOp {
    /// `insert` of `url` for `instance_id`.
    Insert { instance_id: Seq<char>, url: Url },
    /// `delete` of `instance_id`, whose teardown went as `teardown` says.
    Delete { instance_id: Seq<char>, teardown: Result<(), WorkerError> },
}

impl RegistryOp {
    /// The identifier that the change is for.
    pub open spec fn target(self) -> Seq<char> {
        match self {
            RegistryOp::Insert { instance_id, .. } => instance_id,
            RegistryOp::Delete { instance_id, .. } => instance_id,
        }
    }
}

/// The registry after one change: what `insert` and `delete` ensure.
pub open spec fn apply(registry: Map<Seq<char>, Invocation>, op: RegistryOp) -> Map<
    Seq<char>,
    Invocation,
> {
    match op {
        RegistryOp::Insert { instance_id, url } => registry.insert(instance_id, Invocation { url }),
        RegistryOp::Delete { instance_id, teardown } => if teardown is Ok {
            registry.remove(instance_id)
        } else {
            registry
        },
    }
}

/// The registry after the changes `ops`, the first one first.
pub open spec fn apply_all(registry: Map<Seq<char>, Invocation>, ops: Seq<RegistryOp>) -> Map<
    Seq<char>,
    Invocation,
>
    decreases ops.len(),
{
    if ops.len() == 0 {
        registry
    } else {
        apply(apply_all(registry, ops.drop_last()), ops.last())
    }
}

/// What was inserted for an identifier is what a lookup finds, for as long
/// as no later insert or delete is for the same identifier.
pub proof fn law_insert_is_read_back(
    registry: Map<Seq<char>, Invocation>,
    instance_id: Seq<char>,
    url: Url,
    later: Seq<RegistryOp>,
)
    requires
        forall|i: int| 0 <= i < later.len() ==> (#[trigger] later[i]).target() != instance_id,
    ensures
        apply_all(apply(registry, RegistryOp::Insert { instance_id, url }), later).contains_key(
            instance_id,
        ),
        apply_all(apply(registry, RegistryOp::Insert { instance_id, url }), later)[instance_id].url
            == url,
    decreases later.len(),
{
    if later.len() > 0 {
        law_insert_is_read_back(registry, instance_id, url, later.drop_last());
        assert(later.last().target() != instance_id);
    }
}

/// A delete whose teardown failed leaves the registry as it was, and any
/// delete leaves the entries of all other identifiers as they were.
pub proof fn law_delete_keeps_the_rest(
    registry: Map<Seq<char>, Invocation>,
    instance_id: Seq<char>,
    teardown: Result<(), WorkerError>,
    other: Seq<char>,
)
    ensures
        teardown is Err ==> apply(registry, RegistryOp::Delete { instance_id, teardown })
            == registry,
        other != instance_id ==> apply(
            registry,
            RegistryOp::Delete { instance_id, teardown },
        ).contains_key(other) == registry.contains_key(other),
        other != instance_id && registry.contains_key(other) ==> apply(
            registry,
            RegistryOp::Delete { instance_id, teardown },
        )[other] == registry[other],
{
}

/// The registry and the pending identifiers of a sweep after its caller has
/// reported `outcomes`, one for each teardown it was asked for, in order.
pub open spec fn sweep_state(
    registry: Map<Seq<char>, Invocation>,
    pending: Seq<Seq<char>>,
    outcomes: Seq<Result<(), WorkerError>>,
) -> (Map<Seq<char>, Invocation>, Seq<Seq<char>>)
    decreases outcomes.len(),
{
    if outcomes.len() == 0 {
        (registry, pending)
    } else {
        let before = sweep_state(registry, pending, outcomes.drop_last());
        (
            sweep_registry(before.0, before.1, Some(outcomes.last())),
            sweep_pending(before.1, Some(outcomes.last())),
        )
    }
}

/// What the sweep asks for once its caller has reported `outcomes`.
pub open spec fn sweep_asks(
    root: Seq<char>,
    registry: Map<Seq<char>, Invocation>,
    pending: Seq<Seq<char>>,
    outcomes: Seq<Result<(), WorkerError>>,
) -> SweepStepModel {
    sweep_step(
        root,
        sweep_state(registry, pending, outcomes).1,
        if outcomes.len() == 0 {
            None
        } else {
            Some(outcomes.last())
        },
    )
}

/// While every teardown goes well, a sweep takes the pending identifiers
/// down in their order: after `n` reports the first `n` of them have left
/// the registry and the sweep, and the sweep asks for the teardown of the
/// next one, or is finished where none is left.
pub proof fn law_sweep_in_order(
    root: Seq<char>,
    registry: Map<Seq<char>, Invocation>,
    pending: Seq<Seq<char>>,
    outcomes: Seq<Result<(), WorkerError>>,
)
    requires
        outcomes.len() <= pending.len(),
        forall|i: int| 0 <= i < outcomes.len() ==> (#[trigger] outcomes[i]) is Ok,
    ensures
        sweep_state(registry, pending, outcomes).0 == registry.remove_keys(
            pending.take(outcomes.len() as int).to_set(),
        ),
        sweep_state(registry, pending, outcomes).1 == pending.skip(outcomes.len() as int),
        sweep_asks(root, registry, pending, outcomes) == if outcomes.len() < pending.len() {
            SweepStepModel::Teardown {
                instance_id: pending[outcomes.len() as int],
                bundle: child_of(root, pending[outcomes.len() as int]),
            }
        } else {
            SweepStepModel::Finished(Ok(()))
        },
    decreases outcomes.len(),
{
    let n = outcomes.len() as int;
    if n == 0 {
        assert(pending.take(0).to_set() =~= Set::<Seq<char>>::empty());
        assert(registry.remove_keys(Set::<Seq<char>>::empty()) =~= registry);
        assert(pending.skip(0) =~= pending);
    } else {
        let earlier = outcomes.drop_last();
        law_sweep_in_order(root, registry, pending, earlier);
        let before = sweep_state(registry, pending, earlier);
        assert(outcomes.last() is Ok);
        assert(before.1 == pending.skip(n - 1));
        assert(before.1.len() > 0);
        assert(before.1[0] == pending[n - 1]);
        assert(before.1.drop_first() =~= pending.skip(n));
        assert(pending.take(n).to_set() =~= pending.take(n - 1).to_set().insert(pending[n - 1])) by {
            assert forall|k: Seq<char>| pending.take(n).contains(k) <==> (pending.take(
                n - 1,
            ).contains(k) || k == pending[n - 1]) by {
                if pending.take(n).contains(k) {
                    let i = pending.take(n).index_of(k);
                    if i < n - 1 {
                        assert(pending.take(n - 1)[i] == k);
                    }
                }
                if pending.take(n - 1).contains(k) {
                    let i = pending.take(n - 1).index_of(k);
                    assert(pending.take(n)[i] == k);
                }
                if k == pending[n - 1] {
                    assert(pending.take(n)[n - 1] == k);
                }
            }
        }
        assert(before.0.remove(pending[n - 1]) =~= registry.remove_keys(pending.take(n).to_set()));
    }
}

/// A delete of everything in which no teardown fails empties the registry:
/// with `pending` the identifiers of all its entries, each once, the sweep
/// asks for one teardown for each of them, each for another bundle
/// directory, and once all are reported it is finished with `Ok` and the
/// registry holds nothing.
pub proof fn law_delete_all_empties(
    root: Seq<char>,
    registry: Map<Seq<char>, Invocation>,
    pending: Seq<Seq<char>>,
    outcomes: Seq<Result<(), WorkerError>>,
)
    requires
        pending.no_duplicates(),
        registry.dom() == pending.to_set(),
        outcomes.len() == pending.len(),
        forall|i: int| 0 <= i < outcomes.len() ==> (#[trigger] outcomes[i]) is Ok,
    ensures
        sweep_state(registry, pending, outcomes).0 == Map::<Seq<char>, Invocation>::empty(),
        sweep_asks(root, registry, pending, outcomes) == SweepStepModel::Finished(Ok(())),
        forall|k: int|
            0 <= k < pending.len() ==> #[trigger] sweep_asks(
                root,
                registry,
                pending,
                outcomes.take(k),
            ) == (SweepStepModel::Teardown {
                instance_id: pending[k],
                bundle: child_of(root, pending[k]),
            }),
        forall|j: int, k: int|
            0 <= j < k < pending.len() ==> child_of(root, pending[j]) != child_of(
                root,
                pending[k],
            ),
{
    law_sweep_in_order(root, registry, pending, outcomes);
    assert(pending.take(pending.len() as int) =~= pending);
    assert(registry.remove_keys(pending.to_set()) =~= Map::<Seq<char>, Invocation>::empty());
    assert forall|k: int| 0 <= k < pending.len() implies #[trigger] sweep_asks(
        root,
        registry,
        pending,
        outcomes.take(k),
    ) == (SweepStepModel::Teardown {
        instance_id: pending[k],
        bundle: child_of(root, pending[k]),
    }) by {
        law_sweep_in_order(root, registry, pending, outcomes.take(k));
    }
    assert forall|j: int, k: int| 0 <= j < k < pending.len() implies child_of(root, pending[j])
        != child_of(root, pending[k]) by {
        crate::layout::lemma_child_of_is_injective(root, pending[j], pending[k]);
    }
}

/// The first teardown that fails ends a sweep with that failure: the
/// identifiers before it have left the registry, and it and those after it
/// keep their entries and stay pending.
pub proof fn law_sweep_stops_at_failure(
    root: Seq<char>,
    registry: Map<Seq<char>, Invocation>,
    pending: Seq<Seq<char>>,
    outcomes: Seq<Result<(), WorkerError>>,
    failure: WorkerError,
)
    requires
        outcomes.len() < pending.len(),
        forall|i: int| 0 <= i < outcomes.len() ==> (#[trigger] outcomes[i]) is Ok,
    ensures
        sweep_asks(root, registry, pending, outcomes.push(Err(failure)))
            == SweepStepModel::Finished(Err(failure)),
        sweep_state(registry, pending, outcomes.push(Err(failure))).0 == registry.remove_keys(
            pending.take(outcomes.len() as int).to_set(),
        ),
        sweep_state(registry, pending, outcomes.push(Err(failure))).1 == pending.skip(
            outcomes.len() as int,
        ),
{
    law_sweep_in_order(root, registry, pending, outcomes);
    assert(outcomes.push(Err(failure)).drop_last() =~= outcomes);
}

} // verus!
