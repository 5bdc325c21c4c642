//! Routing of runtime-service requests: a pod sandbox is served by the runtime
//! that created it, a container by the runtime of its sandbox. Each request
//! is a route taken before the runtime is asked and a step taken on its answer.

use vstd::prelude::*;

use crate::common::{ChariotError, RpcCode, RpcStatus};
use crate::shim::storage::{
    directory_name, directory_text, failure_text, not_found_text, Container, ContainerView, Sandbox,
    SandboxView, Storage, StorageView,
};
use crate::shim::{answers, client_decision, Decision, Runtimes, RuntimesView};

verus! {

/// The routing state of the runtime service.
pub struct RuntimeShim {
    runtimes: Runtimes,
    storage: Storage,
}

pub struct RuntimeShimView {
    pub runtimes: RuntimesView,
    pub storage: StorageView,
}

impl View for RuntimeShim {
    type V = RuntimeShimView;

    closed spec fn view(&self) -> RuntimeShimView {
        RuntimeShimView { runtimes: self.runtimes@, storage: self.storage@ }
    }
}

/// Where a request about pod sandbox `id` goes: refused when its record
/// cannot be read, otherwise to the runtime named in its record.
pub open spec fn sandbox_decision(v: RuntimeShimView, id: Seq<char>) -> Decision {
    if !directory_name(id) && v.storage.sandboxes.contains_key(id) {
        client_decision(v.runtimes, v.storage.sandboxes[id].runtime)
    } else {
        Decision::Refused(RpcCode::Internal, failure_text(id))
    }
}

/// Where a request about container `id` goes: refused when its record
/// cannot be read, otherwise to the runtime named in its record.
pub open spec fn container_decision(v: RuntimeShimView, id: Seq<char>) -> Decision {
    if !directory_name(id) && v.storage.containers.contains_key(id) {
        client_decision(v.runtimes, v.storage.containers[id].runtime)
    } else {
        Decision::Refused(RpcCode::Internal, failure_text(id))
    }
}

/// `r` carries out decision `d` and, when it routes, hands back the record `rec`.
pub open spec fn routes_with<T, V>(r: Result<(T, String), RpcStatus>, d: Decision, view: spec_fn(T) -> V, rec: V) -> bool {
    match r {
        Ok((t, n)) => answers(Ok(n), d) && view(t) == rec,
        Err(st) => answers(Err(st), d),
    }
}

/// The sandbox records after sandboxes `ids`, listed by runtime `runtime`,
/// are recorded in order.
pub open spec fn with_sandboxes(m: Map<Seq<char>, SandboxView>, ids: Seq<Seq<char>>, runtime: Seq<char>) -> Map<Seq<char>, SandboxView>
    decreases ids.len(),
{
    if ids.len() == 0 {
        m
    } else {
        with_sandboxes(m, ids.drop_last(), runtime).insert(ids.last(), SandboxView { id: ids.last(), runtime })
    }
}

/// The container records after containers `listed` (id and sandbox id),
/// listed by runtime `runtime`, are recorded in order.
pub open spec fn with_containers(
    m: Map<Seq<char>, ContainerView>,
    listed: Seq<(Seq<char>, Seq<char>)>,
    runtime: Seq<char>,
) -> Map<Seq<char>, ContainerView>
    decreases listed.len(),
{
    if listed.len() == 0 {
        m
    } else {
        with_containers(m, listed.drop_last(), runtime).insert(
            listed.last().0,
            ContainerView { id: listed.last().0, sandbox: listed.last().1, runtime },
        )
    }
}

/// The reply to a request sent to every runtime in turn, stopping at the
/// first refusal: that refusal, or success.
pub open spec fn first_refusal<T>(answers: Seq<Result<T, RpcStatus>>) -> Result<(), RpcStatus>
    decreases answers.len(),
{
    if answers.len() == 0 {
        Ok(())
    } else {
        match answers[0] {
            Err(st) => Err(st),
            Ok(_) => first_refusal(answers.drop_first()),
        }
    }
}

/// The reply to a listing request sent to every runtime in turn, stopping at
/// the first refusal: that refusal, or all listings one after the other.
pub open spec fn gathered<T>(answers: Seq<Result<Seq<T>, RpcStatus>>) -> Result<Seq<T>, RpcStatus>
    decreases answers.len(),
{
    if answers.len() == 0 {
        Ok(Seq::empty())
    } else {
        match answers[0] {
            Err(st) => Err(st),
            Ok(l) => match gathered(answers.drop_first()) {
                Ok(rest) => Ok(l + rest),
                Err(st) => Err(st),
            },
        }
    }
}

/// The views of listing answers.
pub open spec fn answer_views<T>(v: Seq<Result<Vec<T>, RpcStatus>>) -> Seq<Result<Seq<T>, RpcStatus>> {
    v.map_values(|a: Result<Vec<T>, RpcStatus>| match a {
        Ok(l) => Ok(l@),
        Err(st) => Err(st),
    })
}

/// The views of a list of strings.
pub open spec fn string_views(v: Seq<String>) -> Seq<Seq<char>> {
    v.map_values(|s: String| s@)
}

/// The views of a list of string pairs.
pub open spec fn pair_views(v: Seq<(String, String)>) -> Seq<(Seq<char>, Seq<char>)> {
    v.map_values(|p: (String, String)| (p.0@, p.1@))
}

fn internal(e: ChariotError) -> (s: RpcStatus)
    ensures
        s == crate::common::status_of_error(e),
{
    RpcStatus::from(e)
}

impl RuntimeShim {
    /// A shim with no runtime connected yet, over the records in `storage`.
    pub fn new(default_runtime: String, storage: Storage) -> (s: RuntimeShim)
        ensures
            s@.runtimes.names == Set::<Seq<char>>::empty(),
            s@.runtimes.default_runtime == default_runtime@,
            s@.storage == storage@,
    {
        RuntimeShim { runtimes: Runtimes::new(default_runtime), storage }
    }

    /// The records kept.
    pub fn storage(&self) -> (s: &Storage)
        ensures
            s@ == self@.storage,
    {
        &self.storage
    }

    /// The names of all connected runtimes, each once; list requests are sent to each.
    pub fn runtime_names(&self) -> (v: Vec<String>)
        ensures
            v@.map_values(|n: String| n@).to_set() == self@.runtimes.names,
            v@.map_values(|n: String| n@).no_duplicates(),
    {
        self.runtimes.names()
    }

    /// Connecting runtime `runtime`, on its answer to the sandbox listing:
    /// a refusal (its text) fails the connection with nothing recorded;
    /// otherwise the listed sandboxes are recorded as served by `runtime`, in
    /// order, up to the first that cannot be recorded, which fails the
    /// connection with what was recorded kept.
    #[verifier::loop_isolation(false)]
    pub fn sync_sandboxes(&mut self, runtime: &String, listing: Result<Vec<String>, String>) -> (r: Result<(), ChariotError>)
        ensures
            final(self)@.runtimes == old(self)@.runtimes,
            final(self)@.storage.containers == old(self)@.storage.containers,
            match listing {
                Err(msg) => r == Err::<(), ChariotError>(ChariotError::CriError(msg))
                    && final(self)@.storage.sandboxes == old(self)@.storage.sandboxes,
                Ok(ids) => exists|n: int|
                    0 <= n <= ids.len() && final(self)@.storage.sandboxes == with_sandboxes(
                        old(self)@.storage.sandboxes,
                        string_views(ids@).take(n),
                        runtime@,
                    ) && (r is Ok <==> n == ids.len()) && (forall|j: int|
                        0 <= j < n && !ids@[j]@.contains('/') ==> !directory_name(#[trigger] ids@[j]@)) && (
                    r matches Err(e) ==> n < ids.len() && e == ChariotError::IOError(e->IOError_0)
                        && e->IOError_0@ == directory_text() && (!ids@[n]@.contains('/') ==> directory_name(
                        ids@[n]@,
                    ))),
            },
            listing matches Ok(ids) ==> r is Ok ==> forall|j: int|
                0 <= j < ids.len() ==> final(self)@.storage.sandboxes.contains_key(#[trigger] ids@[j]@)
                    && final(self)@.storage.sandboxes[ids@[j]@] == (SandboxView { id: ids@[j]@, runtime: runtime@ }),
    {
        match listing {
            Err(msg) => Err(ChariotError::CriError(msg)),
            Ok(ids) => {
                let ghost s0 = self@.storage.sandboxes;
                let ghost views = string_views(ids@);
                let mut i: usize = 0;
                while i < ids.len()
                    invariant
                        i <= ids.len(),
                        views == string_views(ids@),
                        self@.runtimes == old(self)@.runtimes,
                        self@.storage.containers == old(self)@.storage.containers,
                        self@.storage.sandboxes == with_sandboxes(s0, views.take(i as int), runtime@),
                        forall|j: int| 0 <= j < i && !ids@[j]@.contains('/') ==> !directory_name(#[trigger] ids@[j]@),
                    decreases ids.len() - i,
                {
                    let record = Sandbox { id: ids[i].clone(), runtime: runtime.clone() };
                    match self.storage.persist_sandbox(&record) {
                        Ok(()) => {},
                        Err(e) => {
                            assert(views.take(i as int).len() == i);
                            return Err(e);
                        },
                    }
                    proof {
                        assert(views.take(i + 1).drop_last() =~= views.take(i as int));
                    }
                    i = i + 1;
                }
                proof {
                    assert(views.take(ids.len() as int) =~= views);
                    law_sync_records_listed_sandboxes(s0, views, runtime@);
                    assert forall|j: int| 0 <= j < ids.len() implies self@.storage.sandboxes.contains_key(#[trigger] ids@[j]@)
                        && self@.storage.sandboxes[ids@[j]@] == (SandboxView { id: ids@[j]@, runtime: runtime@ }) by {
                        assert(views[j] == ids@[j]@);
                    }
                }
                Ok(())
            },
        }
    }

    /// Connecting runtime `runtime`, on its answer to the container listing
    /// (each container's id and sandbox id): as for the sandbox listing.
    #[verifier::loop_isolation(false)]
    pub fn sync_containers(&mut self, runtime: &String, listing: Result<Vec<(String, String)>, String>) -> (r: Result<(), ChariotError>)
        ensures
            final(self)@.runtimes == old(self)@.runtimes,
            final(self)@.storage.sandboxes == old(self)@.storage.sandboxes,
            match listing {
                Err(msg) => r == Err::<(), ChariotError>(ChariotError::CriError(msg))
                    && final(self)@.storage.containers == old(self)@.storage.containers,
                Ok(listed) => exists|n: int|
                    0 <= n <= listed.len() && final(self)@.storage.containers == with_containers(
                        old(self)@.storage.containers,
                        pair_views(listed@).take(n),
                        runtime@,
                    ) && (r is Ok <==> n == listed.len()) && (forall|j: int|
                        0 <= j < n && !listed@[j].0@.contains('/') ==> !directory_name(#[trigger] listed@[j].0@)) && (
                    r matches Err(e) ==> n < listed.len() && e == ChariotError::IOError(e->IOError_0)
                        && e->IOError_0@ == directory_text() && (!listed@[n].0@.contains('/') ==> directory_name(
                        listed@[n].0@,
                    ))),
            },
            listing matches Ok(listed) ==> r is Ok ==> forall|j: int|
                0 <= j < listed.len() ==> final(self)@.storage.containers.contains_key((#[trigger] listed@[j]).0@)
                    && final(self)@.storage.containers[listed@[j].0@].id == listed@[j].0@
                    && final(self)@.storage.containers[listed@[j].0@].runtime == runtime@,
            listing matches Ok(listed) ==> r is Ok ==> forall|j: int|
                0 <= j < listed.len() && (forall|k: int| j < k < listed.len() ==> listed@[k].0@ != listed@[j].0@)
                    ==> final(self)@.storage.containers[(#[trigger] listed@[j]).0@] == (ContainerView {
                    id: listed@[j].0@,
                    sandbox: listed@[j].1@,
                    runtime: runtime@,
                }),
    {
        match listing {
            Err(msg) => Err(ChariotError::CriError(msg)),
            Ok(listed) => {
                let ghost c0 = self@.storage.containers;
                let ghost views = pair_views(listed@);
                let mut i: usize = 0;
                while i < listed.len()
                    invariant
                        i <= listed.len(),
                        views == pair_views(listed@),
                        self@.runtimes == old(self)@.runtimes,
                        self@.storage.sandboxes == old(self)@.storage.sandboxes,
                        self@.storage.containers == with_containers(c0, views.take(i as int), runtime@),
                        forall|j: int| 0 <= j < i && !listed@[j].0@.contains('/') ==> !directory_name(#[trigger] listed@[j].0@),
                    decreases listed.len() - i,
                {
                    let record = Container {
                        id: listed[i].0.clone(),
                        sandbox: listed[i].1.clone(),
                        runtime: runtime.clone(),
                    };
                    match self.storage.persist_container(&record) {
                        Ok(()) => {},
                        Err(e) => {
                            assert(views.take(i as int).len() == i);
                            return Err(e);
                        },
                    }
                    proof {
                        assert(views.take(i + 1).drop_last() =~= views.take(i as int));
                    }
                    i = i + 1;
                }
                proof {
                    assert(views.take(listed.len() as int) =~= views);
                    law_sync_records_listed_containers(c0, views, runtime@);
                    assert forall|j: int| 0 <= j < listed.len() implies self@.storage.containers.contains_key(
                        (#[trigger] listed@[j]).0@,
                    ) && self@.storage.containers[listed@[j].0@].id == listed@[j].0@
                        && self@.storage.containers[listed@[j].0@].runtime == runtime@ by {
                        assert(views[j] == (listed@[j].0@, listed@[j].1@));
                    }
                    assert forall|j: int|
                        0 <= j < listed.len() && (forall|k: int| j < k < listed.len() ==> listed@[k].0@ != listed@[j].0@)
                            implies self@.storage.containers[(#[trigger] listed@[j]).0@] == (ContainerView {
                            id: listed@[j].0@,
                            sandbox: listed@[j].1@,
                            runtime: runtime@,
                        }) by {
                        assert(views[j] == (listed@[j].0@, listed@[j].1@));
                        assert forall|k: int| j < k < views.len() implies views[k].0 != views[j].0 by {
                            assert(views[k] == (listed@[k].0@, listed@[k].1@));
                        }
                    }
                }
                Ok(())
            },
        }
    }

    /// Connecting runtime `name`, once its records are synced: requests may
    /// now be sent to it.
    pub fn register_runtime(&mut self, name: String)
        ensures
            final(self)@.runtimes.names == old(self)@.runtimes.names.insert(name@),
            final(self)@.runtimes.default_runtime == old(self)@.runtimes.default_runtime,
            final(self)@.storage == old(self)@.storage,
    {
        self.runtimes.register(name);
    }

    /// The client a request naming runtime handler `handler` is sent to
    /// (running a pod sandbox); an empty handler means the default runtime.
    pub fn get_client(&self, handler: &str) -> (r: Result<String, RpcStatus>)
        ensures
            answers(r, client_decision(self@.runtimes, handler@)),
    {
        self.runtimes.get_client(handler)
    }

    /// The client of the default runtime (version, status and runtime
    /// configuration requests).
    pub fn get_default_client(&self) -> (r: Result<String, RpcStatus>)
        ensures
            answers(r, client_decision(self@.runtimes, self@.runtimes.default_runtime)),
    {
        self.runtimes.get_default_client()
    }

    /// Routes a request about pod sandbox `id`, handing back its record.
    pub fn route_sandbox(&self, id: &str) -> (r: Result<(Sandbox, String), RpcStatus>)
        ensures
            !id@.contains('/') ==> routes_with(r, sandbox_decision(self@, id@), |s: Sandbox| s@, self@.storage.sandboxes[id@]),
            r matches Ok((s, n)) ==> self@.storage.sandboxes.contains_key(id@) && s@ == self@.storage.sandboxes[id@]
                && answers(Ok(n), client_decision(self@.runtimes, s.runtime@)),
    {
        match self.storage.get_sandbox(id) {
            Ok(sandbox) => match self.runtimes.get_client(sandbox.runtime.as_str()) {
                Ok(n) => Ok((sandbox, n)),
                Err(st) => Err(st),
            },
            Err(e) => Err(internal(e)),
        }
    }

    /// Routes a request about container `id`, handing back its record.
    pub fn route_container(&self, id: &str) -> (r: Result<(Container, String), RpcStatus>)
        ensures
            !id@.contains('/') ==> routes_with(r, container_decision(self@, id@), |c: Container| c@, self@.storage.containers[id@]),
            r matches Ok((c, n)) ==> self@.storage.containers.contains_key(id@) && c@ == self@.storage.containers[id@]
                && answers(Ok(n), client_decision(self@.runtimes, c.runtime@)),
    {
        match self.storage.get_container(id) {
            Ok(container) => match self.runtimes.get_client(container.runtime.as_str()) {
                Ok(n) => Ok((container, n)),
                Err(st) => Err(st),
            },
            Err(e) => Err(internal(e)),
        }
    }

    /// Running a pod sandbox with handler `handler`, on the runtime's answer:
    /// a refusal is passed on with nothing recorded; a sandbox it started (its
    /// id and the reply) is recorded under the handler and the reply passed
    /// on, unless its id cannot be recorded, which fails the request.
    pub fn after_run_pod_sandbox<T>(&mut self, handler: String, answer: Result<(String, T), RpcStatus>) -> (r: Result<T, RpcStatus>)
        ensures
            final(self)@.runtimes == old(self)@.runtimes,
            final(self)@.storage.containers == old(self)@.storage.containers,
            match answer {
                Err(st) => r == Err::<T, RpcStatus>(st) && final(self)@.storage.sandboxes == old(self)@.storage.sandboxes,
                Ok((id, reply)) => (r is Ok ==> r == Ok::<T, RpcStatus>(reply) && final(self)@.storage.sandboxes
                    == old(self)@.storage.sandboxes.insert(id@, SandboxView { id: id@, runtime: handler@ }))
                    && (r matches Err(st) ==> st.code == RpcCode::Internal && st.message@ == directory_text()
                    && final(self)@.storage.sandboxes == old(self)@.storage.sandboxes)
                    && (!id@.contains('/') ==> (r is Ok <==> !directory_name(id@)))
                    && (!id@.contains('/') ==> (r is Ok <==> (id@.len() >= 3 || (id@.len() == 1 && id@[0] != '.') || (
                    id@.len() == 2 && (id@[0] != '.' || id@[1] != '.'))))),
            },
    {
        match answer {
            Err(st) => Err(st),
            Ok((id, reply)) => match self.storage.persist_sandbox(&Sandbox { id, runtime: handler }) {
                Ok(()) => Ok(reply),
                Err(e) => Err(internal(e)),
            },
        }
    }

    /// Creating a container in the pod sandbox `sandbox_id` of the request,
    /// whose record `sandbox` routed it, on the runtime's answer: a refusal is
    /// passed on with nothing recorded; a container it created (its id and the
    /// reply) is recorded as belonging to `sandbox_id` and running where that
    /// sandbox runs, and the reply passed on, unless its id cannot be recorded.
    pub fn after_create_container<T>(&mut self, sandbox_id: String, sandbox: &Sandbox, answer: Result<(String, T), RpcStatus>) -> (r: Result<T, RpcStatus>)
        ensures
            final(self)@.runtimes == old(self)@.runtimes,
            final(self)@.storage.sandboxes == old(self)@.storage.sandboxes,
            match answer {
                Err(st) => r == Err::<T, RpcStatus>(st) && final(self)@.storage.containers == old(self)@.storage.containers,
                Ok((id, reply)) => (r is Ok ==> r == Ok::<T, RpcStatus>(reply) && final(self)@.storage.containers
                    == old(self)@.storage.containers.insert(
                    id@,
                    ContainerView { id: id@, sandbox: sandbox_id@, runtime: sandbox.runtime@ },
                )) && (r matches Err(st) ==> st.code == RpcCode::Internal && st.message@ == directory_text()
                    && final(self)@.storage.containers == old(self)@.storage.containers)
                    && (!id@.contains('/') ==> (r is Ok <==> !directory_name(id@)))
                    && (!id@.contains('/') ==> (r is Ok <==> (id@.len() >= 3 || (id@.len() == 1 && id@[0] != '.') || (
                    id@.len() == 2 && (id@[0] != '.' || id@[1] != '.'))))),
            },
    {
        match answer {
            Err(st) => Err(st),
            Ok((id, reply)) => {
                let record = Container { id, sandbox: sandbox_id, runtime: sandbox.runtime.clone() };
                match self.storage.persist_container(&record) {
                    Ok(()) => Ok(reply),
                    Err(e) => Err(internal(e)),
                }
            },
        }
    }

    /// Removing pod sandbox `id`, on the runtime's answer: a refusal is passed
    /// on and the record kept; otherwise the record is forgotten and the reply
    /// passed on, unless the record cannot be removed, which fails the request.
    pub fn after_remove_pod_sandbox<T>(&mut self, id: &str, answer: Result<T, RpcStatus>) -> (r: Result<T, RpcStatus>)
        ensures
            final(self)@.runtimes == old(self)@.runtimes,
            final(self)@.storage.containers == old(self)@.storage.containers,
            match answer {
                Err(st) => r == Err::<T, RpcStatus>(st) && final(self)@.storage.sandboxes == old(self)@.storage.sandboxes,
                Ok(reply) => (r is Ok ==> r == Ok::<T, RpcStatus>(reply) && old(self)@.storage.sandboxes.contains_key(id@)
                    && final(self)@.storage.sandboxes == old(self)@.storage.sandboxes.remove(id@))
                    && (r matches Err(st) ==> st.code == RpcCode::Internal
                    && final(self)@.storage.sandboxes == old(self)@.storage.sandboxes
                    && (!id@.contains('/') ==> st.message@ == failure_text(id@)))
                    && (!id@.contains('/') ==> (r is Ok <==> !directory_name(id@) && old(self)@.storage.sandboxes.contains_key(id@))),
            },
    {
        match answer {
            Err(st) => Err(st),
            Ok(reply) => match self.storage.remove_sandbox(id) {
                Ok(()) => Ok(reply),
                Err(e) => Err(internal(e)),
            },
        }
    }

    /// Removing container `id`, on the runtime's answer: as for a pod sandbox.
    pub fn after_remove_container<T>(&mut self, id: &str, answer: Result<T, RpcStatus>) -> (r: Result<T, RpcStatus>)
        ensures
            final(self)@.runtimes == old(self)@.runtimes,
            final(self)@.storage.sandboxes == old(self)@.storage.sandboxes,
            match answer {
                Err(st) => r == Err::<T, RpcStatus>(st) && final(self)@.storage.containers == old(self)@.storage.containers,
                Ok(reply) => (r is Ok ==> r == Ok::<T, RpcStatus>(reply) && old(self)@.storage.containers.contains_key(id@)
                    && final(self)@.storage.containers == old(self)@.storage.containers.remove(id@))
                    && (r matches Err(st) ==> st.code == RpcCode::Internal
                    && final(self)@.storage.containers == old(self)@.storage.containers
                    && (!id@.contains('/') ==> st.message@ == failure_text(id@)))
                    && (!id@.contains('/') ==> (r is Ok <==> !directory_name(id@) && old(self)@.storage.containers.contains_key(id@))),
            },
    {
        match answer {
            Err(st) => Err(st),
            Ok(reply) => match self.storage.remove_container(id) {
                Ok(()) => Ok(reply),
                Err(e) => Err(internal(e)),
            },
        }
    }
}

/// The reply to a runtime-configuration update, from the runtimes' answers in
/// the order they were asked (no runtime is asked after one refuses).
#[verifier::loop_isolation(false)]
pub fn config_reply<T>(answers: Vec<Result<T, RpcStatus>>) -> (r: Result<(), RpcStatus>)
    ensures
        r == first_refusal(answers@),
        r is Ok <==> forall|i: int| 0 <= i < answers.len() ==> #[trigger] answers@[i] is Ok,
        forall|i: int|
            0 <= i < answers.len() && #[trigger] answers@[i] is Err && (forall|k: int| 0 <= k < i ==> answers@[k] is Ok)
                ==> r == Err::<(), RpcStatus>(answers@[i]->Err_0),
{
    proof {
        law_reply_is_first_refusal(answers@);
    }
    let ghost all = answers@;
    assert(all.len() == answers.len());
    let mut rest = answers;
    let mut done: usize = 0;
    assert(all.skip(0) =~= all);
    while rest.len() > 0
        invariant
            done + rest.len() == all.len(),
            all.len() <= usize::MAX,
            rest@ == all.skip(done as int),
            first_refusal(all) == first_refusal(all.skip(done as int)),
        decreases rest.len(),
    {
        let ghost tail = rest@;
        let a = rest.remove(0);
        proof {
            assert(tail.drop_first() =~= all.skip(done + 1));
            assert(rest@ =~= all.skip(done + 1));
        }
        match a {
            Err(st) => {
                assert(first_refusal(tail) == Err::<(), RpcStatus>(st));
                return Err(st);
            },
            Ok(_) => {
                assert(first_refusal(tail) == first_refusal(tail.drop_first()));
            },
        }
        done = done + 1;
    }
    assert(all.skip(done as int) =~= Seq::<Result<T, RpcStatus>>::empty());
    Ok(())
}

proof fn listing_views_agree<T>(answers: Seq<Result<Vec<T>, RpcStatus>>)
    ensures
        gathered(answer_views(answers)) is Ok <==> forall|i: int| 0 <= i < answers.len() ==> #[trigger] answers[i] is Ok,
        forall|i: int|
            0 <= i < answers.len() && #[trigger] answers[i] is Err && (forall|k: int| 0 <= k < i ==> answers[k] is Ok)
                ==> gathered(answer_views(answers)) == Err::<Seq<T>, RpcStatus>(answers[i]->Err_0),
        gathered(answer_views(answers)) matches Ok(s) ==> s == answers.map_values(
            |a: Result<Vec<T>, RpcStatus>| a->Ok_0@,
        ).flatten(),
{
    let av = answer_views(answers);
    assert forall|i: int| 0 <= i < answers.len() implies (#[trigger] av[i] is Ok <==> answers[i] is Ok) && (
    answers[i] is Err ==> av[i]->Err_0 == answers[i]->Err_0) by {}
    assert(gathered(av) is Ok <==> forall|i: int| 0 <= i < answers.len() ==> #[trigger] answers[i] is Ok) by {
        gathered_ok_iff(av);
        if forall|i: int| 0 <= i < answers.len() ==> #[trigger] answers[i] is Ok {
            assert forall|i: int| 0 <= i < av.len() implies #[trigger] av[i] is Ok by {
                assert(answers[i] is Ok);
            }
        }
        if gathered(av) is Ok {
            assert forall|i: int| 0 <= i < answers.len() implies #[trigger] answers[i] is Ok by {
                assert(av[i] is Ok);
            }
        }
    }
    assert forall|i: int|
        0 <= i < answers.len() && #[trigger] answers[i] is Err && (forall|k: int| 0 <= k < i ==> answers[k] is Ok)
            implies gathered(av) == Err::<Seq<T>, RpcStatus>(answers[i]->Err_0) by {
        assert(av[i] is Err);
        assert forall|k: int| 0 <= k < i implies #[trigger] av[k] is Ok by {
            assert(answers[k] is Ok);
        }
        gathered_refusal_at(av, i);
    }
    if gathered(av) is Ok {
        assert forall|i: int| 0 <= i < av.len() implies #[trigger] av[i] is Ok by {
            assert(answers[i] is Ok);
        }
        gathered_all_listed(av);
        assert(av.map_values(|a: Result<Seq<T>, RpcStatus>| a->Ok_0) =~= answers.map_values(
            |a: Result<Vec<T>, RpcStatus>| a->Ok_0@,
        ));
    }
}

/// The answer to a listing request sent to every runtime in turn, from their
/// answers in the order they were asked: the first refusal, or all listings
/// one after the other.
#[verifier::loop_isolation(false)]
pub fn merge_listings<T>(answers: Vec<Result<Vec<T>, RpcStatus>>) -> (r: Result<Vec<T>, RpcStatus>)
    ensures
        match (r, gathered(answer_views(answers@))) {
            (Ok(v), Ok(s)) => v@ == s,
            (Err(a), Err(b)) => a == b,
            _ => false,
        },
        r is Ok <==> forall|i: int| 0 <= i < answers.len() ==> #[trigger] answers@[i] is Ok,
        forall|i: int|
            0 <= i < answers.len() && #[trigger] answers@[i] is Err && (forall|k: int| 0 <= k < i ==> answers@[k] is Ok)
                ==> r == Err::<Vec<T>, RpcStatus>(answers@[i]->Err_0),
        r matches Ok(v) ==> v@ == answers@.map_values(|a: Result<Vec<T>, RpcStatus>| a->Ok_0@).flatten(),
{
    let ghost all = answer_views(answers@);
    assert(all.len() == answers.len());
    let mut rest = answers;
    let mut r: Vec<T> = Vec::new();
    let mut done: usize = 0;
    proof {
        assert(all.skip(0) =~= all);
        match gathered(all) {
            Ok(t) => {
                assert(r@ + t =~= t);
            },
            Err(_) => {},
        }
    }
    while rest.len() > 0
        invariant
            done + rest.len() == all.len(),
            all.len() <= usize::MAX,
            answer_views(rest@) == all.skip(done as int),
            gathered(all) == match gathered(all.skip(done as int)) {
                Ok(tail) => Ok(r@ + tail),
                Err(st) => Err::<Seq<T>, RpcStatus>(st),
            },
        decreases rest.len(),
    {
        let ghost tail = all.skip(done as int);
        let ghost rest_before = rest@;
        let a = rest.remove(0);
        proof {
            assert(tail.drop_first() =~= all.skip(done + 1));
            assert(answer_views(rest@) =~= answer_views(rest_before).drop_first());
            assert(tail[0] == answer_views(rest_before)[0]);
        }
        match a {
            Err(st) => {
                assert(gathered(tail) == Err::<Seq<T>, RpcStatus>(st));
                proof {
                    listing_views_agree(answers@);
                }
                return Err(st);
            },
            Ok(mut part) => {
                let ghost before = r@;
                let ghost p = part@;
                r.append(&mut part);
                proof {
                    assert(tail[0] == Ok::<Seq<T>, RpcStatus>(p));
                    match gathered(all.skip(done + 1)) {
                        Ok(t) => {
                            assert(gathered(tail) == Ok::<Seq<T>, RpcStatus>(p + t));
                            assert(before + (p + t) =~= r@ + t);
                        },
                        Err(_) => {},
                    }
                }
            },
        }
        done = done + 1;
    }
    proof {
        assert(all.skip(done as int) =~= Seq::<Result<Seq<T>, RpcStatus>>::empty());
        assert(r@ + Seq::<T>::empty() =~= r@);
        listing_views_agree(answers@);
    }
    Ok(r)
}

proof fn first_refusal_ok_iff<T>(answers: Seq<Result<T, RpcStatus>>)
    ensures
        first_refusal(answers) is Ok <==> forall|i: int| 0 <= i < answers.len() ==> #[trigger] answers[i] is Ok,
    decreases answers.len(),
{
    if answers.len() > 0 {
        let rest = answers.drop_first();
        first_refusal_ok_iff(rest);
        if first_refusal(answers) is Ok {
            assert forall|i: int| 0 <= i < answers.len() implies #[trigger] answers[i] is Ok by {
                if i > 0 {
                    assert(answers[i] == rest[i - 1]);
                }
            }
        }
        if forall|i: int| 0 <= i < answers.len() ==> #[trigger] answers[i] is Ok {
            assert(answers[0] is Ok);
            assert forall|i: int| 0 <= i < rest.len() implies #[trigger] rest[i] is Ok by {
                assert(rest[i] == answers[i + 1]);
            }
        }
    }
}

proof fn first_refusal_at<T>(answers: Seq<Result<T, RpcStatus>>, i: int)
    requires
        0 <= i < answers.len(),
        answers[i] is Err,
        forall|k: int| 0 <= k < i ==> #[trigger] answers[k] is Ok,
    ensures
        first_refusal(answers) == Err::<(), RpcStatus>(answers[i]->Err_0),
    decreases i,
{
    if i > 0 {
        let rest = answers.drop_first();
        assert(answers[0] is Ok);
        assert forall|k: int| 0 <= k < i - 1 implies #[trigger] rest[k] is Ok by {
            assert(rest[k] == answers[k + 1]);
        }
        assert(rest[i - 1] == answers[i]);
        first_refusal_at(rest, i - 1);
    }
}

/// A request sent to every runtime in turn is answered with success exactly
/// when every runtime accepted it, and otherwise with the refusal of the
/// first runtime that refused, whichever runtime that is.
pub proof fn law_reply_is_first_refusal<T>(answers: Seq<Result<T, RpcStatus>>)
    ensures
        first_refusal(answers) is Ok <==> forall|i: int| 0 <= i < answers.len() ==> #[trigger] answers[i] is Ok,
        forall|i: int|
            0 <= i < answers.len() && #[trigger] answers[i] is Err && (forall|k: int| 0 <= k < i ==> answers[k] is Ok)
                ==> first_refusal(answers) == Err::<(), RpcStatus>(answers[i]->Err_0),
{
    first_refusal_ok_iff(answers);
    assert forall|i: int|
        0 <= i < answers.len() && #[trigger] answers[i] is Err && (forall|k: int| 0 <= k < i ==> answers[k] is Ok)
            implies first_refusal(answers) == Err::<(), RpcStatus>(answers[i]->Err_0) by {
        first_refusal_at(answers, i);
    }
}

proof fn gathered_ok_iff<T>(answers: Seq<Result<Seq<T>, RpcStatus>>)
    ensures
        gathered(answers) is Ok <==> forall|i: int| 0 <= i < answers.len() ==> #[trigger] answers[i] is Ok,
    decreases answers.len(),
{
    if answers.len() > 0 {
        let rest = answers.drop_first();
        gathered_ok_iff(rest);
        if gathered(answers) is Ok {
            assert(answers[0] is Ok);
            assert(gathered(rest) is Ok);
            assert forall|i: int| 0 <= i < answers.len() implies #[trigger] answers[i] is Ok by {
                if i > 0 {
                    assert(answers[i] == rest[i - 1]);
                }
            }
        }
        if forall|i: int| 0 <= i < answers.len() ==> #[trigger] answers[i] is Ok {
            assert(answers[0] is Ok);
            assert forall|i: int| 0 <= i < rest.len() implies #[trigger] rest[i] is Ok by {
                assert(rest[i] == answers[i + 1]);
            }
        }
    }
}

proof fn gathered_refusal_at<T>(answers: Seq<Result<Seq<T>, RpcStatus>>, i: int)
    requires
        0 <= i < answers.len(),
        answers[i] is Err,
        forall|k: int| 0 <= k < i ==> #[trigger] answers[k] is Ok,
    ensures
        gathered(answers) == Err::<Seq<T>, RpcStatus>(answers[i]->Err_0),
    decreases i,
{
    if i > 0 {
        let rest = answers.drop_first();
        assert(answers[0] is Ok);
        assert forall|k: int| 0 <= k < i - 1 implies #[trigger] rest[k] is Ok by {
            assert(rest[k] == answers[k + 1]);
        }
        assert(rest[i - 1] == answers[i]);
        gathered_refusal_at(rest, i - 1);
    }
}

proof fn gathered_all_listed<T>(answers: Seq<Result<Seq<T>, RpcStatus>>)
    requires
        forall|i: int| 0 <= i < answers.len() ==> #[trigger] answers[i] is Ok,
    ensures
        gathered(answers) == Ok::<Seq<T>, RpcStatus>(
            answers.map_values(|a: Result<Seq<T>, RpcStatus>| a->Ok_0).flatten(),
        ),
    decreases answers.len(),
{
    let f = |a: Result<Seq<T>, RpcStatus>| a->Ok_0;
    if answers.len() == 0 {
        assert(answers.map_values(f) =~= Seq::<Seq<T>>::empty());
    } else {
        let rest = answers.drop_first();
        assert(answers[0] is Ok);
        assert forall|i: int| 0 <= i < rest.len() implies #[trigger] rest[i] is Ok by {
            assert(rest[i] == answers[i + 1]);
        }
        gathered_all_listed(rest);
        assert(answers.map_values(f).drop_first() =~= rest.map_values(f));
        assert(answers.map_values(f).first() == answers[0]->Ok_0);
    }
}

/// A listing sent to every runtime in turn succeeds exactly when every
/// runtime answered with its listing, and is then all the listings one after
/// the other, in the order the runtimes were asked; otherwise it fails with
/// the refusal of the first runtime that refused, the last one included.
pub proof fn law_listing_fails_on_first_refusal<T>(answers: Seq<Result<Seq<T>, RpcStatus>>)
    ensures
        gathered(answers) is Ok <==> forall|i: int| 0 <= i < answers.len() ==> #[trigger] answers[i] is Ok,
        forall|i: int|
            0 <= i < answers.len() && #[trigger] answers[i] is Err && (forall|k: int| 0 <= k < i ==> answers[k] is Ok)
                ==> gathered(answers) == Err::<Seq<T>, RpcStatus>(answers[i]->Err_0),
        (forall|i: int| 0 <= i < answers.len() ==> #[trigger] answers[i] is Ok) ==> gathered(answers) == Ok::<
            Seq<T>,
            RpcStatus,
        >(answers.map_values(|a: Result<Seq<T>, RpcStatus>| a->Ok_0).flatten()),
{
    gathered_ok_iff(answers);
    assert forall|i: int|
        0 <= i < answers.len() && #[trigger] answers[i] is Err && (forall|k: int| 0 <= k < i ==> answers[k] is Ok)
            implies gathered(answers) == Err::<Seq<T>, RpcStatus>(answers[i]->Err_0) by {
        gathered_refusal_at(answers, i);
    }
    if forall|i: int| 0 <= i < answers.len() ==> #[trigger] answers[i] is Ok {
        gathered_all_listed(answers);
    }
}

/// A pod sandbox is served by the runtime its creation request was routed to:
/// once recorded for handler `handler`, requests about it go where a request
/// naming `handler` goes. Requests about other sandboxes and about containers
/// are routed as before.
pub proof fn law_sandbox_stays_with_its_runtime(
    before: RuntimeShimView,
    after: RuntimeShimView,
    id: Seq<char>,
    handler: Seq<char>,
    other: Seq<char>,
    container: Seq<char>,
)
    requires
        !directory_name(id),
        after.runtimes == before.runtimes,
        after.storage.containers == before.storage.containers,
        after.storage.sandboxes == before.storage.sandboxes.insert(id, SandboxView { id, runtime: handler }),
    ensures
        sandbox_decision(after, id) == client_decision(before.runtimes, handler),
        other != id ==> sandbox_decision(after, other) == sandbox_decision(before, other),
        container_decision(after, container) == container_decision(before, container),
{
}

/// A container is served by the runtime of the sandbox it was created in.
pub proof fn law_container_follows_its_sandbox(
    before: RuntimeShimView,
    after: RuntimeShimView,
    container_id: Seq<char>,
    sandbox_id: Seq<char>,
)
    requires
        !directory_name(container_id),
        !directory_name(sandbox_id),
        before.storage.sandboxes.contains_key(sandbox_id),
        after.runtimes == before.runtimes,
        after.storage.sandboxes == before.storage.sandboxes,
        after.storage.containers == before.storage.containers.insert(
            container_id,
            ContainerView {
                id: container_id,
                sandbox: sandbox_id,
                runtime: before.storage.sandboxes[sandbox_id].runtime,
            },
        ),
    ensures
        container_decision(after, container_id) == sandbox_decision(before, sandbox_id),
        sandbox_decision(after, sandbox_id) == sandbox_decision(before, sandbox_id),
{
}

/// Once a sandbox is forgotten, requests about it are refused.
pub proof fn law_forgotten_sandbox_is_refused(before: RuntimeShimView, after: RuntimeShimView, id: Seq<char>)
    requires
        after.runtimes == before.runtimes,
        after.storage.sandboxes == before.storage.sandboxes.remove(id),
    ensures
        sandbox_decision(after, id) == Decision::Refused(RpcCode::Internal, failure_text(id)),
{
}

/// Once a container is forgotten, requests about it are refused.
pub proof fn law_forgotten_container_is_refused(before: RuntimeShimView, after: RuntimeShimView, id: Seq<char>)
    requires
        after.runtimes == before.runtimes,
        after.storage.containers == before.storage.containers.remove(id),
    ensures
        container_decision(after, id) == Decision::Refused(RpcCode::Internal, failure_text(id)),
{
}

/// A change of state that leaves sandbox `id` where it is: no runtime is
/// disconnected, the default runtime stays, and the record of `id` stays.
pub open spec fn keeps_sandbox(before: RuntimeShimView, after: RuntimeShimView, id: Seq<char>) -> bool {
    &&& before.runtimes.names.subset_of(after.runtimes.names)
    &&& after.runtimes.default_runtime == before.runtimes.default_runtime
    &&& after.storage.sandboxes.contains_key(id) == before.storage.sandboxes.contains_key(id)
    &&& before.storage.sandboxes.contains_key(id) ==> after.storage.sandboxes[id] == before.storage.sandboxes[id]
}

/// Every step the shim takes keeps a sandbox it does not name: recording or
/// forgetting another sandbox, anything done to containers, and connecting a
/// runtime.
pub proof fn law_other_steps_keep_a_sandbox(before: RuntimeShimView, after: RuntimeShimView, id: Seq<char>, k: Seq<char>, v: SandboxView)
    ensures
        k != id && after.runtimes == before.runtimes && after.storage.sandboxes == before.storage.sandboxes.insert(k, v)
            ==> keeps_sandbox(before, after, id),
        k != id && after.runtimes == before.runtimes && after.storage.sandboxes == before.storage.sandboxes.remove(k)
            ==> keeps_sandbox(before, after, id),
        after.runtimes == before.runtimes && after.storage.sandboxes == before.storage.sandboxes
            ==> keeps_sandbox(before, after, id),
        after.runtimes.names == before.runtimes.names.insert(k) && after.runtimes.default_runtime
            == before.runtimes.default_runtime && after.storage.sandboxes == before.storage.sandboxes
            ==> keeps_sandbox(before, after, id),
{
}

/// Syncing a connected runtime's sandbox listing keeps every sandbox the
/// listing does not name.
pub proof fn law_sync_keeps_unlisted_sandboxes(
    before: RuntimeShimView,
    after: RuntimeShimView,
    ids: Seq<Seq<char>>,
    runtime: Seq<char>,
    id: Seq<char>,
)
    requires
        !ids.contains(id),
        after.runtimes == before.runtimes,
        after.storage.sandboxes == with_sandboxes(before.storage.sandboxes, ids, runtime),
    ensures
        keeps_sandbox(before, after, id),
    decreases ids.len(),
{
    if ids.len() > 0 {
        let mid = RuntimeShimView {
            runtimes: before.runtimes,
            storage: StorageView {
                containers: after.storage.containers,
                sandboxes: with_sandboxes(before.storage.sandboxes, ids.drop_last(), runtime),
            },
        };
        assert(!ids.drop_last().contains(id)) by {
            if ids.drop_last().contains(id) {
                let j: int = choose|j: int| 0 <= j < ids.drop_last().len() && ids.drop_last()[j] == id;
                assert(ids[j] == id);
            }
        }
        law_sync_keeps_unlisted_sandboxes(before, mid, ids.drop_last(), runtime, id);
        assert(ids.last() != id) by {
            assert(ids[ids.len() - 1] == ids.last());
        }
    }
}

/// Syncing a runtime's sandbox listing records every listed sandbox as served
/// by that runtime, whatever was recorded for it before.
pub proof fn law_sync_records_listed_sandboxes(m: Map<Seq<char>, SandboxView>, ids: Seq<Seq<char>>, runtime: Seq<char>)
    ensures
        forall|j: int|
            0 <= j < ids.len() ==> with_sandboxes(m, ids, runtime).contains_key(#[trigger] ids[j])
                && with_sandboxes(m, ids, runtime)[ids[j]] == (SandboxView { id: ids[j], runtime }),
    decreases ids.len(),
{
    if ids.len() > 0 {
        let p = ids.drop_last();
        law_sync_records_listed_sandboxes(m, p, runtime);
        assert forall|j: int| 0 <= j < ids.len() implies with_sandboxes(m, ids, runtime).contains_key(#[trigger] ids[j])
            && with_sandboxes(m, ids, runtime)[ids[j]] == (SandboxView { id: ids[j], runtime }) by {
            if j < ids.len() - 1 && ids[j] != ids.last() {
                assert(p[j] == ids[j]);
            }
        }
    }
}

/// Syncing a runtime's container listing records every listed container as
/// served by that runtime, whatever was recorded for it before, and as
/// belonging to the sandbox its last listing names.
pub proof fn law_sync_records_listed_containers(
    m: Map<Seq<char>, ContainerView>,
    listed: Seq<(Seq<char>, Seq<char>)>,
    runtime: Seq<char>,
)
    ensures
        forall|j: int|
            0 <= j < listed.len() ==> with_containers(m, listed, runtime).contains_key((#[trigger] listed[j]).0)
                && with_containers(m, listed, runtime)[listed[j].0].id == listed[j].0
                && with_containers(m, listed, runtime)[listed[j].0].runtime == runtime,
        forall|j: int|
            0 <= j < listed.len() && (forall|k: int| j < k < listed.len() ==> listed[k].0 != listed[j].0)
                ==> with_containers(m, listed, runtime)[(#[trigger] listed[j]).0] == (ContainerView {
                id: listed[j].0,
                sandbox: listed[j].1,
                runtime,
            }),
    decreases listed.len(),
{
    if listed.len() > 0 {
        let p = listed.drop_last();
        law_sync_records_listed_containers(m, p, runtime);
        let w = with_containers(m, listed, runtime);
        assert forall|j: int| 0 <= j < listed.len() implies w.contains_key((#[trigger] listed[j]).0)
            && w[listed[j].0].id == listed[j].0 && w[listed[j].0].runtime == runtime by {
            if j < listed.len() - 1 && listed[j].0 != listed.last().0 {
                assert(p[j] == listed[j]);
            }
        }
        assert forall|j: int|
            0 <= j < listed.len() && (forall|k: int| j < k < listed.len() ==> listed[k].0 != listed[j].0)
                implies w[(#[trigger] listed[j]).0] == (ContainerView { id: listed[j].0, sandbox: listed[j].1, runtime }) by {
            if j < listed.len() - 1 {
                assert(listed[listed.len() - 1].0 != listed[j].0);
                assert(p[j] == listed[j]);
                assert forall|k: int| j < k < p.len() implies p[k].0 != p[j].0 by {
                    assert(p[k] == listed[k]);
                }
            }
        }
    }
}

/// A sandbox keeps its runtime over any run of steps that keep it: once
/// requests about it reach runtime `c`, they reach `c` after every later step
/// that does not record or forget it.
pub proof fn law_sandbox_route_persists(states: Seq<RuntimeShimView>, id: Seq<char>, c: Seq<char>)
    requires
        states.len() > 0,
        sandbox_decision(states[0], id) == Decision::Runtime(c),
        forall|i: int| 0 <= i < states.len() - 1 ==> keeps_sandbox(#[trigger] states[i], states[i + 1], id),
    ensures
        sandbox_decision(states.last(), id) == Decision::Runtime(c),
    decreases states.len(),
{
    if states.len() > 1 {
        let prefix = states.drop_last();
        assert forall|i: int| 0 <= i < prefix.len() - 1 implies keeps_sandbox(#[trigger] prefix[i], prefix[i + 1], id) by {
            assert(prefix[i] == states[i] && prefix[i + 1] == states[i + 1]);
            assert(keeps_sandbox(states[i], states[i + 1], id));
        }
        law_sandbox_route_persists(prefix, id, c);
        let a = prefix.last();
        let b = states.last();
        assert(keeps_sandbox(states[states.len() - 2], states[states.len() - 1], id));
        assert(a == states[states.len() - 2]);
        assert(b == states[states.len() - 1]);
    }
}

} // verus!
