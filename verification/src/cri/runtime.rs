//! Runtime requests of the host/XPU shim. The shim remembers the ids of the
//! pod sandboxes and containers it placed on the XPU runtime; a request about
//! a remembered id goes to the XPU runtime, any other to the host runtime.

use vstd::prelude::*;

use crate::cri::{is_xpu_handler, xpu_handler, Target};
use crate::text::same_text;

verus! {

/// The runtime-service side of the host/XPU shim: the ids served by the XPU runtime.
pub struct RuntimeShim {
    xpu_containers: Vec<String>,
}

/// The ids held by a list of strings.
pub open spec fn ids_of(v: Seq<String>) -> Seq<Seq<char>> {
    v.map_values(|s: String| s@)
}

impl View for RuntimeShim {
    type V = Set<Seq<char>>;

    closed spec fn view(&self) -> Set<Seq<char>> {
        ids_of(self.xpu_containers@).to_set()
    }
}

/// Where a request about sandbox or container `id` goes.
pub open spec fn target_of(xpu_ids: Set<Seq<char>>, id: Seq<char>) -> Target {
    if xpu_ids.contains(id) {
        Target::Xpu
    } else {
        Target::Host
    }
}

/// Where running a pod sandbox with handler `handler` goes, and the handler
/// the runtime is then asked for: the XPU runtime, asked for its default
/// handler, when `handler` is `xpu`; the host runtime, asked for `handler`,
/// otherwise.
pub open spec fn run_target(handler: Seq<char>) -> (Target, Seq<char>) {
    if handler == xpu_handler() {
        (Target::Xpu, Seq::empty())
    } else {
        (Target::Host, handler)
    }
}

impl RuntimeShim {
    /// No id placed on the XPU runtime yet.
    pub fn new() -> (s: RuntimeShim)
        ensures
            s@ == Set::<Seq<char>>::empty(),
    {
        let s = RuntimeShim { xpu_containers: Vec::new() };
        assert(s.xpu_containers@.map_values(|s: String| s@) =~= Seq::<Seq<char>>::empty());
        s
    }

    fn position(&self, id: &str) -> (r: Option<usize>)
        ensures
            r matches Some(i) ==> i < self.xpu_containers.len() && self.xpu_containers@[i as int]@ == id@,
            r is None ==> !ids_of(self.xpu_containers@).contains(id@),
    {
        let ghost views = ids_of(self.xpu_containers@);
        let mut i: usize = 0;
        while i < self.xpu_containers.len()
            invariant
                i <= self.xpu_containers.len(),
                views == ids_of(self.xpu_containers@),
                forall|j: int| 0 <= j < i ==> self.xpu_containers@[j]@ != id@,
            decreases self.xpu_containers.len() - i,
        {
            if same_text(self.xpu_containers[i].as_str(), id) {
                return Some(i);
            }
            i = i + 1;
        }
        proof {
            if views.contains(id@) {
                let j: int = choose|j: int| 0 <= j < views.len() && views[j] == id@;
                assert(self.xpu_containers@[j]@ == id@);
            }
        }
        None
    }

    /// Whether `id` is served by the XPU runtime.
    pub fn is_container(&self, id: &str) -> (b: bool)
        ensures
            b == self@.contains(id@),
    {
        match self.position(id) {
            Some(i) => {
                assert(ids_of(self.xpu_containers@)[i as int] == id@);
                true
            },
            None => false,
        }
    }

    /// Remembers `id` as served by the XPU runtime.
    pub fn set_container(&mut self, id: String)
        ensures
            final(self)@ == old(self)@.insert(id@),
    {
        if !self.is_container(id.as_str()) {
            let ghost before = self.xpu_containers@.map_values(|s: String| s@);
            let ghost v = id@;
            self.xpu_containers.push(id);
            proof {
                assert(self.xpu_containers@.map_values(|s: String| s@) =~= before + seq![v]);
                Seq::lemma_to_set_insert_commutes(before, v);
            }
        } else {
            assert(old(self)@.insert(id@) =~= old(self)@);
        }
    }

    /// Forgets `id`.
    pub fn del_container(&mut self, id: &str)
        ensures
            final(self)@ == old(self)@.remove(id@),
    {
        let ghost target = id@;
        let ghost initial = ids_of(self.xpu_containers@);
        let mut found = self.position(id);
        while found.is_some()
            invariant
                target == id@,
                forall|k: Seq<char>| k != target ==> (#[trigger] ids_of(self.xpu_containers@).contains(k)
                    <==> initial.contains(k)),
                found matches Some(i) ==> i < self.xpu_containers.len() && self.xpu_containers@[i as int]@ == target,
                found is None ==> !ids_of(self.xpu_containers@).contains(target),
            decreases self.xpu_containers.len(),
        {
            let i: usize = found.unwrap();
            let ghost before = ids_of(self.xpu_containers@);
            self.xpu_containers.remove(i);
            proof {
                let after = ids_of(self.xpu_containers@);
                assert(after =~= before.remove(i as int));
                assert forall|k: Seq<char>| k != target implies (#[trigger] after.contains(k) <==> before.contains(k)) by {
                    if before.contains(k) {
                        let j: int = choose|j: int| 0 <= j < before.len() && before[j] == k;
                        assert(j != i);
                        if j < i {
                            assert(after[j] == k);
                        } else {
                            assert(after[j - 1] == k);
                        }
                    }
                    if after.contains(k) {
                        let j: int = choose|j: int| 0 <= j < after.len() && after[j] == k;
                        if j < i {
                            assert(before[j] == k);
                        } else {
                            assert(before[j + 1] == k);
                        }
                    }
                }
            }
            found = self.position(id);
        }
        proof {
            assert(self@ =~= old(self)@.remove(target));
        }
    }

    /// Routes a request about pod sandbox or container `id`.
    pub fn route(&self, id: &str) -> (t: Target)
        ensures
            t == target_of(self@, id@),
    {
        if self.is_container(id) {
            Target::Xpu
        } else {
            Target::Host
        }
    }

    /// Routes a request to run a pod sandbox with handler `handler`, giving the
    /// handler the chosen runtime is asked for.
    pub fn route_run(handler: &str) -> (r: (Target, String))
        ensures
            (r.0, r.1@) == run_target(handler@),
    {
        if is_xpu_handler(handler) {
            (Target::Xpu, String::new())
        } else {
            (Target::Host, handler.to_owned())
        }
    }

    /// Notes a pod sandbox started on `target`: one started on the XPU runtime is remembered.
    pub fn sandbox_started(&mut self, target: Target, pod_sandbox_id: String)
        ensures
            final(self)@ == if target == Target::Xpu { old(self)@.insert(pod_sandbox_id@) } else { old(self)@ },
    {
        if target == Target::Xpu {
            self.set_container(pod_sandbox_id);
        }
    }

    /// Notes a container created on `target`: one created on the XPU runtime is remembered.
    pub fn container_created(&mut self, target: Target, container_id: String)
        ensures
            final(self)@ == if target == Target::Xpu { old(self)@.insert(container_id@) } else { old(self)@ },
    {
        if target == Target::Xpu {
            self.set_container(container_id);
        }
    }

    /// Notes a container removed from `target`: one removed from the XPU runtime is forgotten.
    pub fn container_removed(&mut self, target: Target, container_id: &str)
        ensures
            final(self)@ == if target == Target::Xpu { old(self)@.remove(container_id@) } else { old(self)@ },
    {
        if target == Target::Xpu {
            self.del_container(container_id);
        }
    }
}

/// The merged pod-sandbox listing: the host's, then the XPU's.
pub fn merge_pod_sandboxes<T>(host: Vec<T>, xpu: Vec<T>) -> (r: Vec<T>)
    ensures
        r@ == host@ + xpu@,
{
    let mut r = host;
    let mut xpu = xpu;
    r.append(&mut xpu);
    r
}

/// The merged container listing: the XPU's, then the host's.
pub fn merge_containers<T>(host: Vec<T>, xpu: Vec<T>) -> (r: Vec<T>)
    ensures
        r@ == xpu@ + host@,
{
    let mut r = xpu;
    let mut host = host;
    r.append(&mut host);
    r
}

/// The merged container statistics: the host's, then the XPU's.
pub fn merge_container_stats<T>(host: Vec<T>, xpu: Vec<T>) -> (r: Vec<T>)
    ensures
        r@ == host@ + xpu@,
{
    merge_pod_sandboxes(host, xpu)
}

/// The merged pod-sandbox statistics: the host's, then the XPU's.
pub fn merge_pod_sandbox_stats<T>(host: Vec<T>, xpu: Vec<T>) -> (r: Vec<T>)
    ensures
        r@ == host@ + xpu@,
{
    merge_pod_sandboxes(host, xpu)
}

/// A pod sandbox run with the `xpu` handler is served by the XPU runtime from
/// then on, and by the host runtime again once it is removed; other ids keep
/// their runtime throughout.
pub proof fn law_xpu_sandbox_lifecycle(before: Set<Seq<char>>, id: Seq<char>, other: Seq<char>)
    ensures
        ({
            let (t, _) = run_target(xpu_handler());
            let running = if t == Target::Xpu { before.insert(id) } else { before };
            &&& t == Target::Xpu
            &&& target_of(running, id) == Target::Xpu
            &&& target_of(running.remove(id), id) == Target::Host
            &&& other != id ==> target_of(running, other) == target_of(before, other)
            &&& other != id ==> target_of(running.remove(id), other) == target_of(before, other)
        }),
{
}

/// A container created in a sandbox served by the XPU runtime is served by it too.
pub proof fn law_container_joins_xpu_sandbox(before: Set<Seq<char>>, sandbox: Seq<char>, container: Seq<char>)
    requires
        target_of(before, sandbox) == Target::Xpu,
    ensures
        target_of(before.insert(container), container) == Target::Xpu,
        target_of(before.insert(container), sandbox) == Target::Xpu,
{
}

/// A pod sandbox run with any other handler stays on the host runtime, which
/// is asked for that same handler.
pub proof fn law_other_handlers_stay_on_host(handler: Seq<char>)
    requires
        handler != xpu_handler(),
    ensures
        run_target(handler) == (Target::Host, handler),
{
}

/// The ids served by the XPU runtime after a run of remembering (`true`) and
/// forgetting (`false`) the ids of `ops`, in order, starting from `s`.
pub open spec fn after_ops(s: Set<Seq<char>>, ops: Seq<(bool, Seq<char>)>) -> Set<Seq<char>>
    decreases ops.len(),
{
    if ops.len() == 0 {
        s
    } else {
        let prev = after_ops(s, ops.drop_last());
        if ops.last().0 {
            prev.insert(ops.last().1)
        } else {
            prev.remove(ops.last().1)
        }
    }
}

/// The last of `ops` that names `id`: whether it remembered it.
pub open spec fn last_op_on(ops: Seq<(bool, Seq<char>)>, id: Seq<char>) -> Option<bool>
    decreases ops.len(),
{
    if ops.len() == 0 {
        None
    } else if ops.last().1 == id {
        Some(ops.last().0)
    } else {
        last_op_on(ops.drop_last(), id)
    }
}

/// After any run of `set_container` and `del_container` calls, an id is
/// served by the XPU runtime exactly when the last call naming it remembered
/// it; calls naming other ids do not change the answer, and with no call
/// naming it the answer is what it was.
pub proof fn law_last_call_decides(s: Set<Seq<char>>, ops: Seq<(bool, Seq<char>)>, id: Seq<char>)
    ensures
        after_ops(s, ops).contains(id) == match last_op_on(ops, id) {
            Some(b) => b,
            None => s.contains(id),
        },
    decreases ops.len(),
{
    if ops.len() > 0 {
        law_last_call_decides(s, ops.drop_last(), id);
    }
}

} // verus!
