use vstd::prelude::*;

use crate::env::AniRef;
use crate::error::{AniError, ErrorKind};

verus! {

/// A process-wide reference: it keeps its target alive until it is
/// released, and it is released at most once.
#[derive(Debug)]
pub struct GlobalRef {
    id: usize,
    target: AniRef,
}

impl GlobalRef {
    pub closed spec fn spec_id(&self) -> usize {
        self.id
    }

    pub closed spec fn spec_target(&self) -> AniRef {
        self.target
    }

    pub fn id(&self) -> (r: usize)
        ensures
            r == self.spec_id(),
    {
        self.id
    }

    /// The local reference that this global reference keeps alive.
    pub fn target(&self) -> (r: AniRef)
        ensures
            r == self.spec_target(),
    {
        self.target
    }
}

/// The runtime's process-wide state: the threads that hold an environment
/// and the table of global references.
#[derive(Debug)]
pub struct AniVm {
    attached: Vec<u64>,
    globals: Vec<bool>,
    released: Vec<usize>,
}

impl AniVm {
    /// The threads that hold an environment.
    pub closed spec fn threads(&self) -> Set<u64> {
        self.attached@.to_set()
    }

    /// How many global references were ever created.
    pub closed spec fn created(&self) -> nat {
        self.globals@.len()
    }

    /// Whether global reference `id` is still to be released.
    pub closed spec fn live(&self, id: usize) -> bool {
        id < self.globals@.len() && self.globals@[id as int]
    }

    /// The global references released so far, in order.
    pub closed spec fn release_log(&self) -> Seq<usize> {
        self.released@
    }

    pub closed spec fn wf(&self) -> bool {
        &&& self.released@.no_duplicates()
        &&& forall|k: int| 0 <= k < self.released@.len() ==> #[trigger] self.released@[k] < self.globals@.len()
        &&& forall|id: int|
            0 <= id < self.globals@.len() ==> (#[trigger] self.globals@[id] <==> !self.released@.contains(
                id as usize,
            ))
        &&& self.attached@.no_duplicates()
    }

    /// A runtime with no attached thread and no global reference.
    pub fn new() -> (r: AniVm)
        ensures
            r.wf(),
            r.threads() == Set::<u64>::empty(),
            r.created() == 0,
            r.release_log() == Seq::<usize>::empty(),
    {
        let r = AniVm { attached: Vec::new(), globals: Vec::new(), released: Vec::new() };
        assert(r.attached@.to_set() =~= Set::<u64>::empty());
        r
    }

    pub fn is_attached(&self, thread: u64) -> (b: bool)
        ensures
            b == self.threads().contains(thread),
    {
        let mut i: usize = 0;
        while i < self.attached.len()
            invariant
                i <= self.attached@.len(),
                forall|j: int| 0 <= j < i ==> self.attached@[j] != thread,
            decreases self.attached@.len() - i,
        {
            if self.attached[i] == thread {
                assert(self.attached@.contains(thread));
                return true;
            }
            i = i + 1;
        }
        false
    }

    /// Attaches a thread, giving it an environment; a thread already attached
    /// is refused.
    pub fn attach_current_thread(&mut self, thread: u64) -> (res: Result<(), AniError>)
        requires
            old(self).wf(),
        ensures
            final(self).wf(),
            res is Ok <==> !old(self).threads().contains(thread),
            res is Ok ==> final(self).threads() == old(self).threads().insert(thread),
            res is Err ==> *final(self) == *old(self) && res->Err_0.kind == ErrorKind::ThreadState,
            final(self).created() == old(self).created(),
            final(self).release_log() == old(self).release_log(),
            forall|id: usize| #[trigger] final(self).live(id) == old(self).live(id),
    {
        if self.is_attached(thread) {
            return Err(AniError::of_kind(ErrorKind::ThreadState, "thread already attached"));
        }
        self.attached.push(thread);
        proof {
            let o = old(self).attached@;
            assert forall|x: u64| self.attached@.contains(x) <==> (o.contains(x) || x == thread) by {
                if o.contains(x) {
                    let k = choose|k: int| 0 <= k < o.len() && o[k] == x;
                    assert(self.attached@[k] == x);
                }
                if x == thread {
                    assert(self.attached@[self.attached@.len() - 1] == thread);
                }
                if self.attached@.contains(x) {
                    let k = choose|k: int| 0 <= k < self.attached@.len() && self.attached@[k] == x;
                    if k < o.len() {
                        assert(o[k] == x);
                    }
                }
            }
            assert(self.attached@.to_set() =~= o.to_set().insert(thread));
            assert forall|a: int, b: int|
                0 <= a < self.attached@.len() && 0 <= b < self.attached@.len() && a != b implies self.attached@[a]
                != self.attached@[b] by {
                if a == o.len() as int {
                    assert(o[b] == self.attached@[b]);
                } else if b == o.len() as int {
                    assert(o[a] == self.attached@[a]);
                }
            }
        }
        Ok(())
    }

    /// Detaches a thread; a thread not attached is refused.
    pub fn detach_current_thread(&mut self, thread: u64) -> (res: Result<(), AniError>)
        requires
            old(self).wf(),
        ensures
            final(self).wf(),
            res is Ok <==> old(self).threads().contains(thread),
            res is Ok ==> final(self).threads() == old(self).threads().remove(thread),
            res is Err ==> *final(self) == *old(self) && res->Err_0.kind == ErrorKind::ThreadState,
            final(self).created() == old(self).created(),
            final(self).release_log() == old(self).release_log(),
            forall|id: usize| #[trigger] final(self).live(id) == old(self).live(id),
    {
        let mut i: usize = 0;
        while i < self.attached.len()
            invariant
                i <= self.attached@.len(),
                forall|j: int| 0 <= j < i ==> self.attached@[j] != thread,
                *self == *old(self),
                self.wf(),
            decreases self.attached@.len() - i,
        {
            if self.attached[i] == thread {
                let ghost before = self.attached@;
                self.attached.remove(i);
                proof {
                    before.remove_ensures(i as int);
                    assert(self.attached@ == before.remove(i as int));
                    assert forall|x: u64| self.attached@.contains(x) <==> (before.contains(x) && x != thread) by {
                        if before.contains(x) && x != thread {
                            let k = choose|k: int| 0 <= k < before.len() && before[k] == x;
                            if k < i {
                                assert(self.attached@[k] == x);
                            } else {
                                assert(k != i);
                                assert(self.attached@[k - 1] == x);
                            }
                        }
                        if self.attached@.contains(x) {
                            let k = choose|k: int| 0 <= k < self.attached@.len() && self.attached@[k] == x;
                            if k < i {
                                assert(before[k] == x);
                            } else {
                                assert(before[k + 1] == x);
                                assert(before[i as int] == thread);
                            }
                        }
                    }
                    assert(self.attached@.to_set() =~= before.to_set().remove(thread));
                    assert(self.attached@.no_duplicates()) by {
                        assert forall|a: int, b: int|
                            0 <= a < self.attached@.len() && 0 <= b < self.attached@.len() && a != b implies self.attached@[a] != self.attached@[b] by {
                            let a2 = if a < i { a } else { a + 1 };
                            let b2 = if b < i { b } else { b + 1 };
                            assert(before[a2] == self.attached@[a]);
                            assert(before[b2] == self.attached@[b]);
                        }
                    }
                }
                return Ok(());
            }
            i = i + 1;
        }
        assert(!self.attached@.contains(thread));
        Err(AniError::of_kind(ErrorKind::ThreadState, "thread not attached"))
    }

    /// Fails with a thread-state error unless the thread holds an environment.
    pub fn get_env(&self, thread: u64) -> (res: Result<(), AniError>)
        ensures
            res is Ok <==> self.threads().contains(thread),
            res is Err ==> res->Err_0.kind == ErrorKind::ThreadState,
    {
        if self.is_attached(thread) {
            Ok(())
        } else {
            Err(AniError::of_kind(ErrorKind::ThreadState, "thread has no environment"))
        }
    }

    /// Promotes a local reference to a global one; only a thread that holds
    /// an environment may do so.
    pub fn create_global_ref(&mut self, thread: u64, local: AniRef) -> (res: Result<GlobalRef, AniError>)
        requires
            old(self).wf(),
        ensures
            final(self).wf(),
            final(self).threads() == old(self).threads(),
            final(self).release_log() == old(self).release_log(),
            res is Ok <==> old(self).threads().contains(thread),
            res is Err ==> *final(self) == *old(self) && res->Err_0.kind == ErrorKind::ThreadState,
            res is Ok ==> {
                &&& res->Ok_0.spec_id() == old(self).created()
                &&& res->Ok_0.spec_target() == local
                &&& final(self).created() == old(self).created() + 1
                &&& final(self).live(res->Ok_0.spec_id())
                &&& forall|id: usize| id != res->Ok_0.spec_id() ==> #[trigger] final(self).live(id) == old(self).live(id)
            },
    {
        self.get_env(thread)?;
        let id = self.globals.len();
        self.globals.push(true);
        proof {
            assert(!self.released@.contains(id)) by {
                if self.released@.contains(id) {
                    let k = choose|k: int| 0 <= k < self.released@.len() && self.released@[k] == id;
                    assert(self.released@[k] < old(self).globals@.len());
                }
            }
            assert forall|j: int|
                0 <= j < self.globals@.len() implies (#[trigger] self.globals@[j] <==> !self.released@.contains(
                j as usize,
            )) by {
                if j < id {
                    assert(self.globals@[j] == old(self).globals@[j]);
                }
            }
        }
        Ok(GlobalRef { id, target: local })
    }

    /// Releases a global reference from any thread: a thread without an
    /// environment attaches for the release and detaches after it, so the
    /// set of attached threads is as before. Releasing one already released
    /// does nothing.
    pub fn release_global(&mut self, thread: u64, global: GlobalRef)
        requires
            old(self).wf(),
        ensures
            final(self).wf(),
            final(self).threads() == old(self).threads(),
            final(self).created() == old(self).created(),
            old(self).live(global.spec_id()) ==> final(self).release_log() == old(self).release_log().push(
                global.spec_id(),
            ),
            !old(self).live(global.spec_id()) ==> final(self).release_log() == old(self).release_log(),
            !final(self).live(global.spec_id()),
            forall|id: usize| id != global.spec_id() ==> #[trigger] final(self).live(id) == old(self).live(id),
    {
        let attached_here = match self.attach_current_thread(thread) {
            Ok(()) => true,
            Err(_) => false,
        };
        let id = global.id;
        if id < self.globals.len() && self.globals[id] {
            self.globals.set(id, false);
            self.released.push(id);
            proof {
                assert(!old(self).released@.contains(id));
                assert forall|k: int| 0 <= k < self.released@.len() implies #[trigger] self.released@[k] < self.globals@.len() by {
                    if k < self.released@.len() - 1 {
                        assert(self.released@[k] == old(self).released@[k]);
                    }
                }
                assert forall|j: int|
                    0 <= j < self.globals@.len() implies (#[trigger] self.globals@[j] <==> !self.released@.contains(
                    j as usize,
                )) by {
                    if j != id {
                        assert(self.released@.contains(j as usize) ==> old(self).released@.contains(j as usize)) by {
                            if self.released@.contains(j as usize) {
                                let k = choose|k: int| 0 <= k < self.released@.len() && self.released@[k] == j as usize;
                                assert(k < self.released@.len() - 1);
                                assert(old(self).released@[k] == j as usize);
                            }
                        }
                        assert(old(self).released@.contains(j as usize) ==> self.released@.contains(j as usize)) by {
                            if old(self).released@.contains(j as usize) {
                                let k = choose|k: int| 0 <= k < old(self).released@.len() && old(self).released@[k] == j as usize;
                                assert(self.released@[k] == j as usize);
                            }
                        }
                    } else {
                        assert(self.released@[self.released@.len() - 1] == id);
                    }
                }
            }
        }
        if attached_here {
            let _ = self.detach_current_thread(thread);
            assert(self.threads() =~= old(self).threads());
        }
    }

    /// The number of global references released so far.
    pub fn released_count(&self) -> (n: usize)
        ensures
            n == self.release_log().len(),
    {
        self.released.len()
    }

    /// Makes sure the thread holds an environment for a call, attaching it if
    /// needed; says whether this call attached it.
    pub fn enter(&mut self, thread: u64) -> (attached_here: bool)
        requires
            old(self).wf(),
        ensures
            final(self).wf(),
            final(self).threads() == old(self).threads().insert(thread),
            attached_here == !old(self).threads().contains(thread),
            final(self).created() == old(self).created(),
            final(self).release_log() == old(self).release_log(),
            forall|id: usize| #[trigger] final(self).live(id) == old(self).live(id),
    {
        match self.attach_current_thread(thread) {
            Ok(()) => true,
            Err(_) => {
                assert(old(self).threads().insert(thread) =~= old(self).threads());
                false
            },
        }
    }

    /// Ends a call begun with `enter`: detaches the thread only if `enter`
    /// attached it.
    pub fn leave(&mut self, thread: u64, attached_here: bool)
        requires
            old(self).wf(),
            old(self).threads().contains(thread),
        ensures
            final(self).wf(),
            attached_here ==> final(self).threads() == old(self).threads().remove(thread),
            !attached_here ==> final(self).threads() == old(self).threads(),
            final(self).created() == old(self).created(),
            final(self).release_log() == old(self).release_log(),
            forall|id: usize| #[trigger] final(self).live(id) == old(self).live(id),
    {
        if attached_here {
            let _ = self.detach_current_thread(thread);
        }
    }
}

/// Every global reference is released at most once: the release log holds
/// no id twice, and exactly the ids no longer live.
pub proof fn lemma_release_once(vm: &AniVm)
    requires
        vm.wf(),
    ensures
        vm.release_log().no_duplicates(),
        forall|id: usize|
            #![trigger vm.release_log().contains(id)]
            id < vm.created() ==> (vm.release_log().contains(id) <==> !vm.live(id)),
{
}

/// The ids below `n`.
pub open spec fn ids_below(n: nat) -> Set<usize> {
    Set::new(|id: usize| id < n)
}

proof fn lemma_ids_below_len(n: nat)
    requires
        n <= usize::MAX + 1,
    ensures
        ids_below(n).finite(),
        ids_below(n).len() == n,
    decreases n,
{
    if n == 0 {
        assert(ids_below(0) =~= Set::<usize>::empty());
    } else {
        lemma_ids_below_len((n - 1) as nat);
        let m = (n - 1) as usize;
        assert(ids_below(n) =~= ids_below((n - 1) as nat).insert(m));
        assert(!ids_below((n - 1) as nat).contains(m));
    }
}

/// Once every global reference created has been released, there was
/// exactly one release for each of them.
pub proof fn lemma_all_released_once(vm: &AniVm)
    requires
        vm.wf(),
        forall|id: usize| id < vm.created() ==> !vm.live(id),
    ensures
        vm.release_log().no_duplicates(),
        vm.release_log().len() == vm.created(),
        forall|id: usize| id < vm.created() ==> vm.release_log().contains(id),
{
    let log = vm.release_log();
    let n = vm.created();
    assert forall|id: usize| id < n implies log.contains(id) by {
        assert(!vm.live(id));
        assert(!vm.globals@[id as int]);
    }
    assert(log.to_set() =~= ids_below(n)) by {
        assert forall|id: usize| log.to_set().contains(id) implies id < n by {
            let k = choose|k: int| 0 <= k < log.len() && log[k] == id;
            assert(log[k] < vm.globals@.len());
        }
    }
    log.unique_seq_to_set();
    assert(vm.globals.len() == vm.globals@.len()) by {
        broadcast use vstd::std_specs::vec::axiom_spec_len;
    }
    lemma_ids_below_len(n);
}

/// The ids of some global references.
pub open spec fn ids_of(gs: Seq<GlobalRef>) -> Seq<usize> {
    gs.map_values(|g: GlobalRef| g.spec_id())
}

/// Releases every global reference of `globals` from one thread. When they
/// are distinct and all live, there is exactly one release for each: the
/// log grows by their number and none of them is live after.
pub fn release_all(vm: &mut AniVm, thread: u64, globals: Vec<GlobalRef>)
    requires
        old(vm).wf(),
    ensures
        final(vm).wf(),
        final(vm).threads() == old(vm).threads(),
        final(vm).created() == old(vm).created(),
        forall|i: int| 0 <= i < globals@.len() ==> !final(vm).live(#[trigger] globals@[i].spec_id()),
        (ids_of(globals@).no_duplicates() && forall|i: int|
            0 <= i < globals@.len() ==> old(vm).live(#[trigger] globals@[i].spec_id()))
            ==> final(vm).release_log().len() == old(vm).release_log().len() + globals@.len(),
{
    let ghost all = globals@;
    let ghost good = ids_of(all).no_duplicates() && forall|i: int|
        0 <= i < all.len() ==> old(vm).live(#[trigger] all[i].spec_id());
    let mut globals = globals;
    while globals.len() > 0
        invariant
            vm.wf(),
            vm.threads() == old(vm).threads(),
            vm.created() == old(vm).created(),
            globals@.len() <= all.len(),
            globals@ == all.subrange(0, globals@.len() as int),
            forall|i: int| globals@.len() <= i < all.len() ==> !vm.live(#[trigger] all[i].spec_id()),
            good ==> forall|i: int| 0 <= i < globals@.len() ==> vm.live(#[trigger] all[i].spec_id()),
            good ==> vm.release_log().len() == old(vm).release_log().len() + (all.len() - globals@.len()),
            good == (ids_of(all).no_duplicates() && forall|i: int|
                0 <= i < all.len() ==> old(vm).live(#[trigger] all[i].spec_id())),
        decreases globals@.len(),
    {
        let ghost k = globals@.len() - 1;
        let ghost before = globals@;
        let g = globals.pop().unwrap();
        assert(before[k] == all[k]);
        assert(g == all[k]);
        assert(globals@ =~= all.subrange(0, k));
        vm.release_global(thread, g);
        proof {
            if good {
                assert forall|i: int| 0 <= i < globals@.len() implies vm.live(#[trigger] all[i].spec_id()) by {
                    assert(ids_of(all)[i] == all[i].spec_id());
                    assert(ids_of(all)[k] == all[k].spec_id());
                }
            }
        }
    }
}

} // verus!
