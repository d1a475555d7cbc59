use vstd::prelude::*;

use crate::env::{same_key, AniEnv, AniRef};
use crate::error::{AniError, ErrorKind};
use crate::vm::{AniVm, GlobalRef};

verus! {

/// Reference equality, which only an attached thread can ask the runtime:
/// the same object, or wrappers of one primitive, or equal strings. Without
/// an environment on the thread the answer is "not equal".
pub fn ref_equals(vm: &AniVm, thread: u64, env: &AniEnv, a: AniRef, b: AniRef) -> (r: bool)
    ensures
        r == (vm.threads().contains(thread) && env.valid(a) && env.valid(b) && same_key(
            env.objects(),
            a.handle,
            b.handle,
        )),
{
    if !vm.is_attached(thread) || !env.contains(a) || !env.contains(b) {
        return false;
    }
    env.strict_eq(a, b)
}

/// A foreign callable kept alive across calls and threads by a global
/// reference.
#[derive(Debug)]
pub struct GlobalCallback {
    global: GlobalRef,
}

impl GlobalCallback {
    pub closed spec fn spec_global(&self) -> GlobalRef {
        self.global
    }

    /// Promotes a callable, held by a local reference, to a callback that
    /// outlives the call; only an attached thread may do so.
    pub fn into_global_callback(vm: &mut AniVm, thread: u64, callable: AniRef) -> (res: Result<
        GlobalCallback,
        AniError,
    >)
        requires
            old(vm).wf(),
        ensures
            final(vm).wf(),
            res is Ok <==> old(vm).threads().contains(thread),
            res is Err ==> res->Err_0.kind == ErrorKind::ThreadState && *final(vm) == *old(vm),
            res is Ok ==> {
                &&& res->Ok_0.spec_global().spec_target() == callable
                &&& final(vm).live(res->Ok_0.spec_global().spec_id())
                &&& res->Ok_0.spec_global().spec_id() == old(vm).created()
            },
    {
        let global = vm.create_global_ref(thread, callable)?;
        Ok(GlobalCallback { global })
    }

    /// The callable to invoke on a thread that already holds an environment;
    /// any other thread is refused.
    pub fn execute_current(&self, vm: &AniVm, thread: u64) -> (res: Result<AniRef, AniError>)
        ensures
            res is Ok <==> vm.threads().contains(thread),
            res is Ok ==> res->Ok_0 == self.spec_global().spec_target(),
            res is Err ==> res->Err_0.kind == ErrorKind::ThreadState,
    {
        vm.get_env(thread)?;
        Ok(self.global.target())
    }

    /// Prepares a call from any thread: the thread is attached if it was
    /// not, and the result says whether this call attached it, for
    /// `finish_execute` to undo.
    pub fn begin_execute(&self, vm: &mut AniVm, thread: u64) -> (r: (AniRef, bool))
        requires
            old(vm).wf(),
        ensures
            final(vm).wf(),
            final(vm).threads() == old(vm).threads().insert(thread),
            r.0 == self.spec_global().spec_target(),
            r.1 == !old(vm).threads().contains(thread),
            forall|id: usize| #[trigger] final(vm).live(id) == old(vm).live(id),
    {
        let attached_here = vm.enter(thread);
        (self.global.target(), attached_here)
    }

    /// Ends a call begun with `begin_execute`: the thread is detached only if
    /// that call attached it.
    pub fn finish_execute(&self, vm: &mut AniVm, thread: u64, attached_here: bool)
        requires
            old(vm).wf(),
            old(vm).threads().contains(thread),
        ensures
            final(vm).wf(),
            attached_here ==> final(vm).threads() == old(vm).threads().remove(thread),
            !attached_here ==> final(vm).threads() == old(vm).threads(),
            forall|id: usize| #[trigger] final(vm).live(id) == old(vm).live(id),
    {
        vm.leave(thread, attached_here);
    }

    /// Drops the callback, releasing its global reference from whatever
    /// thread this runs on.
    pub fn release(self, vm: &mut AniVm, thread: u64)
        requires
            old(vm).wf(),
        ensures
            final(vm).wf(),
            final(vm).threads() == old(vm).threads(),
            !final(vm).live(self.spec_global().spec_id()),
            old(vm).live(self.spec_global().spec_id()) ==> final(vm).release_log() == old(
                vm,
            ).release_log().push(self.spec_global().spec_id()),
    {
        vm.release_global(thread, self.global);
    }
}

} // verus!
