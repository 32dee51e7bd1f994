use vstd::prelude::*;

verus! {

/// The backend that builds contexts with the POSIX `getcontext`,
/// `makecontext` and `swapcontext` family.
#[derive(Clone, Copy, Debug, Default)]
pub struct Ucontext;

/// Why a context could not be made.
pub enum NewError {
    /// The stack cannot hold the control block of a context.
    StackTooSmall,
    /// `getcontext` failed.
    GetContext(std::io::Error),
}

/// A context of the POSIX backend, as the library sees it: the address of
/// its control block, and the address of the callback to run when it next
/// receives control, if any.
#[derive(Clone, Copy, Debug, PartialEq, Eq, Structural)]
pub struct Ucx {
    pub pointer: usize,
    pub on_top: Option<usize>,
}

/// What crosses a switch: the context that control came from, and one
/// opaque word of data.
#[derive(Clone, Copy, Debug, PartialEq, Eq, Structural)]
pub struct Transfer {
    pub context: Ucx,
    pub data: usize,
}

/// The per-thread slot of the POSIX backend, which carries a transfer across
/// `swapcontext`: the context that switched (none before the first switch),
/// the context that runs, its pending callback, and the data.
#[derive(Clone, Copy, Debug, PartialEq, Eq, Structural)]
pub struct LocalTransfer {
    pub from: Option<usize>,
    pub ucx: usize,
    pub on_top: Option<usize>,
    pub data: usize,
}

/// Where a context is carved out of a stack: its control block at the top,
/// and the stack proper below it.
#[derive(Clone, Copy, Debug, PartialEq, Eq, Structural)]
pub struct StackLayout {
    /// Address of the control block.
    pub block: usize,
    /// Bytes of stack from the base of the region up to the control block.
    pub stack_size: usize,
}

/// A block of `size` bytes at `at` is aligned to `align` and lies inside
/// the region of `len` bytes at `base`.
pub open spec fn fits(base: int, len: int, size: int, align: int, at: int) -> bool {
    &&& base <= at
    &&& at + size <= base + len
    &&& at % align == 0
}

/// A region of `len` bytes at `base` has room for a block of `size` bytes
/// aligned to `align`.
pub open spec fn has_room(base: int, len: int, size: int, align: int) -> bool {
    exists|at: int| fits(base, len, size, align, at)
}

/// Puts the control block of a new context at the highest address of the
/// stack region `[base, base + len)` that is aligned to `align` and leaves
/// `size` bytes for it; the stack proper is everything below. Fails with
/// `StackTooSmall` exactly when no such address exists. The block never
/// reaches outside the region.
pub fn carve_stack(base: usize, len: usize, size: usize, align: usize) -> (r: Result<
    StackLayout,
    NewError,
>)
    requires
        align > 0,
        base + len <= usize::MAX,
    ensures
        r is Err <==> !has_room(base as int, len as int, size as int, align as int),
        r is Err ==> r matches Err(NewError::StackTooSmall),
        r matches Ok(l) ==> {
            &&& fits(base as int, len as int, size as int, align as int, l.block as int)
            &&& forall|at: int| #[trigger]
                fits(base as int, len as int, size as int, align as int, at) ==> at <= l.block
            &&& l.stack_size == l.block - base
        },
{
    let end = base + len;
    if size > end {
        proof {
            assert forall|at: int| !fits(base as int, len as int, size as int, align as int, at) by {
            }
        }
        return Err(NewError::StackTooSmall);
    }
    let top = end - size;
    proof {
        let a = align as int;
        let t = top as int;
        assert(0 <= t % a <= t) by (nonlinear_arith)
            requires a > 0, t >= 0;
    }
    let block = top - top % align;
    proof {
        assert forall|at: int| #[trigger] fits(base as int, len as int, size as int, align as int, at)
            implies at <= block by {
            let a = align as int;
            let t = top as int;
            assert(t == (t / a) * a + t % a && 0 <= t % a < a) by (nonlinear_arith)
                requires a > 0, t >= 0;
            assert(at == (at / a) * a) by (nonlinear_arith)
                requires a > 0, at % a == 0;
            assert((at / a) <= (t / a)) by (nonlinear_arith)
                requires a > 0, at <= t, at >= 0;
            assert((at / a) * a <= (t / a) * a) by (nonlinear_arith)
                requires a > 0, at / a <= t / a;
        }
        let a = align as int;
        let t = top as int;
        assert((t - t % a) % a == 0) by (nonlinear_arith)
            requires a > 0, t >= 0;
    }
    if block < base {
        proof {
            assert forall|at: int| !fits(base as int, len as int, size as int, align as int, at) by {
                if fits(base as int, len as int, size as int, align as int, at) {
                    assert(at <= block);
                }
            }
        }
        return Err(NewError::StackTooSmall);
    }
    proof {
        assert(fits(base as int, len as int, size as int, align as int, block as int));
    }
    Ok(StackLayout { block, stack_size: block - base })
}

impl LocalTransfer {
    /// The slot of a thread that has not switched yet: it runs its root
    /// context `root`, with no callback pending.
    pub fn new_root(root: usize) -> (r: Self)
        ensures
            r == (LocalTransfer { from: None, ucx: root, on_top: None, data: 0 }),
    {
        LocalTransfer { from: None, ucx: root, on_top: None, data: 0 }
    }

    /// The transfer that a context receives on arrival: the context that
    /// switched to it, with the callback that was installed, and the data.
    pub open spec fn arrival(self) -> Transfer {
        Transfer { context: Ucx { pointer: self.from.unwrap(), on_top: self.on_top }, data: self.data }
    }

    /// The transfer that the slot holds once a switch has filled it.
    pub fn into_transfer(self) -> (r: Transfer)
        requires
            self.from is Some,
        ensures
            r == self.arrival(),
    {
        Transfer {
            context: Ucx { pointer: self.from.unwrap(), on_top: self.on_top },
            data: self.data,
        }
    }
}

/// The slot after the context that `slot` runs switches by `t`: it records
/// the switching context, the target, the target's callback and the data.
pub open spec fn switched(slot: LocalTransfer, t: Transfer) -> LocalTransfer {
    LocalTransfer {
        from: Some(slot.ucx),
        ucx: t.context.pointer,
        on_top: t.context.on_top,
        data: t.data,
    }
}

/// First half of a switch: the context to save into (the one that runs
/// now), the context to restore, and the slot to store before the swap.
pub fn prepare_resume(slot: LocalTransfer, t: Transfer) -> (r: (usize, usize, LocalTransfer))
    ensures
        r.0 == slot.ucx,
        r.1 == t.context.pointer,
        r.2 == switched(slot, t),
{
    let src = slot.ucx;
    (src, t.context.pointer, LocalTransfer {
        from: Some(src),
        ucx: t.context.pointer,
        on_top: t.context.on_top,
        data: t.data,
    })
}

/// Second half of a switch, once control has arrived: the transfer to hand
/// on, with its callback taken out, and that callback, which is to run on
/// the transfer before anything else does.
pub fn complete_resume(slot: LocalTransfer) -> (r: (Transfer, Option<usize>))
    requires
        slot.from is Some,
    ensures
        r.0.context.pointer == slot.from.unwrap(),
        r.0.context.on_top is None,
        r.0.data == slot.data,
        r.1 == slot.on_top,
{
    let mut t = slot.into_transfer();
    let on_top = t.context.on_top;
    t.context.on_top = None;
    (t, on_top)
}

/// `t` with `map` installed to run on its target as soon as the target
/// regains control.
pub fn with_on_top(t: Transfer, map: usize) -> (r: Transfer)
    ensures
        r == (Transfer { context: Ucx { pointer: t.context.pointer, on_top: Some(map) }, data: t.data }),
{
    let mut t = t;
    t.context.on_top = Some(map);
    t
}

/// The transfer that resumes `target` with `data` and no callback.
pub open spec fn plain(target: usize, data: usize) -> Transfer {
    Transfer { context: Ucx { pointer: target, on_top: None }, data }
}

/// If the context that `slot` runs resumes `target` with `data`, and
/// `target` at once resumes the context it received with the data it
/// received, control comes back with that data unchanged, from `target`.
pub proof fn lemma_identity_round_trip(slot: LocalTransfer, target: usize, data: usize)
    ensures
        ({
            let there = switched(slot, plain(target, data));
            let back = switched(there, there.arrival());
            &&& there.arrival().data == data
            &&& back.ucx == slot.ucx
            &&& back.arrival() == plain(target, data)
        }),
{
}

/// The slot after the context that `slot` runs resumes `cs[0]`, which
/// resumes `cs[1]`, and so on to the last of `cs`, none returning.
pub open spec fn resume_chain(slot: LocalTransfer, cs: Seq<usize>, data: usize) -> LocalTransfer
    decreases cs.len(),
{
    if cs.len() == 0 {
        slot
    } else {
        switched(resume_chain(slot, cs.drop_last(), data), plain(cs.last(), data))
    }
}

/// The context that resumed `cs[i]` in such a chain.
pub open spec fn caller(slot: LocalTransfer, cs: Seq<usize>, i: int) -> usize {
    if i == 0 {
        slot.ucx
    } else {
        cs[i - 1]
    }
}

/// The slot after the last `k` contexts of the chain `cs` have each
/// resumed, in turn, the context that resumed them.
pub open spec fn unwind_chain(slot: LocalTransfer, cs: Seq<usize>, k: nat, data: usize) -> LocalTransfer
    decreases k,
{
    if k == 0 {
        resume_chain(slot, cs, data)
    } else {
        switched(
            unwind_chain(slot, cs, (k - 1) as nat, data),
            plain(caller(slot, cs, cs.len() - k), data),
        )
    }
}

proof fn lemma_resume_chain(slot: LocalTransfer, cs: Seq<usize>, data: usize)
    requires
        cs.len() > 0,
    ensures
        resume_chain(slot, cs, data).ucx == cs.last(),
        resume_chain(slot, cs, data).from == Some(caller(slot, cs, cs.len() - 1)),
    decreases cs.len(),
{
    if cs.len() > 1 {
        lemma_resume_chain(slot, cs.drop_last(), data);
        assert(cs.drop_last().last() == cs[cs.len() - 2]);
    } else {
        assert(resume_chain(slot, cs.drop_last(), data) == slot);
    }
}

/// Nested resumes unwind in reverse: in a chain of contexts that each
/// resume the next, each one receives the context that resumed it, and when
/// they return one by one, control reaches the callers in exact reverse
/// order of the resumes, each return coming from the context that was
/// resumed last among those still running.
pub proof fn lemma_lifo_nesting(slot: LocalTransfer, cs: Seq<usize>, data: usize)
    requires
        cs.len() > 0,
    ensures
        forall|i: int|
            0 <= i < cs.len() ==> #[trigger] resume_chain(slot, cs.take(i + 1), data).arrival()
                == plain(caller(slot, cs, i), data),
        forall|k: nat|
            1 <= k <= cs.len() ==> {
                &&& (#[trigger] unwind_chain(slot, cs, k, data)).ucx == caller(slot, cs, cs.len() - k)
                &&& unwind_chain(slot, cs, k, data).from == Some(cs[cs.len() - k])
                &&& unwind_chain(slot, cs, k, data).arrival() == plain(cs[cs.len() - k], data)
            },
{
    assert forall|i: int| 0 <= i < cs.len() implies #[trigger] resume_chain(slot, cs.take(i + 1), data).arrival()
        == plain(caller(slot, cs, i), data) by {
        let p = cs.take(i + 1);
        lemma_resume_chain(slot, p, data);
        if i > 0 {
            assert(caller(slot, p, i) == p[i - 1]);
        }
    }
    assert forall|k: nat| 1 <= k <= cs.len() implies {
        &&& (#[trigger] unwind_chain(slot, cs, k, data)).ucx == caller(slot, cs, cs.len() - k)
        &&& unwind_chain(slot, cs, k, data).from == Some(cs[cs.len() - k])
    } by {
        lemma_unwind_chain(slot, cs, k, data);
    }
}

proof fn lemma_unwind_chain(slot: LocalTransfer, cs: Seq<usize>, k: nat, data: usize)
    requires
        1 <= k <= cs.len(),
    ensures
        unwind_chain(slot, cs, k, data).ucx == caller(slot, cs, cs.len() - k),
        unwind_chain(slot, cs, k, data).from == Some(cs[cs.len() - k]),
    decreases k,
{
    if k == 1 {
        lemma_resume_chain(slot, cs, data);
    } else {
        lemma_unwind_chain(slot, cs, (k - 1) as nat, data);
    }
}

} // verus!
