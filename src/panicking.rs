use vstd::prelude::*;

use crate::context::Ucx;

verus! {

/// The source of some continuation if the current continuation panics.
///
/// The coroutine is built with some implementation of this trait. If the
/// coroutine panics, the panic payload is shown to it, and it either gives
/// back a continuation to be passed on, or elects to abort the whole
/// control flow.
pub trait PanicHook<P, C>: Sized {
    /// The hook aborts on every panic: `rewind` then never names a
    /// continuation. A hook that may name one keeps the default, `false`.
    open spec fn aborts(&self) -> bool {
        false
    }

    /// The actual process of handling the panic: the continuation to go on
    /// with, or `None` to abort. See [`PanicHook`].
    fn rewind(self, payload: &P) -> (r: Option<C>)
        ensures
            self.aborts() ==> r is None,
    ;
}

/// Aborts the whole control flow if a panic is caught in the current
/// coroutine or continuation.
#[derive(Clone, Copy, Debug, Default)]
pub struct AbortHook;

impl<P, C> PanicHook<P, C> for AbortHook {
    open spec fn aborts(&self) -> bool {
        true
    }

    fn rewind(self, payload: &P) -> (r: Option<C>) {
        None
    }
}

/// What becomes of a panic that reached the root of a coroutine.
pub enum Relay<P, C> {
    /// Control goes on in `to`, which receives the payload.
    Rewind { to: C, payload: P },
    /// There is nothing to go on with: the process aborts.
    Abort,
}

/// A payload that crossed a switch: a real panic, or the forced unwind of a
/// cancelled coroutine, which carries the context being unwound so that it
/// is dropped on the way.
pub enum Payload<P> {
    Panic(P),
    Unwinding(Ucx),
}

/// What follows from the hook's answer `decision` for a panic with
/// `payload`: the continuation it names receives exactly `payload`; without
/// one, the process is to abort.
pub fn relay<P, C>(decision: Option<C>, payload: P) -> (r: Relay<P, C>)
    ensures
        match decision {
            Some(c) => r == (Relay::Rewind { to: c, payload }),
            None => r == Relay::<P, C>::Abort,
        },
{
    match decision {
        Some(to) => Relay::Rewind { to, payload },
        None => Relay::Abort,
    }
}

/// Asks `hook` what to do with `payload`, which a coroutine panicked with,
/// and relays the panic accordingly. Whatever continuation comes out
/// receives exactly `payload`.
pub fn relay_panic<P, C, H: PanicHook<P, C>>(hook: H, payload: P) -> (r: Relay<P, C>)
    ensures
        r matches Relay::Rewind { payload: p, .. } ==> p == payload,
        hook.aborts() ==> r is Abort,
{
    let decision = hook.rewind(&payload);
    relay(decision, payload)
}

/// Relays a panic at the root of a chain, which has the default hook
/// [`AbortHook`]: always an abort.
pub fn relay_unrooted<P, C>(payload: P) -> (r: Relay<P, C>)
    ensures
        r is Abort,
{
    relay_panic(AbortHook, payload)
}

/// Sorts a payload that arrived on a stack where unwinding is valid: the
/// forced unwind of a cancelled coroutine must go on unwinding with its
/// context (`Err`), while a real panic is handed back to the caller (`Ok`).
pub fn resume_unwind<P>(payload: Payload<P>) -> (r: Result<P, Ucx>)
    ensures
        match payload {
            Payload::Panic(p) => r == Ok::<P, Ucx>(p),
            Payload::Unwinding(cx) => r == Err::<P, Ucx>(cx),
        },
{
    match payload {
        Payload::Panic(p) => Ok(p),
        Payload::Unwinding(cx) => Err(cx),
    }
}

} // verus!
