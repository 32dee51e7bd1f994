use unico::coroutine::{CoState, Lifecycle, ResumeError};
use unico::panicking::{relay, relay_panic, relay_unrooted, resume_unwind, AbortHook, PanicHook, Payload, Relay};
use unico::context::Ucx;

#[test]
fn lifecycle_runs_and_ends() {
    let mut co = Lifecycle::new();
    assert_eq!(co.state_of(), CoState::Created);
    assert_eq!(co.enter(), Ok(()));
    assert_eq!(co.enter(), Err(ResumeError::Running));
    co.suspend();
    assert_eq!(co.state_of(), CoState::Suspended);
    assert_eq!(co.enter(), Ok(()));
    co.end(false);
    assert_eq!(co.state_of(), CoState::Finished);
}

#[test]
fn ended_coroutine_cannot_be_resumed() {
    let mut co = Lifecycle::new();
    co.enter().unwrap();
    co.end(true);
    for _ in 0..3 {
        assert_eq!(co.enter(), Err(ResumeError::Terminated));
        assert_eq!(co.state_of(), CoState::Panicked);
    }
}

struct GoTo(u32);

impl PanicHook<&'static str, u32> for GoTo {
    fn rewind(self, _payload: &&'static str) -> Option<u32> {
        Some(self.0)
    }
}

#[test]
fn hook_continuation_receives_the_payload() {
    match relay_panic(GoTo(7), "boom") {
        Relay::Rewind { to, payload } => {
            assert_eq!(to, 7);
            assert_eq!(payload, "boom");
        }
        Relay::Abort => panic!("the hook named a continuation"),
    }
}

#[test]
fn default_hook_aborts() {
    assert!(matches!(relay_panic::<&str, u32, _>(AbortHook, "boom"), Relay::Abort));
    assert!(matches!(relay_unrooted::<&str, u32>("boom"), Relay::Abort));
}

#[test]
fn relay_follows_the_decision() {
    assert!(matches!(relay(Some(4u8), 'p'), Relay::Rewind { to: 4, payload: 'p' }));
    assert!(matches!(relay(None::<u8>, 'p'), Relay::Abort));
}

#[test]
fn forced_unwind_keeps_unwinding() {
    let cx = Ucx { pointer: 0x40, on_top: None };
    assert_eq!(resume_unwind::<u8>(Payload::Unwinding(cx)), Err(cx));
    assert_eq!(resume_unwind(Payload::Panic(3u8)), Ok(3));
}
