use unico::context::{
    carve_stack, complete_resume, prepare_resume, with_on_top, LocalTransfer, NewError, StackLayout, Transfer, Ucx,
};

fn plain(target: usize, data: usize) -> Transfer {
    Transfer { context: Ucx { pointer: target, on_top: None }, data }
}

#[test]
fn control_block_goes_to_the_aligned_top() {
    let l = carve_stack(0x1000, 0x2000, 0x3a8, 16).ok().unwrap();
    assert_eq!(l, StackLayout { block: 0x2c50, stack_size: 0x1c50 });
    assert!(l.block + 0x3a8 <= 0x3000);
    assert_eq!(l.block % 16, 0);
}

#[test]
fn undersized_stack_is_refused() {
    assert!(matches!(carve_stack(0x1000, 0x100, 0x3a8, 16), Err(NewError::StackTooSmall)));
    assert!(matches!(carve_stack(0x1008, 0x10, 0x10, 16), Err(NewError::StackTooSmall)));
    assert!(matches!(carve_stack(0, 0, 1, 1), Err(NewError::StackTooSmall)));
    for len in 0..0x3a8 {
        assert!(matches!(carve_stack(0x4000, len, 0x3a8, 16), Err(NewError::StackTooSmall)));
    }
}

#[test]
fn exact_fit_is_accepted() {
    let l = carve_stack(0x1000, 0x3a8, 0x3a8, 8).ok().unwrap();
    assert_eq!(l, StackLayout { block: 0x1000, stack_size: 0 });
}

#[test]
fn carved_block_never_leaves_the_region() {
    for len in 0x3a8..0x600 {
        for base in [0x1000usize, 0x1003, 0x1ff8] {
            if let Ok(l) = carve_stack(base, len, 0x3a8, 16) {
                assert!(l.block >= base && l.block + 0x3a8 <= base + len);
                assert_eq!(l.block % 16, 0);
                assert!(l.block + 16 + 0x3a8 > base + len);
            }
        }
    }
}

#[test]
fn identity_round_trip_keeps_the_payload() {
    let root = LocalTransfer::new_root(1);
    let (save, restore, there) = prepare_resume(root, plain(2, 0xdead));
    assert_eq!((save, restore), (1, 2));
    let (arrived, on_top) = complete_resume(there);
    assert_eq!(arrived, plain(1, 0xdead));
    assert_eq!(on_top, None);
    let (save, restore, back) = prepare_resume(there, arrived);
    assert_eq!((save, restore), (2, 1));
    let (home, _) = complete_resume(back);
    assert_eq!(home, plain(2, 0xdead));
}

#[test]
fn nested_resumes_return_in_reverse_order() {
    let chain = [10usize, 20, 30, 40];
    let mut slot = LocalTransfer::new_root(1);
    let mut callers = Vec::new();
    for &c in &chain {
        let (_, _, next) = prepare_resume(slot, plain(c, 7));
        let (arrived, _) = complete_resume(next);
        callers.push(arrived.context.pointer);
        slot = next;
    }
    assert_eq!(callers, vec![1, 10, 20, 30]);
    let mut order = Vec::new();
    for i in (0..chain.len()).rev() {
        let (from, to, next) = prepare_resume(slot, plain(callers[i], 7));
        assert_eq!(from, chain[i]);
        order.push(to);
        slot = next;
    }
    assert_eq!(order, vec![30, 20, 10, 1]);
}

#[test]
fn on_top_runs_on_arrival_and_is_taken_out() {
    let root = LocalTransfer::new_root(1);
    let t = with_on_top(plain(2, 5), 0x77);
    assert_eq!(t.context.on_top, Some(0x77));
    let (_, _, there) = prepare_resume(root, t);
    let (arrived, on_top) = complete_resume(there);
    assert_eq!(on_top, Some(0x77));
    assert_eq!(arrived.context.on_top, None);
    assert_eq!(arrived.data, 5);
}

#[test]
fn slot_becomes_a_transfer() {
    let slot = LocalTransfer { from: Some(3), ucx: 4, on_top: Some(9), data: 11 };
    assert_eq!(slot.into_transfer(), Transfer { context: Ucx { pointer: 3, on_top: Some(9) }, data: 11 });
}
