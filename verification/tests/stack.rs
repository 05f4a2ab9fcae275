use lubun::kernel::stack::{StackManager, MAX_STACKS, STACK_SIZE};

#[test]
fn allocate_and_free() {
    let mut mgr = StackManager::init();
    let s1 = mgr.allocate_stack();
    assert!(s1.is_some());
    assert!(mgr.deallocate_stack(s1.unwrap()));
}

#[test]
fn stacks_are_handed_out_in_order_until_exhausted() {
    let mut mgr = StackManager::init();
    for i in 0..MAX_STACKS {
        assert_eq!(mgr.allocate_stack(), Some((i + 1) * STACK_SIZE));
    }
    assert_eq!(mgr.allocate_stack(), None);
}

#[test]
fn freed_stack_is_reused_first() {
    let mut mgr = StackManager::init();
    let a = mgr.allocate_stack().unwrap();
    let b = mgr.allocate_stack().unwrap();
    let c = mgr.allocate_stack().unwrap();
    assert_eq!((a, b, c), (16384, 32768, 49152));
    assert!(mgr.deallocate_stack(b));
    assert_eq!(mgr.allocate_stack(), Some(b));
    assert_eq!(mgr.allocate_stack(), Some(4 * STACK_SIZE));
}

#[test]
fn double_free_is_refused() {
    let mut mgr = StackManager::init();
    let a = mgr.allocate_stack().unwrap();
    assert!(mgr.deallocate_stack(a));
    assert!(!mgr.deallocate_stack(a));
    assert_eq!(mgr.allocate_stack(), Some(a));
}

#[test]
fn foreign_tops_are_refused() {
    let mut mgr = StackManager::init();
    for _ in 0..MAX_STACKS {
        mgr.allocate_stack().unwrap();
    }
    assert!(!mgr.deallocate_stack(0));
    assert!(!mgr.deallocate_stack(STACK_SIZE - 1));
    assert!(!mgr.deallocate_stack(STACK_SIZE + 8));
    assert!(!mgr.deallocate_stack((MAX_STACKS + 1) * STACK_SIZE));
    assert!(!mgr.deallocate_stack(usize::MAX));
    assert_eq!(mgr.allocate_stack(), None);
    assert!(mgr.deallocate_stack(MAX_STACKS * STACK_SIZE));
    assert_eq!(mgr.allocate_stack(), Some(MAX_STACKS * STACK_SIZE));
}

#[test]
fn stack_in_use_is_not_handed_out_until_freed() {
    let mut mgr = StackManager::init();
    let kept = mgr.allocate_stack().unwrap();
    let mut others = Vec::new();
    for round in 0..20 {
        if round % 3 == 2 {
            if let Some(top) = others.pop() {
                assert!(mgr.deallocate_stack(top));
            }
        } else if let Some(top) = mgr.allocate_stack() {
            assert_ne!(top, kept);
            for &other in &others {
                assert_ne!(top, other);
            }
            others.push(top);
        }
    }
    assert!(!mgr.deallocate_stack(kept + 1));
    assert!(mgr.deallocate_stack(kept));
}
