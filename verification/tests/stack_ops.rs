use chip8_vm::stack::{Stack, StackError};

#[test]
fn stack_starts_empty() {
    let s = Stack::new();
    assert_eq!(s.top(), None);
    assert_eq!(s.depth(), 0);
}

#[test]
fn stack_push_top_pop() {
    let mut s = Stack::new();
    assert_eq!(s.push(0x204), Ok(()));
    assert_eq!(s.push(0x300), Ok(()));
    assert_eq!(s.top(), Some(0x300));
    assert_eq!(s.depth(), 2);
    assert_eq!(s.pop(), Ok(()));
    assert_eq!(s.top(), Some(0x204));
    assert_eq!(s.pop(), Ok(()));
    assert_eq!(s.top(), None);
}

#[test]
fn stack_overflows_past_sixteen() {
    let mut s = Stack::new();
    for depth in 0..16u16 {
        assert_eq!(s.push(0x200 + depth), Ok(()));
    }
    assert_eq!(s.depth(), 16);
    assert_eq!(s.push(0xFFF), Err(StackError));
    assert_eq!(s.depth(), 16);
    assert_eq!(s.top(), Some(0x20F));
}

#[test]
fn stack_underflows_when_empty() {
    let mut s = Stack::new();
    assert_eq!(s.pop(), Err(StackError));
    assert_eq!(s.push(7), Ok(()));
    assert_eq!(s.pop(), Ok(()));
    assert_eq!(s.pop(), Err(StackError));
}
