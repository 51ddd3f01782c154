use melbi::vm::stack::Stack;

#[test]
fn test_new_stack() {
    let stack: Stack<i32> = Stack::new(100);
    assert_eq!(stack.len(), 0);
    assert_eq!(stack.capacity(), 100);
    assert!(stack.is_empty());
}

#[test]
fn test_push_pop() {
    let mut stack = Stack::new(100);
    stack.push(1);
    stack.push(2);
    stack.push(3);

    assert_eq!(stack.len(), 3);
    assert_eq!(stack.pop(), Some(3));
    assert_eq!(stack.pop(), Some(2));
    assert_eq!(stack.pop(), Some(1));
    assert_eq!(stack.pop(), None);
}

#[test]
fn test_peek() {
    let mut stack = Stack::new(100);
    assert_eq!(stack.peek(), None);

    stack.push(42);
    assert_eq!(stack.peek(), Some(&42));
    assert_eq!(stack.len(), 1);

    stack.push(17);
    assert_eq!(stack.peek(), Some(&17));

    stack.clear();
}

#[test]
fn test_peek_mut() {
    let mut stack = Stack::new(100);
    stack.push(42);

    if let Some(top) = stack.peek_mut() {
        *top = 100;
    }

    assert_eq!(stack.pop(), Some(100));
}

#[test]
fn test_peek_at() {
    let mut stack = Stack::new(100);
    stack.push(10);
    stack.push(20);
    stack.push(30);

    assert_eq!(stack.peek_at(0), Some(&30));
    assert_eq!(stack.peek_at(1), Some(&20));
    assert_eq!(stack.peek_at(2), Some(&10));
    assert_eq!(stack.peek_at(3), None);

    stack.clear();
}

#[test]
fn test_dup() {
    let mut stack = Stack::new(100);

    assert!(!stack.dup());

    stack.push(42);
    assert!(stack.dup());
    assert_eq!(stack.len(), 2);
    assert_eq!(stack.pop(), Some(42));
    assert_eq!(stack.pop(), Some(42));
}

#[test]
fn test_clear() {
    let mut stack = Stack::new(100);
    stack.push(1);
    stack.push(2);
    stack.push(3);

    stack.clear();
    assert_eq!(stack.len(), 0);
    assert!(stack.is_empty());
}

#[test]
fn stack_test_iter() {
    let mut stack = Stack::new(100);
    stack.push(1);
    stack.push(2);
    stack.push(3);

    let items: Vec<_> = stack.iter().copied().collect();
    assert_eq!(items, vec![1, 2, 3]);

    stack.clear();
}

#[test]
fn test_large_stack() {
    let mut stack = Stack::new(10000);
    for i in 0..1000 {
        stack.push(i);
    }

    assert_eq!(stack.len(), 1000);

    for i in (0..1000).rev() {
        assert_eq!(stack.pop(), Some(i));
    }
}

#[test]
fn test_pop_n() {
    let mut stack = Stack::new(100);
    stack.push(10);
    stack.push(20);
    stack.push(30);
    stack.push(40);

    stack.pop_n(2);
    assert_eq!(stack.len(), 2);
    assert_eq!(stack.peek(), Some(&20));

    stack.pop_n(10);
    assert_eq!(stack.len(), 0);
}

#[test]
fn test_top_n() {
    let mut stack = Stack::new(100);
    stack.push(10);
    stack.push(20);
    stack.push(30);
    stack.push(40);

    assert_eq!(stack.top_n(2).unwrap(), &[30, 40]);
    assert_eq!(stack.top_n(3).unwrap(), &[20, 30, 40]);
    assert_eq!(stack.top_n(0).unwrap(), &[] as &[i32]);
    assert_eq!(stack.top_n(10), None);
}

#[test]
fn test_top_n_mut() {
    let mut stack = Stack::new(100);
    stack.push(10);
    stack.push(20);
    stack.push(30);

    if let Some(top_2) = stack.top_n_mut(2) {
        top_2[0] = 99;
        top_2[1] = 88;
    }

    assert_eq!(stack.pop(), Some(88));
    assert_eq!(stack.pop(), Some(99));
    assert_eq!(stack.pop(), Some(10));
    assert_eq!(stack.top_n_mut(1), None);
}

#[test]
fn test_push_then_pop_restores() {
    let mut stack = Stack::new(10);
    stack.push(1);
    stack.push(2);
    stack.push(7);
    assert_eq!(stack.pop(), Some(7));
    let items: Vec<_> = stack.iter().copied().collect();
    assert_eq!(items, vec![1, 2]);
    assert_eq!(stack.capacity(), 10);
}

#[test]
fn test_small_capacity() {
    let stack: Stack<u8> = Stack::new(3);
    assert_eq!(stack.capacity(), 3);
    assert!(stack.is_empty());
}
