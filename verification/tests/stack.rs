use rpncalc::errors::CalcError;
use rpncalc::stack::Stack;

#[test]
fn basic() {
    let mut stack = Stack::new();
    stack.push(3.0);
    stack.push(4.0);
    assert_eq!(stack.pop().unwrap(), 4.0);
    assert_eq!(stack.pop().unwrap(), 3.0);
    assert!(matches!(stack.pop(), Err(_)));
}

#[test]
fn top() {
    let mut stack = Stack::new();
    assert!(matches!(stack.top(), Err(_)));
    stack.push(1.0);
    stack.push(2.0);
    assert_eq!(*stack.top().unwrap(), 2.0);
    *stack.top_mut().unwrap() = 3.0;
    assert_eq!(*stack.top().unwrap(), 3.0);
}

#[test]
fn len_clear() {
    let mut stack = Stack::new();
    assert_eq!(stack.len(), 0);
    stack.push(1.0);
    assert_eq!(stack.len(), 1);
    stack.push(2.0);
    assert_eq!(stack.len(), 2);
    stack.push(3.0);
    assert_eq!(stack.len(), 3);
    stack.clear();
    assert_eq!(stack.len(), 0);
}

#[test]
fn nth() {
    let mut stack = Stack::new();
    assert!(matches!(stack.nth(2), Err(_)));
    assert!(matches!(stack.nth_mut(2), Err(_)));
    stack.push(1.0);
    assert!(matches!(stack.nth(2), Err(_)));
    stack.push(2.0);
    assert!(matches!(stack.nth(2), Err(_)));
    stack.push(3.0);
    assert_eq!(*stack.nth(2).unwrap(), 1.0);
    *stack.nth_mut(2).unwrap() = 3.0;
    assert_eq!(*stack.nth(2).unwrap(), 3.0);
    *stack.nth_mut(0).unwrap() = 1.0;
    assert_eq!(stack.pop().unwrap(), 1.0);
}

fn contents(stack: &Stack<f64>) -> Vec<f64> {
    let mut v = Vec::new();
    let len = stack.len();
    for i in 0..len {
        v.push(*stack.nth(len - 1 - i).unwrap());
    }
    v
}

#[test]
fn rotate() {
    let mut stack = Stack::new();
    assert!(matches!(stack.rotate(0), Ok(())));
    assert!(matches!(stack.rotate(3), Err(_)));
    stack.push(1.0);
    stack.push(2.0);
    stack.push(3.0);
    stack.push(4.0);
    stack.rotate(3).unwrap();
    assert_eq!(contents(&stack), vec![1.0, 3.0, 4.0, 2.0]);
    stack.rotate(-3).unwrap();
    assert_eq!(contents(&stack), vec![1.0, 2.0, 3.0, 4.0]);
    stack.rotate(-3).unwrap();
    assert_eq!(contents(&stack), vec![1.0, 4.0, 2.0, 3.0]);
    stack.rotate(3).unwrap();
    assert_eq!(contents(&stack), vec![1.0, 2.0, 3.0, 4.0]);
}

#[test]
fn display() {
    let entries = vec![String::from("1"), String::from("2")];
    assert_eq!(rpncalc::render::format_entries(&entries), "1: 1\n0: 2\n");
}

#[test]
fn lifo_order() {
    let mut stack = Stack::new();
    let values = [2.5, -1.0, 0.0, 7.25, 3.0];
    for v in values {
        stack.push(v);
    }
    for v in values.iter().rev() {
        assert_eq!(stack.pop().unwrap(), *v);
    }
    assert!(matches!(stack.pop(), Err(_)));
}

#[test]
fn nth_zero_is_top() {
    let mut stack = Stack::new();
    stack.push(1.5);
    assert_eq!(*stack.nth(0).unwrap(), *stack.top().unwrap());
    stack.push(-4.0);
    assert_eq!(*stack.nth(0).unwrap(), *stack.top().unwrap());
    assert!(matches!(stack.nth(2), Err(_)));
    assert!(matches!(stack.nth(5), Err(_)));
}

#[test]
fn rotate_self_inverse() {
    for k in 0..=5i64 {
        let mut stack = Stack::new();
        for v in 1..=5 {
            stack.push(v as f64);
        }
        stack.rotate(k as isize).unwrap();
        stack.rotate(-k as isize).unwrap();
        assert_eq!(contents(&stack), vec![1.0, 2.0, 3.0, 4.0, 5.0]);
    }
}

#[test]
fn depth_errors() {
    let mut stack: Stack<f64> = Stack::new();
    assert_eq!(stack.nth(2).unwrap_err(), CalcError::InsufficientDepth(2));
    assert_eq!(stack.pop().unwrap_err(), CalcError::EmptyStack);
    assert_eq!(stack.rotate(4).unwrap_err(), CalcError::InsufficientDepth(4));
}
