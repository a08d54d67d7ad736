use rpncalc::errors::CalcError;
use rpncalc::registers::Registers;

#[test]
fn new() {
    let _ = Registers::<f64>::new();
}

#[test]
fn stack_mut() {
    let mut registers = Registers::<f64>::new();
    let stack = registers.stack_mut('a');
    assert_eq!(stack.len(), 0);
    stack.push(1.0);
    assert_eq!(stack.pop().unwrap(), 1.0);
}

#[test]
fn push() {
    let mut registers = Registers::<f64>::new();
    registers.push('a', 1.0);
    let stack = registers.stack_mut('a');
    assert_eq!(stack.len(), 1);
    assert_eq!(stack.pop().unwrap(), 1.0);
}

#[test]
fn pop_top() {
    let mut registers = Registers::<f64>::new();
    assert!(matches!(registers.top('a'), Err(_)));
    assert!(matches!(registers.pop('a'), Err(_)));
    registers.push('a', 1.0);
    assert_eq!(*registers.top('a').unwrap(), 1.0);
    assert_eq!(registers.pop('a').unwrap(), 1.0);
    assert!(matches!(registers.pop('a'), Err(_)));
    assert!(matches!(registers.top('a'), Err(_)));
}

#[test]
fn round_trip() {
    let mut registers = Registers::<f64>::new();
    registers.push('x', 6.5);
    assert_eq!(registers.pop('x').unwrap(), 6.5);
}

#[test]
fn error_kinds() {
    let mut registers = Registers::<f64>::new();
    // A never-created register is distinguished on peeks alone: a pop
    // materializes the register first.
    assert_eq!(registers.top('q').unwrap_err(), CalcError::RegisterNotSet('q'));
    assert_eq!(registers.pop('r').unwrap_err(), CalcError::RegisterUnderflow('r'));
    registers.push('q', 2.0);
    registers.pop('q').unwrap();
    assert_eq!(registers.top('q').unwrap_err(), CalcError::RegisterUnderflow('q'));
}

#[test]
fn independent_registers() {
    let mut registers = Registers::<f64>::new();
    registers.push('a', 1.0);
    registers.push('b', 2.0);
    assert_eq!(registers.pop('a').unwrap(), 1.0);
    assert_eq!(registers.pop('b').unwrap(), 2.0);
}
