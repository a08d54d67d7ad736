use rpncalc::calculator::Calculator;
use rpncalc::errors::CalcError;
use rpncalc::lexer::{InputChar, NumberLiteral};
use rpncalc::output::{Diag, Outputs};
use rpncalc::value::Numeric;

#[derive(Clone, Copy, Debug, PartialEq)]
struct Num(f64);

impl Numeric for Num {
    // The spec-level names are ghost: they are never run, and this
    // unverified implementation does not reason with them.
    fn from_literal_spec(
        _: u32,
        _: rpncalc::value::DigitValues,
        _: rpncalc::value::DigitValues,
    ) -> Self {
        unreachable!()
    }

    fn from_count_spec(_: usize) -> Self {
        unreachable!()
    }

    fn plus_spec(self, _: Self) -> Self {
        unreachable!()
    }

    fn minus_spec(self, _: Self) -> Self {
        unreachable!()
    }

    fn times_spec(self, _: Self) -> Self {
        unreachable!()
    }

    fn divided_by_spec(self, _: Self) -> Self {
        unreachable!()
    }

    fn modulo_spec(self, _: Self) -> Self {
        unreachable!()
    }

    fn to_power_spec(self, _: Self) -> Self {
        unreachable!()
    }

    fn negated_spec(self) -> Self {
        unreachable!()
    }

    fn to_index_spec(self) -> isize {
        unreachable!()
    }

    fn to_radix_spec(self) -> u32 {
        unreachable!()
    }

    fn render_spec(self) -> rpncalc::value::RenderedText {
        unreachable!()
    }

    fn from_literal(input_radix: u32, lit: &NumberLiteral) -> Self {
        let mut ret = 0.0;
        for &d in lit.int_digits.iter() {
            ret = ret * f64::from(input_radix) + f64::from(d);
        }
        let radix_reciprocal = 1.0 / f64::from(input_radix);
        let mut past_decimal = 0usize;
        for &d in lit.frac_digits.iter() {
            past_decimal += 1;
            let mut digit = f64::from(d);
            for _ in 0..past_decimal {
                digit *= radix_reciprocal;
            }
            ret += digit;
        }
        Num(ret)
    }

    fn from_count(n: usize) -> Self {
        Num(n as f64)
    }

    fn plus(self, other: Self) -> Self {
        Num(self.0 + other.0)
    }

    fn minus(self, other: Self) -> Self {
        Num(self.0 - other.0)
    }

    fn times(self, other: Self) -> Self {
        Num(self.0 * other.0)
    }

    fn divided_by(self, other: Self) -> Self {
        Num(self.0 / other.0)
    }

    fn modulo(self, other: Self) -> Self {
        Num(self.0 % other.0)
    }

    fn to_power(self, exponent: Self) -> Self {
        Num(self.0.powf(exponent.0))
    }

    fn negated(self) -> Self {
        Num(-self.0)
    }

    fn to_index(self) -> isize {
        self.0 as isize
    }

    fn to_radix(self) -> u32 {
        self.0 as u32
    }

    fn render(&self) -> String {
        format!("{}", self.0)
    }
}

fn run(script: &str) -> (Outputs, Result<(), CalcError>) {
    let input: Vec<InputChar> = script.chars().map(InputChar::Chr).collect();
    let mut calc: Calculator<Num> = Calculator::new();
    let mut out = Outputs::new();
    let r = calc.evaluate(&input, &mut out);
    (out, r)
}

#[test]
fn add_literals() {
    let (out, r) = run("3 4 +p");
    assert!(r.is_ok());
    assert_eq!(out.values, vec![String::from("7")]);
}

#[test]
fn radix_above_maximum_is_rejected() {
    let (out, r) = run("99iIp");
    assert!(r.is_ok());
    assert!(out.diags.contains(&Diag::RadixWarning));
    // the radix is still 10, and the rejected argument was consumed
    assert_eq!(out.values, vec![String::from("10")]);
}

#[test]
fn radix_change_applies_to_literals() {
    // after `16i`, letter digits start literals and place value is hex
    let (out, r) = run("16i ffp");
    assert!(r.is_ok());
    assert_eq!(out.values, vec![String::from("255")]);
    let (out, r) = run("16i 1.8p");
    assert!(r.is_ok());
    assert_eq!(out.values, vec![String::from("1.5")]);
}

#[test]
fn print_stack_listing() {
    let (out, r) = run("1 2V");
    assert!(r.is_ok());
    assert_eq!(out.values, vec![String::from("1: 1\n0: 2\n")]);
}

#[test]
fn register_store_and_load() {
    let (out, r) = run("5 sa lap");
    assert!(r.is_ok());
    assert_eq!(out.values, vec![String::from("5")]);
}

#[test]
fn register_operation_command() {
    // store 5 in register a, duplicate inside the register, load twice
    let (out, r) = run("5 sa&ad lap lap");
    assert!(r.is_ok());
    assert_eq!(out.values, vec![String::from("5"), String::from("5")]);
}

#[test]
fn command_errors_are_reported_and_skipped() {
    let (out, r) = run("q 1 2 +p");
    assert!(r.is_ok());
    assert!(out.diags.contains(&Diag::CommandError(CalcError::UnknownCommand('q'))));
    assert_eq!(out.values, vec![String::from("3")]);
}

#[test]
fn missing_operand() {
    let (out, r) = run("s");
    assert!(r.is_ok());
    assert!(out.diags.contains(&Diag::CommandError(CalcError::MissingOperand('s'))));
}

#[test]
fn decode_failure_is_fatal() {
    let input = vec![InputChar::Chr('1'), InputChar::Chr(' '), InputChar::Bad];
    let mut calc: Calculator<Num> = Calculator::new();
    let mut out = Outputs::new();
    assert_eq!(calc.evaluate(&input, &mut out), Err(CalcError::InputDecodeFailure));
}

#[test]
fn help_events() {
    let (out, r) = run("?+");
    assert!(r.is_ok());
    assert_eq!(out.diags, vec![Diag::Prompt, Diag::Help('+')]);
    let (out, r) = run("? ");
    assert!(r.is_ok());
    assert_eq!(out.diags, vec![Diag::Prompt, Diag::HelpUsage(' ')]);
}

#[test]
fn prompt_on_newline() {
    let (out, r) = run("\n");
    assert!(r.is_ok());
    assert_eq!(out.diags, vec![Diag::Prompt, Diag::Prompt]);
}

#[test]
fn stack_manipulation_commands() {
    // duplicate, swap, rotate and depth interact as on a dc stack
    let (out, r) = run("1 2 3d+ +p");
    assert!(r.is_ok());
    assert_eq!(out.values, vec![String::from("8")]);
    let (out, r) = run("1 2r -p");
    assert!(r.is_ok());
    assert_eq!(out.values, vec![String::from("1")]);
    let (out, r) = run("zp");
    assert!(r.is_ok());
    assert_eq!(out.values, vec![String::from("0")]);
}

#[test]
fn divrem_command() {
    // 7 " on [2, 7]: quotient below, remainder on top
    let (out, r) = run("2 7\"p p");
    assert!(r.is_ok());
    assert_eq!(out.values, vec![String::from("1"), String::from("3.5")]);
}

#[test]
fn partial_effect_on_failed_binary() {
    // '+' with one operand pops it, then fails; the pop is not rolled back
    let (out, r) = run("5+zp");
    assert!(r.is_ok());
    assert!(out.diags.contains(&Diag::CommandError(CalcError::EmptyStack)));
    assert_eq!(out.values, vec![String::from("0")]);
}

#[test]
fn apply_radix_bounds() {
    let mut radix = 10u32;
    let mut out = Outputs::new();
    rpncalc::interp::apply_radix(&mut radix, 99, &mut out);
    assert_eq!(radix, 10);
    assert_eq!(out.diags, vec![Diag::RadixWarning]);
    rpncalc::interp::apply_radix(&mut radix, 16, &mut out);
    assert_eq!(radix, 16);
    assert_eq!(out.diags, vec![Diag::RadixWarning]);
    rpncalc::interp::apply_radix(&mut radix, 2, &mut out);
    assert_eq!(radix, 2);
}

#[test]
fn decode_failure_inside_command_is_fatal() {
    // inside a literal
    let input = vec![InputChar::Chr('1'), InputChar::Bad, InputChar::Chr('2')];
    let mut calc: Calculator<Num> = Calculator::new();
    let mut out = Outputs::new();
    assert_eq!(calc.evaluate(&input, &mut out), Err(CalcError::InputDecodeFailure));
    // as a register key
    let input = vec![InputChar::Chr('s'), InputChar::Bad];
    let mut calc: Calculator<Num> = Calculator::new();
    let mut out = Outputs::new();
    assert_eq!(calc.evaluate(&input, &mut out), Err(CalcError::InputDecodeFailure));
    // no error report is appended for the fatal kind
    assert!(!out.diags.iter().any(|d| matches!(d, Diag::CommandError(_))));
}
