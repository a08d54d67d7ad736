use rpncalc::errors::CalcError;
use rpncalc::lexer::{collect_number, InputChar, NumberLiteral};

fn chars_of(s: &str) -> Vec<InputChar> {
    s.chars().map(InputChar::Chr).collect()
}

/// Folds the lexed digits into a number the way the interactive calculator
/// does: place-value accumulation for the integer part, repeated division by
/// the radix for each fractional digit.
fn fold(input_radix: u32, lit: &NumberLiteral) -> f64 {
    let mut ret = 0.0;
    for &d in lit.int_digits.iter() {
        ret = ret * f64::from(input_radix) + f64::from(d);
    }
    let radix_reciprocal = 1.0 / f64::from(input_radix);
    let mut past_decimal = 0usize;
    for &d in lit.frac_digits.iter() {
        past_decimal += 1;
        let mut digit = f64::from(d);
        for _ in 0..past_decimal {
            digit *= radix_reciprocal;
        }
        ret += digit;
    }
    ret
}

fn lex(input_radix: u32, s: &str) -> (Option<char>, f64) {
    let input = chars_of(s);
    let mut pos = 0usize;
    let (pushback, lit) = collect_number(input_radix, &input, &mut pos).unwrap();
    (pushback, fold(input_radix, &lit))
}

#[test]
fn is_numeric() {
    assert_eq!(rpncalc::lexer::is_numeric(10, '0'), true);
    assert_eq!(rpncalc::lexer::is_numeric(10, 'f'), false);
    assert_eq!(rpncalc::lexer::is_numeric(16, '0'), true);
    assert_eq!(rpncalc::lexer::is_numeric(16, 'f'), true);
}

#[test]
fn number_char() {
    assert_eq!(rpncalc::lexer::number_char(10, '.'), true);
    assert_eq!(rpncalc::lexer::number_char(10, 'f'), false);
    assert_eq!(rpncalc::lexer::number_char(16, '.'), true);
    assert_eq!(rpncalc::lexer::number_char(16, 'f'), true);
}

#[test]
fn collect_f64() {
    assert_eq!(lex(10, ""), (None, 0.0));
    assert_eq!(lex(10, " "), (Some(' '), 0.0));
    assert_eq!(lex(10, "0"), (None, 0.0));
    assert_eq!(lex(10, "1"), (None, 1.0));
    assert_eq!(lex(10, "10"), (None, 10.0));
    assert_eq!(lex(16, "10"), (None, 16.0));
    assert_eq!(lex(10, "1.5"), (None, 1.5));
    assert_eq!(lex(10, "1.5\n"), (Some('\n'), 1.5));
    assert_eq!(lex(16, "1.8\n"), (Some('\n'), 1.5));
}

#[test]
fn multiple_decimal_points() {
    let input = chars_of("1.2.3");
    let mut pos = 0usize;
    assert_eq!(
        collect_number(10, &input, &mut pos).unwrap_err(),
        CalcError::MultipleDecimalPoints
    );
}

#[test]
fn decode_failure_aborts() {
    let input = vec![InputChar::Chr('1'), InputChar::Bad, InputChar::Chr('2')];
    let mut pos = 0usize;
    assert_eq!(
        collect_number(10, &input, &mut pos).unwrap_err(),
        CalcError::InputDecodeFailure
    );
}

#[test]
fn terminator_not_consumed() {
    let input = chars_of("27x9");
    let mut pos = 0usize;
    let (pushback, lit) = collect_number(10, &input, &mut pos).unwrap();
    assert_eq!(pushback, Some('x'));
    assert_eq!(fold(10, &lit), 27.0);
    // the character after the terminator is still there for the caller
    assert_eq!(pos, 3);
    assert_eq!(input[pos], InputChar::Chr('9'));
}

#[test]
fn radix_limits_digits() {
    // '5' is no digit in radix 2, so the literal ends before it
    let (pushback, value) = lex(2, "1015");
    assert_eq!(pushback, Some('5'));
    assert_eq!(value, 5.0);
}
