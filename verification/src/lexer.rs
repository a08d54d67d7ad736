//! The radix-sensitive numeric literal lexer.
//!
//! Given an input radix `R` between 2 and 16, the lexer consumes characters
//! while they are valid digits in `R` or a single decimal point, and stops at
//! the first character that is neither, handing that character back unconsumed
//! into the literal.  The lexer itself never does arithmetic: it returns the
//! digit values of the integer and fractional parts, and the value type folds
//! them into a number (see [`crate::value::Numeric::from_literal`]).

use vstd::prelude::*;
use crate::errors::CalcError;

verus! {

/// One character pulled from the calculator's input source: either a decoded
/// character or a decoding failure.
#[derive(Clone, Copy, Debug, PartialEq, Eq, Structural)]
pub enum InputChar {
    /// A decoded character.
    Chr(char),
    /// The source failed to produce a character at this position.
    Bad,
}

/// The digit value of `c` among the standard digit glyphs up to the maximum
/// radix of 16 (`0`-`9`, and `a`/`A` onward for 10 and up), or -1 when `c` is
/// no such glyph.
pub open spec fn digit_val(c: char) -> int {
    if '0' <= c && c <= '9' {
        c as u32 - '0' as u32
    } else if 'a' <= c && c <= 'f' {
        10 + (c as u32 - 'a' as u32)
    } else if 'A' <= c && c <= 'F' {
        10 + (c as u32 - 'A' as u32)
    } else {
        -1
    }
}

/// Whether `c` is a valid digit in `radix`: a digit glyph whose value is
/// below `radix`.
pub open spec fn digit_ok(radix: u32, c: char) -> bool {
    0 <= digit_val(c) < radix
}

/// Whether `c` can appear inside a numeric literal in `radix`: a valid digit
/// or the decimal point.
pub open spec fn is_number_char(radix: u32, c: char) -> bool {
    digit_ok(radix, c) || c == '.'
}

/// The digit value of `c`, when `c` is a digit glyph.
pub fn digit_value(c: char) -> (r: Option<u32>)
    ensures
        digit_val(c) >= 0 ==> r == Some(digit_val(c) as u32),
        digit_val(c) < 0 ==> r is None,
{
    if c >= '0' && c <= '9' {
        Some(c as u32 - '0' as u32)
    } else if c >= 'a' && c <= 'f' {
        Some(10 + (c as u32 - 'a' as u32))
    } else if c >= 'A' && c <= 'F' {
        Some(10 + (c as u32 - 'A' as u32))
    } else {
        None
    }
}

/// Whether `c` is a valid digit in `input_radix`.
pub fn is_numeric(input_radix: u32, c: char) -> (r: bool)
    ensures
        r == digit_ok(input_radix, c),
{
    match digit_value(c) {
        Some(d) => d < input_radix,
        None => false,
    }
}

/// Whether `c` can appear inside a numeric literal in `input_radix`.
pub fn number_char(input_radix: u32, c: char) -> (r: bool)
    ensures
        r == is_number_char(input_radix, c),
{
    is_numeric(input_radix, c) || c == '.'
}

/// The digits of one numeric literal: the digit values before the decimal
/// point and those after it (empty when the literal has no point).
#[derive(Debug)]
pub struct NumberLiteral {
    /// Digit values of the integer part, most significant first.
    pub int_digits: Vec<u32>,
    /// Digit values of the fractional part, in reading order.
    pub frac_digits: Vec<u32>,
}

/// What one run of the lexer produces: its result, and the input position
/// just after the last character it consumed.
pub struct LexOutcome {
    /// The lexer's result: the handed-back character (if the run ended on a
    /// non-number character) with the integer and fractional digit values, or
    /// the error that ended the run.
    pub res: Result<(Option<char>, (Seq<u32>, Seq<u32>)), CalcError>,
    /// The position just past the consumed span.
    pub end: int,
}

/// The lexer as a transition function: reading `s` from position `i` with the
/// digits accumulated so far (`fracs` is `None` while still in the integer
/// part).  One character is examined per step: a decoding failure aborts, a
/// non-number character ends the run and is handed back, a digit extends the
/// current part, a decimal point switches to the fractional part once and is
/// an error the second time.  The end of the input ends the run with no
/// handed-back character.
pub open spec fn lex_from(
    radix: u32,
    s: Seq<InputChar>,
    i: int,
    ints: Seq<u32>,
    fracs: Option<Seq<u32>>,
) -> LexOutcome
    decreases s.len() - i,
{
    let digits = (
        ints,
        match fracs {
            Some(f) => f,
            None => Seq::empty(),
        },
    );
    if !(0 <= i < s.len()) {
        LexOutcome { res: Ok((None, digits)), end: i }
    } else {
        match s[i] {
            InputChar::Bad => LexOutcome { res: Err(CalcError::InputDecodeFailure), end: i + 1 },
            InputChar::Chr(c) => {
                if !is_number_char(radix, c) {
                    LexOutcome { res: Ok((Some(c), digits)), end: i + 1 }
                } else if digit_ok(radix, c) {
                    match fracs {
                        None => lex_from(radix, s, i + 1, ints.push(digit_val(c) as u32), None),
                        Some(f) => lex_from(
                            radix,
                            s,
                            i + 1,
                            ints,
                            Some(f.push(digit_val(c) as u32)),
                        ),
                    }
                } else {
                    match fracs {
                        None => lex_from(radix, s, i + 1, ints, Some(Seq::empty())),
                        Some(_) => LexOutcome {
                            res: Err(CalcError::MultipleDecimalPoints),
                            end: i + 1,
                        },
                    }
                }
            },
        }
    }
}

/// Consumes one numeric literal from `input` starting at `*pos`, leaving
/// `*pos` just past the consumed span.  The result is exactly what the
/// transition function [`lex_from`] describes from the starting position.
pub fn collect_number(input_radix: u32, input: &Vec<InputChar>, pos: &mut usize) -> (r: Result<
    (Option<char>, NumberLiteral),
    CalcError,
>)
    requires
        *old(pos) <= input@.len(),
    ensures
        ({
            let o = lex_from(input_radix, input@, *old(pos) as int, Seq::empty(), None);
            &&& *final(pos) == o.end
            &&& *final(pos) <= input@.len()
            &&& match (r, o.res) {
                (Ok((pb, lit)), Ok((spb, digs))) => pb == spb && lit.int_digits@ == digs.0
                    && lit.frac_digits@ == digs.1,
                (Err(e), Err(se)) => e == se,
                _ => false,
            }
        }),
{
    let ghost p0 = *pos as int;
    let mut i: usize = *pos;
    let mut ints: Vec<u32> = Vec::new();
    let mut fracs: Vec<u32> = Vec::new();
    let mut in_fraction: bool = false;
    loop
        invariant
            p0 == *old(pos) as int,
            p0 <= i as int <= input@.len(),
            lex_from(input_radix, input@, p0, Seq::empty(), None) == lex_from(
                input_radix,
                input@,
                i as int,
                ints@,
                if in_fraction {
                    Some(fracs@)
                } else {
                    None
                },
            ),
            !in_fraction ==> fracs@ == Seq::<u32>::empty(),
        decreases input@.len() - i,
    {
        let ghost st: Option<Seq<u32>> = if in_fraction {
            Some(fracs@)
        } else {
            None
        };
        let ghost ints0 = ints@;
        if i >= input.len() {
            proof {
                assert(lex_from(input_radix, input@, i as int, ints@, st) == LexOutcome {
                    res: Ok::<_, CalcError>(
                        (
                            None,
                            (
                                ints@,
                                if in_fraction {
                                    fracs@
                                } else {
                                    Seq::<u32>::empty()
                                },
                            ),
                        ),
                    ),
                    end: i as int,
                });
            }
            *pos = i;
            return Ok((None, NumberLiteral { int_digits: ints, frac_digits: fracs }));
        }
        match input[i] {
            InputChar::Bad => {
                proof {
                    assert(lex_from(input_radix, input@, i as int, ints@, st).res == Err::<
                        (Option<char>, (Seq<u32>, Seq<u32>)),
                        CalcError,
                    >(CalcError::InputDecodeFailure));
                }
                *pos = i + 1;
                return Err(CalcError::InputDecodeFailure);
            },
            InputChar::Chr(c) => {
                if !number_char(input_radix, c) {
                    proof {
                        assert(lex_from(input_radix, input@, i as int, ints@, st) == LexOutcome {
                            res: Ok::<_, CalcError>(
                                (
                                    Some(c),
                                    (
                                        ints@,
                                        if in_fraction {
                                            fracs@
                                        } else {
                                            Seq::<u32>::empty()
                                        },
                                    ),
                                ),
                            ),
                            end: i + 1,
                        });
                    }
                    *pos = i + 1;
                    return Ok((Some(c), NumberLiteral { int_digits: ints, frac_digits: fracs }));
                }
                match digit_value(c) {
                    Some(d) if d < input_radix => {
                        if in_fraction {
                            fracs.push(d);
                        } else {
                            ints.push(d);
                        }
                    },
                    _ => {
                        assert(c == '.');
                        if in_fraction {
                            proof {
                                assert(lex_from(input_radix, input@, i as int, ints@, st).res
                                    == Err::<(Option<char>, (Seq<u32>, Seq<u32>)), CalcError>(
                                    CalcError::MultipleDecimalPoints,
                                ));
                            }
                            *pos = i + 1;
                            return Err(CalcError::MultipleDecimalPoints);
                        }
                        in_fraction = true;
                    },
                }
                i = i + 1;
                proof {
                    assert(lex_from(input_radix, input@, i - 1, ints0, st) == lex_from(
                        input_radix,
                        input@,
                        i as int,
                        ints@,
                        if in_fraction {
                            Some(fracs@)
                        } else {
                            None
                        },
                    ));
                }
            },
        }
    }
}

/// The lexer never consumes past its terminator: when it hands a character
/// back, that character sits immediately before the reported end of the
/// consumed span and is not a number character in the given radix.
pub proof fn lemma_lexer_keeps_terminator(
    radix: u32,
    s: Seq<InputChar>,
    i: int,
    ints: Seq<u32>,
    fracs: Option<Seq<u32>>,
)
    requires
        0 <= i,
    ensures
        ({
            let o = lex_from(radix, s, i, ints, fracs);
            forall|c: char, digs: (Seq<u32>, Seq<u32>)|
                o.res == Ok::<_, CalcError>((Some(c), digs)) ==> o.end <= s.len() && s[o.end - 1]
                    == InputChar::Chr(c) && !is_number_char(radix, c)
        }),
    decreases s.len() - i,
{
    if 0 <= i < s.len() {
        match s[i] {
            InputChar::Bad => {},
            InputChar::Chr(c) => {
                if is_number_char(radix, c) {
                    if digit_ok(radix, c) {
                        match fracs {
                            None => lemma_lexer_keeps_terminator(
                                radix,
                                s,
                                i + 1,
                                ints.push(digit_val(c) as u32),
                                None,
                            ),
                            Some(f) => lemma_lexer_keeps_terminator(
                                radix,
                                s,
                                i + 1,
                                ints,
                                Some(f.push(digit_val(c) as u32)),
                            ),
                        }
                    } else {
                        match fracs {
                            None => lemma_lexer_keeps_terminator(
                                radix,
                                s,
                                i + 1,
                                ints,
                                Some(Seq::empty()),
                            ),
                            Some(_) => {},
                        }
                    }
                }
            },
        }
    }
}

/// Lexing at the end of the input yields no handed-back character and no
/// digits, and consumes nothing.
pub proof fn lemma_lexer_empty_input(radix: u32, s: Seq<InputChar>, i: int)
    requires
        i >= s.len(),
    ensures
        lex_from(radix, s, i, Seq::empty(), None) == (LexOutcome {
            res: Ok::<_, CalcError>((None, (Seq::<u32>::empty(), Seq::<u32>::empty()))),
            end: i,
        }),
{
}

/// A leading character that cannot start a literal is handed straight back,
/// with no digits accumulated.
pub proof fn lemma_lexer_leading_nonnumber(radix: u32, s: Seq<InputChar>, i: int, c: char)
    requires
        0 <= i < s.len(),
        s[i] == InputChar::Chr(c),
        !is_number_char(radix, c),
    ensures
        lex_from(radix, s, i, Seq::empty(), None) == (LexOutcome {
            res: Ok::<_, CalcError>((Some(c), (Seq::<u32>::empty(), Seq::<u32>::empty()))),
            end: i + 1,
        }),
{
}

/// The lexer only moves forward: the reported end never lies before the
/// position it started from.
pub proof fn lemma_lex_end_monotonic(
    radix: u32,
    s: Seq<InputChar>,
    i: int,
    ints: Seq<u32>,
    fracs: Option<Seq<u32>>,
)
    ensures
        lex_from(radix, s, i, ints, fracs).end >= i,
    decreases s.len() - i,
{
    if 0 <= i < s.len() {
        match s[i] {
            InputChar::Bad => {},
            InputChar::Chr(c) => {
                if is_number_char(radix, c) {
                    if digit_ok(radix, c) {
                        match fracs {
                            None => lemma_lex_end_monotonic(
                                radix,
                                s,
                                i + 1,
                                ints.push(digit_val(c) as u32),
                                None,
                            ),
                            Some(f) => lemma_lex_end_monotonic(
                                radix,
                                s,
                                i + 1,
                                ints,
                                Some(f.push(digit_val(c) as u32)),
                            ),
                        }
                    } else {
                        match fracs {
                            None => lemma_lex_end_monotonic(radix, s, i + 1, ints, Some(Seq::empty())),
                            Some(_) => {},
                        }
                    }
                }
            },
        }
    }
}

/// The glyph of the digit value `d`, for values up to the maximum radix.
pub open spec fn digit_glyph(d: int) -> char {
    if d == 0 {
        '0'
    } else if d == 1 {
        '1'
    } else if d == 2 {
        '2'
    } else if d == 3 {
        '3'
    } else if d == 4 {
        '4'
    } else if d == 5 {
        '5'
    } else if d == 6 {
        '6'
    } else if d == 7 {
        '7'
    } else if d == 8 {
        '8'
    } else if d == 9 {
        '9'
    } else if d == 10 {
        'a'
    } else if d == 11 {
        'b'
    } else if d == 12 {
        'c'
    } else if d == 13 {
        'd'
    } else if d == 14 {
        'e'
    } else {
        'f'
    }
}

/// The input that spells the digit values `ds`, one glyph per digit.
pub open spec fn encode_digits(ds: Seq<u32>) -> Seq<InputChar> {
    ds.map_values(|d: u32| InputChar::Chr(digit_glyph(d as int)))
}

proof fn lemma_lex_digit_run(radix: u32, ds: Seq<u32>, i: int, acc: Seq<u32>)
    requires
        2 <= radix <= 16,
        0 <= i <= ds.len(),
        forall|k: int| 0 <= k < ds.len() ==> ds[k] < radix,
    ensures
        lex_from(radix, encode_digits(ds), i, acc, None) == (LexOutcome {
            res: Ok::<_, CalcError>((None, (acc + ds.skip(i), Seq::<u32>::empty()))),
            end: ds.len() as int,
        }),
    decreases ds.len() - i,
{
    let s = encode_digits(ds);
    if i == ds.len() {
        assert(acc + ds.skip(i) =~= acc);
    } else {
        let d = ds[i];
        assert(s[i] == InputChar::Chr(digit_glyph(d as int)));
        assert(digit_val(digit_glyph(d as int)) == d);
        lemma_lex_digit_run(radix, ds, i + 1, acc.push(d));
        assert(acc.push(d) + ds.skip(i + 1) =~= acc + ds.skip(i));
    }
}

/// Round trip for a plain digit string: lexing the glyphs of any digit
/// values valid in the radix consumes the whole string and returns exactly
/// those values, in order, with no fractional part and nothing handed back.
/// Together with [`lemma_place_value`] this reads the string at its standard
/// place value, [`int_value`].
pub proof fn lemma_digit_string_round_trip(radix: u32, ds: Seq<u32>)
    requires
        2 <= radix <= 16,
        forall|k: int| 0 <= k < ds.len() ==> ds[k] < radix,
    ensures
        lex_from(radix, encode_digits(ds), 0, Seq::empty(), None) == (LexOutcome {
            res: Ok::<_, CalcError>((None, (ds, Seq::<u32>::empty()))),
            end: ds.len() as int,
        }),
{
    lemma_lex_digit_run(radix, ds, 0, Seq::empty());
    assert(Seq::<u32>::empty() + ds.skip(0) =~= ds);
}

/// The integer a digit string denotes when read most-significant first in
/// `radix`: the fold `acc * radix + digit`.
pub open spec fn int_value(radix: int, ds: Seq<u32>) -> int
    decreases ds.len(),
{
    if ds.len() == 0 {
        0
    } else {
        int_value(radix, ds.drop_last()) * radix + ds.last()
    }
}

/// `radix` raised to the power `n`.
pub open spec fn pow_of(radix: int, n: nat) -> int
    decreases n,
{
    if n == 0 {
        1
    } else {
        pow_of(radix, (n - 1) as nat) * radix
    }
}

/// The exact value of a lexed literal is `literal_numerator / literal_scale`:
/// all digits read as one integer, divided by `radix` to the number of
/// fractional digits.
pub open spec fn literal_numerator(radix: int, ints: Seq<u32>, fracs: Seq<u32>) -> int {
    int_value(radix, ints + fracs)
}

/// The denominator that scales [`literal_numerator`] down to the literal's
/// value.
pub open spec fn literal_scale(radix: int, fracs: Seq<u32>) -> int {
    pow_of(radix, fracs.len())
}

/// Standard place value: splitting a digit string anywhere, the left part is
/// worth its own value shifted up by one radix power per digit on the right.
/// In particular the integer part of a literal contributes
/// `int_value(radix, ints) * literal_scale(radix, fracs)` to the numerator.
pub proof fn lemma_place_value(radix: int, hi: Seq<u32>, lo: Seq<u32>)
    ensures
        int_value(radix, hi + lo) == int_value(radix, hi) * pow_of(radix, lo.len()) + int_value(
            radix,
            lo,
        ),
    decreases lo.len(),
{
    if lo.len() == 0 {
        assert(hi + lo =~= hi);
    } else {
        lemma_place_value(radix, hi, lo.drop_last());
        assert((hi + lo).drop_last() =~= hi + lo.drop_last());
        assert((hi + lo).last() == lo.last());
        assert(int_value(radix, hi + lo) == (int_value(radix, hi) * pow_of(
            radix,
            (lo.len() - 1) as nat,
        ) + int_value(radix, lo.drop_last())) * radix + lo.last()) by {
        }
        assert(int_value(radix, hi) * pow_of(radix, (lo.len() - 1) as nat) * radix == int_value(
            radix,
            hi,
        ) * pow_of(radix, lo.len())) by (nonlinear_arith)
            requires
                pow_of(radix, lo.len()) == pow_of(radix, (lo.len() - 1) as nat) * radix,
        ;
        assert((int_value(radix, hi) * pow_of(radix, (lo.len() - 1) as nat) + int_value(
            radix,
            lo.drop_last(),
        )) * radix == int_value(radix, hi) * pow_of(radix, (lo.len() - 1) as nat) * radix
            + int_value(radix, lo.drop_last()) * radix) by (nonlinear_arith);
    }
}

} // verus!
