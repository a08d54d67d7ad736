//! The abstract number type the calculator computes with.
//!
//! The calculator's own logic never performs numeric arithmetic: it moves
//! values between stacks and registers and decides which operation a command
//! asks for.  The arithmetic itself, the folding of lexed digits into a
//! number, and the rendering of a value for the output sink are supplied by
//! the host program through this trait (typically on a floating-point
//! newtype).  Each operation is named by a spec function of the same
//! implementation, and the executable method promises to return exactly its
//! named result, so the interpreter's contracts can pin every stack cell to
//! an expression over the operands; what the names denote is the
//! implementation's own choice, and everything proved in src/ holds for
//! every implementation that keeps these promises.

use vstd::prelude::*;
use crate::lexer::NumberLiteral;

verus! {

/// The digit values of one part of a literal, as the lexer hands them on.
pub type DigitValues = Seq<u32>;

/// Rendered output text, as the sequence of its characters.
pub type RenderedText = Seq<char>;

/// The operations the command interpreter needs of a value type.
pub trait Numeric: Sized + Copy {
    /// The value the implementation gives to a literal with these integer
    /// and fractional digit values in this radix.
    spec fn from_literal_spec(input_radix: u32, int_digits: DigitValues, frac_digits: DigitValues) -> Self;

    /// The value the implementation gives to a small machine integer.
    spec fn from_count_spec(n: usize) -> Self;

    /// The implementation's sum of two values.
    spec fn plus_spec(self, other: Self) -> Self;

    /// The implementation's difference of two values.
    spec fn minus_spec(self, other: Self) -> Self;

    /// The implementation's product of two values.
    spec fn times_spec(self, other: Self) -> Self;

    /// The implementation's quotient of two values.
    spec fn divided_by_spec(self, other: Self) -> Self;

    /// The implementation's remainder of two values.
    spec fn modulo_spec(self, other: Self) -> Self;

    /// The implementation's power of a base and an exponent.
    spec fn to_power_spec(self, exponent: Self) -> Self;

    /// The implementation's negation of a value.
    spec fn negated_spec(self) -> Self;

    /// The rotation amount the implementation reads out of a value.
    spec fn to_index_spec(self) -> isize;

    /// The radix the implementation reads out of a value.
    spec fn to_radix_spec(self) -> u32;

    /// The text the implementation renders a value as.
    spec fn render_spec(self) -> RenderedText;

    /// The value of one lexed literal: the integer digits in place value,
    /// plus the fractional digits scaled down by one radix power each.
    fn from_literal(input_radix: u32, lit: &NumberLiteral) -> (r: Self)
        ensures
            r == Self::from_literal_spec(input_radix, lit.int_digits@, lit.frac_digits@);

    /// The value of a small machine integer (a stack depth, the radix).
    fn from_count(n: usize) -> (r: Self)
        ensures
            r == Self::from_count_spec(n);

    /// Addition, for the `+` command.
    fn plus(self, other: Self) -> (r: Self)
        ensures
            r == self.plus_spec(other);

    /// Subtraction, for the `-` command.
    fn minus(self, other: Self) -> (r: Self)
        ensures
            r == self.minus_spec(other);

    /// Multiplication, for the `*` command.
    fn times(self, other: Self) -> (r: Self)
        ensures
            r == self.times_spec(other);

    /// Division, for the `/` and `"` commands.
    fn divided_by(self, other: Self) -> (r: Self)
        ensures
            r == self.divided_by_spec(other);

    /// Remainder, for the `%` and `"` commands.
    fn modulo(self, other: Self) -> (r: Self)
        ensures
            r == self.modulo_spec(other);

    /// Exponentiation, for the `^` command.
    fn to_power(self, exponent: Self) -> (r: Self)
        ensures
            r == self.to_power_spec(exponent);

    /// Negation, for the `~` command.
    fn negated(self) -> (r: Self)
        ensures
            r == self.negated_spec();

    /// The value read as a signed rotation amount, for the `R` command.
    fn to_index(self) -> (r: isize)
        ensures
            r == self.to_index_spec();

    /// The value read as a radix, for the `i` command.
    fn to_radix(self) -> (r: u32)
        ensures
            r == self.to_radix_spec();

    /// The value rendered for the value output sink.
    fn render(&self) -> (r: String)
        ensures
            r@ == self.render_spec();
}

} // verus!
