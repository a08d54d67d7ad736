//! The command interpreter: one command character against a target stack.
//!
//! The interpreter operates on whichever stack is currently the target (the
//! main stack, or a register's stack for the in-register command) and on the
//! shared input radix.  A leading digit first runs the literal lexer and
//! pushes the lexed value; a character the lexer hands back is then executed
//! as a command in the same step.  Every effect of a command on the stack,
//! the radix and the output sinks is stated exactly, each computed value as
//! the value type's own named function of its operands (see
//! [`crate::value::Numeric`]).

use vstd::prelude::*;
use vstd::pervasive::unreached;
use crate::errors::CalcError;
use crate::lexer::{collect_number, digit_ok, is_numeric, lex_from, InputChar};
use crate::output::{Diag, Outputs};
use crate::render::{format_entries, stack_lines};
use crate::stack::{depth_err, rotated, Stack};
use crate::value::Numeric;

verus! {

/// The largest input radix a program may select with the `i` command.
pub const MAX_RADIX: u32 = 16;

/// Applies a requested input radix: a value above the maximum is rejected
/// with a warning on the diagnostic sink and the radix stays as it was; any
/// other value becomes the new input radix.
pub fn apply_radix(input_radix: &mut u32, new_radix: u32, out: &mut Outputs)
    ensures
        final(out).values@ == old(out).values@,
        new_radix > MAX_RADIX ==> *final(input_radix) == *old(input_radix) && final(out).diags@
            == old(out).diags@.push(Diag::RadixWarning),
        new_radix <= MAX_RADIX ==> *final(input_radix) == new_radix && final(out).diags@ == old(
            out,
        ).diags@,
{
    if new_radix > MAX_RADIX {
        out.push_diag(Diag::RadixWarning);
    } else {
        *input_radix = new_radix;
    }
}

/// What executing the single command `c` (never a digit run) did: how the
/// target stack `s0`, the input radix `rx0` and the output sinks `vals0` /
/// `dgs0` became `s1`, `rx1`, `vals1` and `dgs1`, and which result `r` came
/// back.  Every placed value is the value type's named result over the
/// popped or peeked operands; rendered text is pinned up to its character
/// sequence.
pub open spec fn dispatch_post<V: Numeric>(
    c: char,
    s0: Seq<V>,
    rx0: u32,
    vals0: Seq<String>,
    dgs0: Seq<Diag>,
    s1: Seq<V>,
    rx1: u32,
    vals1: Seq<String>,
    dgs1: Seq<Diag>,
    r: Result<(), CalcError>,
) -> bool {
    let n = s0.len() as int;
    let same_rest = rx1 == rx0 && vals1 == vals0 && dgs1 == dgs0;
    let unchanged = s1 == s0 && same_rest;
    match c {
        'v' => if n == 0 {
            r == Err::<(), CalcError>(CalcError::EmptyStack) && unchanged
        } else {
            r is Ok && s1 == s0 && rx1 == rx0 && dgs1 == dgs0 && (exists|t: String|
                t@ == s0.last().render_spec() && vals1 == vals0.push(t))
        },
        'V' => r is Ok && s1 == s0 && rx1 == rx0 && dgs1 == dgs0 && (exists|t: String|
            t@ == stack_lines(s0.map_values(|v: V| v.render_spec())) && vals1 == vals0.push(t)),
        'p' => if n == 0 {
            r == Err::<(), CalcError>(CalcError::EmptyStack) && unchanged
        } else {
            r is Ok && s1 == s0.drop_last() && rx1 == rx0 && dgs1 == dgs0 && (exists|t: String|
                t@ == s0.last().render_spec() && vals1 == vals0.push(t))
        },
        '+' | '-' | '*' | '/' | '%' | '^' => if n == 0 {
            r == Err::<(), CalcError>(CalcError::EmptyStack) && unchanged
        } else if n == 1 {
            r == Err::<(), CalcError>(CalcError::EmptyStack) && s1 == s0.drop_last() && same_rest
        } else {
            let a = s0[n - 1];
            let b = s0[n - 2];
            let v = if c == '+' {
                b.plus_spec(a)
            } else if c == '-' {
                b.minus_spec(a)
            } else if c == '*' {
                b.times_spec(a)
            } else if c == '/' {
                b.divided_by_spec(a)
            } else if c == '%' {
                b.modulo_spec(a)
            } else {
                b.to_power_spec(a)
            };
            r is Ok && same_rest && s1 == s0.drop_last().drop_last().push(v)
        },
        '"' => if n == 0 {
            r == Err::<(), CalcError>(depth_err(0)) && unchanged
        } else if n == 1 {
            r == Err::<(), CalcError>(depth_err(1)) && unchanged
        } else {
            let dividend = s0[n - 1];
            let divisor = s0[n - 2];
            r is Ok && same_rest && s1 == s0.update(n - 2, dividend.divided_by_spec(divisor)).update(
                n - 1,
                dividend.modulo_spec(divisor),
            )
        },
        '~' => if n == 0 {
            r == Err::<(), CalcError>(CalcError::EmptyStack) && unchanged
        } else {
            r is Ok && same_rest && s1 == s0.update(n - 1, s0[n - 1].negated_spec())
        },
        'c' => r is Ok && s1 == Seq::<V>::empty() && same_rest,
        'd' => if n == 0 {
            r == Err::<(), CalcError>(CalcError::EmptyStack) && unchanged
        } else {
            r is Ok && s1 == s0.push(s0.last()) && same_rest
        },
        'r' => if n == 0 {
            r == Err::<(), CalcError>(depth_err(0)) && unchanged
        } else if n == 1 {
            r == Err::<(), CalcError>(depth_err(1)) && unchanged
        } else {
            r is Ok && s1 == s0.update(n - 2, s0[n - 1]).update(n - 1, s0[n - 2]) && same_rest
        },
        'R' => if n == 0 {
            r == Err::<(), CalcError>(CalcError::EmptyStack) && unchanged
        } else {
            let body = s0.drop_last();
            let k = s0[n - 1].to_index_spec() as int;
            let k_abs = if k >= 0 {
                k
            } else {
                -k
            };
            same_rest && (if k_abs <= body.len() {
                r is Ok && s1 == rotated(body, k)
            } else {
                r == Err::<(), CalcError>(depth_err(k_abs as usize)) && s1 == body
            })
        },
        'i' => if n == 0 {
            r == Err::<(), CalcError>(CalcError::EmptyStack) && unchanged
        } else {
            let nr = s0[n - 1].to_radix_spec();
            r is Ok && s1 == s0.drop_last() && vals1 == vals0 && (if nr > MAX_RADIX {
                rx1 == rx0 && dgs1 == dgs0.push(Diag::RadixWarning)
            } else {
                rx1 == nr && dgs1 == dgs0
            })
        },
        'I' => r is Ok && same_rest && s1 == s0.push(V::from_count_spec(rx0 as usize)),
        'z' => r is Ok && same_rest && s1 == s0.push(V::from_count_spec(s0.len() as usize)),
        ' ' | '\t' | '\0' => r is Ok && unchanged,
        '\n' => r is Ok && s1 == s0 && rx1 == rx0 && vals1 == vals0 && dgs1 == dgs0.push(
            Diag::Prompt,
        ),
        _ => r == Err::<(), CalcError>(CalcError::UnknownCommand(c)) && unchanged,
    }
}

/// Executes the single command character `c` against `stack` and the shared
/// radix, recording output on `out`, exactly as [`dispatch_post`] describes.
/// The input radix never leaves the valid range.
#[verifier::rlimit(100)]
pub fn dispatch<V: Numeric>(
    stack: &mut Stack<V>,
    input_radix: &mut u32,
    c: char,
    out: &mut Outputs,
) -> (r: Result<(), CalcError>)
    ensures
        dispatch_post(
            c,
            old(stack)@,
            *old(input_radix),
            old(out).values@,
            old(out).diags@,
            final(stack)@,
            *final(input_radix),
            final(out).values@,
            final(out).diags@,
            r,
        ),
        *old(input_radix) <= MAX_RADIX ==> *final(input_radix) <= MAX_RADIX,
        old(out).values@.is_prefix_of(final(out).values@),
        old(out).diags@.is_prefix_of(final(out).diags@),
{
    broadcast use crate::output::lemma_prefix_push, crate::output::lemma_prefix_refl;

    match c {
        'v' => {
            let t = *stack.top()?;
            out.push_value(t.render());
        },
        'V' => {
            let len = stack.len();
            let mut entries: Vec<String> = Vec::new();
            let mut i: usize = 0;
            while i < len
                invariant
                    i <= len,
                    len == stack@.len(),
                    entries@.len() == i,
                    forall|j: int|
                        0 <= j < i ==> (#[trigger] entries@[j])@ == stack@[j].render_spec(),
                decreases len - i,
            {
                let e: V = match stack.nth(len - 1 - i) {
                    Ok(v) => *v,
                    Err(_) => unreached(),
                };
                entries.push(e.render());
                i = i + 1;
            }
            let text = format_entries(&entries);
            proof {
                let w = entries@.map_values(|t: String| t@);
                let ws = old(stack)@.map_values(|v: V| v.render_spec());
                assert(w =~= ws);
                assert(text@ == stack_lines(ws));
            }
            out.push_value(text);
        },
        'p' => {
            let t = stack.pop()?;
            out.push_value(t.render());
        },
        '+' => {
            let addend = stack.pop()?;
            let t = stack.top_mut()?;
            let b = *t;
            *t = b.plus(addend);
            proof {
                assert(stack@ =~= old(stack)@.drop_last().drop_last().push(stack@.last()));
            }
        },
        '-' => {
            let subtrahend = stack.pop()?;
            let t = stack.top_mut()?;
            let b = *t;
            *t = b.minus(subtrahend);
            proof {
                assert(stack@ =~= old(stack)@.drop_last().drop_last().push(stack@.last()));
            }
        },
        '*' => {
            let factor = stack.pop()?;
            let t = stack.top_mut()?;
            let b = *t;
            *t = b.times(factor);
            proof {
                assert(stack@ =~= old(stack)@.drop_last().drop_last().push(stack@.last()));
            }
        },
        '/' => {
            let divisor = stack.pop()?;
            let t = stack.top_mut()?;
            let b = *t;
            *t = b.divided_by(divisor);
            proof {
                assert(stack@ =~= old(stack)@.drop_last().drop_last().push(stack@.last()));
            }
        },
        '%' => {
            let modulus = stack.pop()?;
            let t = stack.top_mut()?;
            let b = *t;
            *t = b.modulo(modulus);
            proof {
                assert(stack@ =~= old(stack)@.drop_last().drop_last().push(stack@.last()));
            }
        },
        '"' => {
            let dividend = *stack.nth(0)?;
            let divisor = *stack.nth(1)?;
            let t1 = stack.nth_mut(1)?;
            *t1 = dividend.divided_by(divisor);
            let t0 = stack.nth_mut(0)?;
            *t0 = dividend.modulo(divisor);
            proof {
                let s0 = old(stack)@;
                let n = s0.len() as int;
                assert(stack@ =~= s0.update(n - 2, stack@[n - 2]).update(n - 1, stack@[n - 1]));
            }
        },
        '^' => {
            let amount = stack.pop()?;
            let t = stack.top_mut()?;
            let b = *t;
            *t = b.to_power(amount);
            proof {
                assert(stack@ =~= old(stack)@.drop_last().drop_last().push(stack@.last()));
            }
        },
        '~' => {
            let t = stack.top_mut()?;
            let b = *t;
            *t = b.negated();
        },
        'c' => {
            stack.clear();
        },
        'd' => {
            let t = *stack.top()?;
            stack.push(t);
        },
        'r' => {
            let a = *stack.nth(0)?;
            let b = *stack.nth(1)?;
            let t0 = stack.nth_mut(0)?;
            *t0 = b;
            let t1 = stack.nth_mut(1)?;
            *t1 = a;
            proof {
                let s0 = old(stack)@;
                let n = s0.len() as int;
                assert(stack@ =~= s0.update(n - 2, s0[n - 1]).update(n - 1, s0[n - 2]));
            }
        },
        'R' => {
            let amount = stack.pop()?;
            let k = amount.to_index();
            let res = stack.rotate(k);
            proof {
                let body = old(stack)@.drop_last();
                if res is Ok {
                    if k == 0 {
                        assert(rotated(body, 0) == body);
                        assert(-body.len() <= 0 <= body.len() && stack@ == rotated(body, 0));
                    } else {
                        assert(-body.len() <= k as int <= body.len() && stack@ == rotated(
                            body,
                            k as int,
                        ));
                    }
                }
            }
            res?;
        },
        'i' => {
            let a = stack.pop()?;
            apply_radix(input_radix, a.to_radix(), out);
        },
        'I' => {
            let radix = *input_radix;
            stack.push(V::from_count(radix as usize));
        },
        ' ' | '\t' | '\0' => {},
        '\n' => {
            out.push_diag(Diag::Prompt);
        },
        'z' => {
            let n = stack.len();
            stack.push(V::from_count(n));
        },
        _ => {
            return Err(CalcError::UnknownCommand(c));
        },
    }
    Ok(())
}

/// How one full interpreter step on the leading character `first` relates
/// the state before it to the state after it.  The step was entered after
/// `first` was taken from `input` at `p0 - 1`.  When `first` is a digit in
/// the current radix, the literal lexer runs from that position and its
/// value is pushed; a handed-back character is then executed as a command on
/// the stack with the value already pushed.  Otherwise `first` itself is
/// executed, consuming no input.
pub open spec fn handle_post<V: Numeric>(
    first: char,
    input: Seq<InputChar>,
    p0: int,
    s0: Seq<V>,
    rx0: u32,
    vals0: Seq<String>,
    dgs0: Seq<Diag>,
    s1: Seq<V>,
    rx1: u32,
    vals1: Seq<String>,
    dgs1: Seq<Diag>,
    p1: int,
    r: Result<(), CalcError>,
) -> bool {
    if digit_ok(rx0, first) {
        let o = lex_from(rx0, input, p0 - 1, Seq::empty(), None);
        p1 == o.end && match o.res {
            Err(e) => r == Err::<(), CalcError>(e) && s1 == s0 && rx1 == rx0 && vals1 == vals0
                && dgs1 == dgs0,
            Ok((pb, digs)) => {
                let v = V::from_literal_spec(rx0, digs.0, digs.1);
                match pb {
                    None => r is Ok && rx1 == rx0 && vals1 == vals0 && dgs1 == dgs0 && s1
                        == s0.push(v),
                    Some(c2) => dispatch_post(
                        c2,
                        s0.push(v),
                        rx0,
                        vals0,
                        dgs0,
                        s1,
                        rx1,
                        vals1,
                        dgs1,
                        r,
                    ),
                }
            },
        }
    } else {
        p1 == p0 && dispatch_post(first, s0, rx0, vals0, dgs0, s1, rx1, vals1, dgs1, r)
    }
}

/// Runs one interpreter step on the leading character `first`, which the
/// caller just took from `input` at `*pos - 1`, exactly as [`handle_post`]
/// describes.
pub fn handle<V: Numeric>(
    stack: &mut Stack<V>,
    input_radix: &mut u32,
    first: char,
    input: &Vec<InputChar>,
    pos: &mut usize,
    out: &mut Outputs,
) -> (r: Result<(), CalcError>)
    requires
        1 <= *old(pos) <= input@.len(),
        input@[*old(pos) - 1] == InputChar::Chr(first),
    ensures
        handle_post(
            first,
            input@,
            *old(pos) as int,
            old(stack)@,
            *old(input_radix),
            old(out).values@,
            old(out).diags@,
            final(stack)@,
            *final(input_radix),
            final(out).values@,
            final(out).diags@,
            *final(pos) as int,
            r,
        ),
        *old(pos) <= *final(pos) <= input@.len(),
        *old(input_radix) <= MAX_RADIX ==> *final(input_radix) <= MAX_RADIX,
        old(out).values@.is_prefix_of(final(out).values@),
        old(out).diags@.is_prefix_of(final(out).diags@),
{
    broadcast use crate::output::lemma_prefix_refl;

    if is_numeric(*input_radix, first) {
        proof {
            let p0 = *old(pos) as int;
            crate::lexer::lemma_lex_end_monotonic(
                *input_radix,
                input@,
                p0,
                Seq::empty().push(crate::lexer::digit_val(first) as u32),
                None,
            );
            assert(lex_from(*input_radix, input@, p0 - 1, Seq::empty(), None) == lex_from(
                *input_radix,
                input@,
                p0,
                Seq::empty().push(crate::lexer::digit_val(first) as u32),
                None,
            ));
        }
        *pos = *pos - 1;
        match collect_number(*input_radix, input, pos) {
            Err(e) => Err(e),
            Ok((pushback, lit)) => {
                let v = V::from_literal(*input_radix, &lit);
                stack.push(v);
                match pushback {
                    None => Ok(()),
                    Some(c2) => dispatch(stack, input_radix, c2, out),
                }
            },
        }
    } else {
        dispatch(stack, input_radix, first, out)
    }
}

} // verus!
