//! The top-level router: main stack, register bank, and shared input radix.
//!
//! For each leading character the calculator decides whether the command
//! operates on the main stack or routes into a register: the store/load
//! commands move values between the main stack and a named register, the
//! in-register command runs one interpreter step with a register's stack as
//! the target, the help command reads its subject character, and every other
//! character goes straight to the command interpreter against the main
//! stack.

use vstd::prelude::*;
use crate::errors::CalcError;
use crate::interp::{handle_post, MAX_RADIX};
use crate::lexer::InputChar;
use crate::output::{lemma_prefix_push, lemma_prefix_refl, lemma_prefix_trans, Diag, Outputs};
use crate::registers::{reg_contents, Registers};
use crate::stack::Stack;
use crate::value::Numeric;

verus! {

/// The diagnostic event a help request about `c` emits: the usage note for a
/// whitespace or NUL subject, else the lookup event for the host's table.
pub open spec fn help_diag(c: char) -> Diag {
    if c == '\n' || c == ' ' || c == '\t' || c == '\0' {
        Diag::HelpUsage(c)
    } else {
        Diag::Help(c)
    }
}

/// How one routed step on the leading character `first` relates the state
/// before the step to the state after it.  `first` was taken from `input` at
/// `p0 - 1`, and `p1` is the input position after the step.  `s`/`m`/`rx`
/// are the main stack, the register bank and the shared input radix;
/// `vals`/`dgs` are the two output sinks; `0` is before, `1` after.
pub open spec fn router_post<V: Numeric>(
    first: char,
    input: Seq<InputChar>,
    p0: int,
    p1: int,
    s0: Seq<V>,
    m0: Map<char, Seq<V>>,
    rx0: u32,
    vals0: Seq<String>,
    dgs0: Seq<Diag>,
    s1: Seq<V>,
    m1: Map<char, Seq<V>>,
    rx1: u32,
    vals1: Seq<String>,
    dgs1: Seq<Diag>,
    r: Result<(), CalcError>,
) -> bool {
    let n = input.len() as int;
    let unchanged = s1 == s0 && m1 == m0 && rx1 == rx0;
    let out_same = vals1 == vals0 && dgs1 == dgs0;
    &&& ({
        first == '?' ==> (if p0 >= n {
                r == Err::<(), CalcError>(CalcError::MissingOperand('?')) && unchanged
                    && out_same && p1 == p0
            } else {
                p1 == p0 + 1 && match input[p0] {
                    InputChar::Bad => r == Err::<(), CalcError>(
                        CalcError::InputDecodeFailure,
                    ) && unchanged && out_same,
                    InputChar::Chr(subj) => r is Ok && unchanged && vals1 == vals0 && dgs1
                        == dgs0.push(help_diag(subj)),
                }
            })
    })
    &&& ({
        (first == 's' || first == 'S') ==> (if p0 >= n {
                r == Err::<(), CalcError>(CalcError::MissingOperand('s')) && unchanged
                    && out_same && p1 == p0
            } else {
                p1 == p0 + 1 && match input[p0] {
                    InputChar::Bad => r == Err::<(), CalcError>(
                        CalcError::InputDecodeFailure,
                    ) && unchanged && out_same,
                    InputChar::Chr(reg) => out_same && rx1 == rx0 && (if s0.len() == 0 {
                        r == Err::<(), CalcError>(CalcError::EmptyStack) && s1 == s0 && m1
                            == m0
                    } else {
                        r is Ok && s1 == (if first == 's' {
                            s0.drop_last()
                        } else {
                            s0
                        }) && m1 == m0.insert(
                            reg,
                            reg_contents(m0, reg).push(s0.last()),
                        )
                    }),
                }
            })
    })
    &&& ({
        first == 'l' ==> (if p0 >= n {
                r == Err::<(), CalcError>(CalcError::MissingOperand('l')) && unchanged
                    && out_same && p1 == p0
            } else {
                p1 == p0 + 1 && match input[p0] {
                    InputChar::Bad => r == Err::<(), CalcError>(
                        CalcError::InputDecodeFailure,
                    ) && unchanged && out_same,
                    InputChar::Chr(reg) => out_same && rx1 == rx0 && (if reg_contents(
                        m0,
                        reg,
                    ).len() == 0 {
                        r == Err::<(), CalcError>(CalcError::RegisterUnderflow(reg)) && s1
                            == s0 && m1 == m0.insert(reg, reg_contents(m0, reg))
                    } else {
                        r is Ok && s1 == s0.push(reg_contents(m0, reg).last()) && m1
                            == m0.insert(reg, reg_contents(m0, reg).drop_last())
                    }),
                }
            })
    })
    &&& ({
        first == 'L' ==> (if p0 >= n {
                r == Err::<(), CalcError>(CalcError::MissingOperand('L')) && unchanged
                    && out_same && p1 == p0
            } else {
                p1 == p0 + 1 && match input[p0] {
                    InputChar::Bad => r == Err::<(), CalcError>(
                        CalcError::InputDecodeFailure,
                    ) && unchanged && out_same,
                    InputChar::Chr(reg) => out_same && rx1 == rx0 && m1 == m0 && (if !m0.contains_key(
                        reg,
                    ) {
                        r == Err::<(), CalcError>(CalcError::RegisterNotSet(reg)) && s1
                            == s0
                    } else if m0[reg].len() == 0 {
                        r == Err::<(), CalcError>(CalcError::RegisterUnderflow(reg)) && s1
                            == s0
                    } else {
                        r is Ok && s1 == s0.push(m0[reg].last())
                    }),
                }
            })
    })
    &&& ({
        first == '&' ==> (if p0 >= n {
                r == Err::<(), CalcError>(CalcError::MissingOperand('&')) && unchanged
                    && out_same && p1 == p0
            } else {
                match input[p0] {
                    InputChar::Bad => r == Err::<(), CalcError>(
                        CalcError::InputDecodeFailure,
                    ) && unchanged && out_same && p1 == p0 + 1,
                    InputChar::Chr(reg) => if p0 + 1 >= n {
                        r == Err::<(), CalcError>(CalcError::MissingOperand('&'))
                            && unchanged && out_same && p1 == p0 + 1
                    } else {
                        match input[p0 + 1] {
                            InputChar::Bad => r == Err::<(), CalcError>(
                                CalcError::InputDecodeFailure,
                            ) && unchanged && out_same && p1 == p0 + 2,
                            InputChar::Chr(opc) => s1 == s0 && handle_post(
                                opc,
                                input,
                                p0 + 2,
                                reg_contents(m0, reg),
                                rx0,
                                vals0,
                                dgs0,
                                reg_contents(m1, reg),
                                rx1,
                                vals1,
                                dgs1,
                                p1,
                                r,
                            ) && m1 == m0.insert(reg, reg_contents(m1, reg)),
                        }
                    },
                }
            })
    })
    &&& ({
        !(first == '?' || first == 's' || first == 'S' || first == 'l' || first == 'L' || first == '&') ==> (m1 == m0 && handle_post(
                first,
                input,
                p0,
                s0,
                rx0,
                vals0,
                dgs0,
                s1,
                rx1,
                vals1,
                dgs1,
                p1,
                r,
            ))
    })
}

/// A snapshot of an evaluation session between two steps: the position of
/// the next character to take, the calculator's state, and both sinks.
pub struct SessionState<V> {
    /// The position of the next character to take from the input.
    pub pos: int,
    /// The main stack's contents.
    pub stack: Seq<V>,
    /// The register bank's contents.
    pub registers: Map<char, Seq<V>>,
    /// The input radix.
    pub radix: u32,
    /// The value sink.
    pub values: Seq<String>,
    /// The diagnostic sink.
    pub diags: Seq<Diag>,
}

/// One step of an evaluation session that the session survives: snapshot
/// `b` follows snapshot `a` by taking the decoded character at `a.pos` and
/// routing it, a failing command appending its report to the diagnostic sink
/// before the session goes on.  A decoding failure is never stepped over:
/// wherever it arises it ends the session (see [`session_fatal_step`]).
pub open spec fn session_step<V: Numeric>(
    input: Seq<InputChar>,
    a: SessionState<V>,
    b: SessionState<V>,
) -> bool {
    &&& 0 <= a.pos < input.len()
    &&& match input[a.pos] {
        InputChar::Bad => false,
        InputChar::Chr(c) => exists|r1: Result<(), CalcError>, mid: Seq<Diag>|
            #[trigger] router_post(
                c,
                input,
                a.pos + 1,
                b.pos,
                a.stack,
                a.registers,
                a.radix,
                a.values,
                a.diags,
                b.stack,
                b.registers,
                b.radix,
                b.values,
                mid,
                r1,
            ) && b.diags == (match r1 {
                Ok(()) => mid,
                Err(e) => mid.push(Diag::CommandError(e)),
            }) && !(r1 == Err::<(), CalcError>(CalcError::InputDecodeFailure)),
    }
}

/// The last transition of a session that a decoding failure inside a command
/// kills: the routed step on the character at `a.pos` ended with
/// `InputDecodeFailure`, its partial effects stand, and nothing is appended
/// to the diagnostic sink.
pub open spec fn session_fatal_step<V: Numeric>(
    input: Seq<InputChar>,
    a: SessionState<V>,
    b: SessionState<V>,
) -> bool {
    &&& 0 <= a.pos < input.len()
    &&& match input[a.pos] {
        InputChar::Bad => false,
        InputChar::Chr(c) => router_post(
            c,
            input,
            a.pos + 1,
            b.pos,
            a.stack,
            a.registers,
            a.radix,
            a.values,
            a.diags,
            b.stack,
            b.registers,
            b.radix,
            b.values,
            b.diags,
            Err::<(), CalcError>(CalcError::InputDecodeFailure),
        ),
    }
}

/// A whole session: every adjacent pair of snapshots is one step.
pub open spec fn session_steps<V: Numeric>(
    input: Seq<InputChar>,
    trace: Seq<SessionState<V>>,
) -> bool {
    forall|k: int|
        0 <= k < trace.len() - 1 ==> #[trigger] session_step(input, trace[k], trace[k + 1])
}

/// The calculator: the main stack, the register bank, and the input radix
/// shared by every literal lexed on either.
pub struct Calculator<V: Numeric> {
    input_radix: u32,
    stack: Stack<V>,
    registers: Registers<V>,
}

/// Takes the operand character that must follow the command `cmd`, advancing
/// past it; at the end of the input the command fails with `MissingOperand`.
fn next_operand(input: &Vec<InputChar>, pos: &mut usize, cmd: char) -> (r: Result<char, CalcError>)
    requires
        *old(pos) <= input@.len(),
    ensures
        *old(pos) >= input@.len() ==> (r == Err::<char, CalcError>(CalcError::MissingOperand(cmd))
            && *final(pos) == *old(pos)),
        *old(pos) < input@.len() ==> (*final(pos) == *old(pos) + 1 && (match input@[*old(
            pos,
        ) as int] {
            InputChar::Bad => r == Err::<char, CalcError>(CalcError::InputDecodeFailure),
            InputChar::Chr(c) => r == Ok::<char, CalcError>(c),
        })),
{
    if *pos >= input.len() {
        return Err(CalcError::MissingOperand(cmd));
    }
    let item = input[*pos];
    *pos = *pos + 1;
    match item {
        InputChar::Bad => Err(CalcError::InputDecodeFailure),
        InputChar::Chr(c) => Ok(c),
    }
}

impl<V: Numeric> Calculator<V> {
    /// The calculator's internal invariant: the register bank keeps its keys
    /// distinct, and the input radix never exceeds the maximum.
    pub closed spec fn well_formed(&self) -> bool {
        self.registers.well_formed() && self.input_radix <= MAX_RADIX
    }

    /// The current input radix.
    pub closed spec fn radix_spec(&self) -> u32 {
        self.input_radix
    }

    /// The contents of the main stack.
    pub closed spec fn stack_spec(&self) -> Seq<V> {
        self.stack@
    }

    /// The contents of the register bank.
    pub closed spec fn registers_spec(&self) -> Map<char, Seq<V>> {
        self.registers@
    }

    /// A fresh calculator: decimal input radix, empty stack, no registers.
    pub fn new() -> (r: Self)
        ensures
            r.well_formed(),
            r.radix_spec() == 10,
            r.stack_spec() == Seq::<V>::empty(),
            r.registers_spec() == Map::<char, Seq<V>>::empty(),
    {
        Calculator { input_radix: 10, stack: Stack::new(), registers: Registers::new() }
    }

    /// Emits the diagnostic for a help request about `for_command`; the
    /// descriptive text itself lives in the host's static table.
    pub fn print_help(for_command: char, out: &mut Outputs)
        ensures
            final(out).diags@ == old(out).diags@.push(help_diag(for_command)),
            final(out).values@ == old(out).values@,
    {
        match for_command {
            '\n' | ' ' | '\t' | '\0' => out.push_diag(Diag::HelpUsage(for_command)),
            _ => out.push_diag(Diag::Help(for_command)),
        }
    }

    /// Handles the leading character `first`, which the caller just took
    /// from `input` at `*pos - 1`: routes the register commands, reads their
    /// operand characters, and hands everything else to the command
    /// interpreter against the main stack, exactly as [`router_post`]
    /// describes.
    #[verifier::rlimit(100)]
    #[verifier::spinoff_prover]
    pub fn handle(
        &mut self,
        first: char,
        input: &Vec<InputChar>,
        pos: &mut usize,
        out: &mut Outputs,
    ) -> (r: Result<(), CalcError>)
        requires
            old(self).well_formed(),
            1 <= *old(pos) <= input@.len(),
            input@[*old(pos) - 1] == InputChar::Chr(first),
        ensures
            final(self).well_formed(),
            *old(pos) <= *final(pos) <= input@.len(),
            old(out).values@.is_prefix_of(final(out).values@),
            old(out).diags@.is_prefix_of(final(out).diags@),
            router_post(
                first,
                input@,
                *old(pos) as int,
                *final(pos) as int,
                old(self).stack_spec(),
                old(self).registers_spec(),
                old(self).radix_spec(),
                old(out).values@,
                old(out).diags@,
                final(self).stack_spec(),
                final(self).registers_spec(),
                final(self).radix_spec(),
                final(out).values@,
                final(out).diags@,
                r,
            ),
    {
        proof {
            lemma_prefix_refl(old(out).values@);
            lemma_prefix_refl(old(out).diags@);
        }
        match first {
            '?' => {
                let subject = next_operand(input, pos, '?')?;
                Self::print_help(subject, out);
                proof {
                    lemma_prefix_push(old(out).diags@, help_diag(subject));
                }
                Ok(())
            },
            's' => {
                let reg = next_operand(input, pos, 's')?;
                let val = self.stack.pop()?;
                self.registers.push(reg, val);
                Ok(())
            },
            'l' => {
                let reg = next_operand(input, pos, 'l')?;
                let val = self.registers.pop(reg)?;
                self.stack.push(val);
                Ok(())
            },
            'S' => {
                let reg = next_operand(input, pos, 's')?;
                let val = *self.stack.top()?;
                self.registers.push(reg, val);
                Ok(())
            },
            'L' => {
                let reg = next_operand(input, pos, 'L')?;
                let val = *self.registers.top(reg)?;
                self.stack.push(val);
                Ok(())
            },
            '&' => {
                let reg = next_operand(input, pos, '&')?;
                let operation = next_operand(input, pos, '&')?;
                let target = self.registers.stack_mut(reg);
                let res = crate::interp::handle(
                    target,
                    &mut self.input_radix,
                    operation,
                    input,
                    pos,
                    out,
                );
                proof {
                    assert(reg_contents(self.registers@, reg) == target@);
                }
                res
            },
            _ => crate::interp::handle(
                &mut self.stack,
                &mut self.input_radix,
                first,
                input,
                pos,
                out,
            ),
        }
    }

    /// Evaluates a whole character sequence: prints the initial prompt
    /// marker, then handles one leading character at a time.  A command
    /// error is reported on the diagnostic sink and evaluation resumes with
    /// the next character; a decoding failure is fatal wherever it arises --
    /// between commands or inside one -- and is the only error this
    /// returns.  The whole run is pinned by a session trace: a chain of
    /// snapshots that starts at the calculator's state with the initial
    /// prompt emitted, advances by one routed step per consumed leading
    /// character (see [`session_step`]), and ends in the state this call
    /// leaves behind -- at the end of the input on success, and on a
    /// decoding failure either at the undecodable item itself or just after
    /// the command it killed (see [`session_fatal_step`]).
    pub fn evaluate(&mut self, input: &Vec<InputChar>, out: &mut Outputs) -> (r: Result<
        (),
        CalcError,
    >)
        requires
            old(self).well_formed(),
        ensures
            final(self).well_formed(),
            r is Err ==> r == Err::<(), CalcError>(CalcError::InputDecodeFailure),
            old(out).values@.is_prefix_of(final(out).values@),
            old(out).diags@.is_prefix_of(final(out).diags@),
            final(out).diags@.len() > old(out).diags@.len(),
            final(out).diags@[old(out).diags@.len() as int] == Diag::Prompt,
            exists|trace: Seq<SessionState<V>>|
                {
                    &&& trace.len() >= 1
                    &&& #[trigger] trace.first() == (SessionState {
                        pos: 0,
                        stack: old(self).stack_spec(),
                        registers: old(self).registers_spec(),
                        radix: old(self).radix_spec(),
                        values: old(out).values@,
                        diags: old(out).diags@.push(Diag::Prompt),
                    })
                    &&& ({
                        let end = trace.last();
                        &&& end.stack == final(self).stack_spec()
                        &&& end.registers == final(self).registers_spec()
                        &&& end.radix == final(self).radix_spec()
                        &&& end.values == final(out).values@
                        &&& end.diags == final(out).diags@
                        &&& 0 <= end.pos <= input@.len()
                        &&& (r is Ok ==> session_steps(input@, trace) && end.pos == input@.len())
                        &&& (r is Err ==> ((session_steps(input@, trace) && end.pos
                            < input@.len() && input@[end.pos] == InputChar::Bad) || (trace.len()
                            >= 2 && session_steps(input@, trace.drop_last()) && session_fatal_step(
                            input@,
                            trace[trace.len() - 2],
                            end,
                        ))))
                    })
                },
    {
        out.push_diag(Diag::Prompt);
        proof {
            lemma_prefix_push(old(out).diags@, Diag::Prompt);
            lemma_prefix_refl(old(out).values@);
        }
        let ghost mut trace: Seq<SessionState<V>> = Seq::empty().push(
            SessionState {
                pos: 0,
                stack: self.stack_spec(),
                registers: self.registers_spec(),
                radix: self.radix_spec(),
                values: out.values@,
                diags: out.diags@,
            },
        );
        let mut pos: usize = 0;
        while pos < input.len()
            invariant
                self.well_formed(),
                pos <= input@.len(),
                old(out).diags@.len() < out.diags@.len(),
                out.diags@[old(out).diags@.len() as int] == Diag::Prompt,
                old(out).values@.is_prefix_of(out.values@),
                old(out).diags@.is_prefix_of(out.diags@),
                trace.len() >= 1,
                session_steps(input@, trace),
                trace.first() == (SessionState {
                    pos: 0,
                    stack: old(self).stack_spec(),
                    registers: old(self).registers_spec(),
                    radix: old(self).radix_spec(),
                    values: old(out).values@,
                    diags: old(out).diags@.push(Diag::Prompt),
                }),
                trace.last() == (SessionState {
                    pos: pos as int,
                    stack: self.stack_spec(),
                    registers: self.registers_spec(),
                    radix: self.radix_spec(),
                    values: out.values@,
                    diags: out.diags@,
                }),
            decreases input@.len() - pos,
        {
            let ghost prev = trace.last();
            let ghost mid_vals = out.values@;
            let ghost mid_dgs = out.diags@;
            let first = match input[pos] {
                InputChar::Chr(c) => c,
                InputChar::Bad => {
                    return Err(CalcError::InputDecodeFailure);
                },
            };
            pos = pos + 1;
            let res = self.handle(first, input, &mut pos, out);
            let ghost routed_dgs = out.diags@;
            match res {
                Ok(()) => {},
                Err(CalcError::InputDecodeFailure) => {
                    proof {
                        lemma_prefix_trans(old(out).values@, mid_vals, out.values@);
                        lemma_prefix_trans(old(out).diags@, mid_dgs, out.diags@);
                        let ns = SessionState::<V> {
                            pos: pos as int,
                            stack: self.stack_spec(),
                            registers: self.registers_spec(),
                            radix: self.radix_spec(),
                            values: out.values@,
                            diags: out.diags@,
                        };
                        assert(router_post(
                            first,
                            input@,
                            prev.pos + 1,
                            ns.pos,
                            prev.stack,
                            prev.registers,
                            prev.radix,
                            prev.values,
                            prev.diags,
                            ns.stack,
                            ns.registers,
                            ns.radix,
                            ns.values,
                            ns.diags,
                            res,
                        ));
                        assert(session_fatal_step(input@, prev, ns));
                        let tr0 = trace;
                        trace = trace.push(ns);
                        assert(trace.drop_last() =~= tr0);
                        assert(trace[trace.len() - 2] == prev);
                        assert(trace.last() == ns);
                        assert(trace.first() == tr0.first());
                    }
                    return Err(CalcError::InputDecodeFailure);
                },
                Err(e) => {
                    proof {
                        lemma_prefix_push(out.diags@, Diag::CommandError(e));
                    }
                    out.push_diag(Diag::CommandError(e));
                },
            }
            proof {
                lemma_prefix_trans(old(out).values@, mid_vals, out.values@);
                lemma_prefix_trans(old(out).diags@, mid_dgs, out.diags@);
                let ns = SessionState::<V> {
                    pos: pos as int,
                    stack: self.stack_spec(),
                    registers: self.registers_spec(),
                    radix: self.radix_spec(),
                    values: out.values@,
                    diags: out.diags@,
                };
                assert(router_post(
                    first,
                    input@,
                    prev.pos + 1,
                    ns.pos,
                    prev.stack,
                    prev.registers,
                    prev.radix,
                    prev.values,
                    prev.diags,
                    ns.stack,
                    ns.registers,
                    ns.radix,
                    ns.values,
                    routed_dgs,
                    res,
                ));
                assert(session_step(input@, prev, ns));
                let tr0 = trace;
                trace = trace.push(ns);
                assert forall|k: int|
                    0 <= k < trace.len() - 1 implies #[trigger] session_step(
                    input@,
                    trace[k],
                    trace[k + 1],
                ) by {
                    if k < tr0.len() - 1 {
                        assert(trace[k] == tr0[k]);
                        assert(trace[k + 1] == tr0[k + 1]);
                        assert(session_step(input@, tr0[k], tr0[k + 1]));
                    } else {
                        assert(trace[k] == prev);
                        assert(trace[k + 1] == ns);
                    }
                }
                assert(trace.first() == tr0.first());
            }
        }
        Ok(())
    }
}

} // verus!
